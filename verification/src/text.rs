//! Text fields of TDX responses: GBK-encoded names, UTF-8 codes and file
//! names, and fixed-width fields padded with NUL.

use vstd::prelude::*;
use vstd::string::StrSliceExecFns;
use vstd::utf8::{decode_utf8, valid_utf8};

verus! {

/// Name for what `encoding_rs::GBK.decode` makes of `bytes`: the text (with
/// its BOM sniffing and with malformed sequences replaced by U+FFFD) and
/// whether it met malformed sequences.
pub uninterp spec fn gbk_decode_outcome(bytes: Seq<u8>) -> (Seq<char>, bool);

/// Name for the text that `String::from_utf8_lossy` makes of `bytes`.
pub uninterp spec fn utf8_lossy(bytes: Seq<u8>) -> Seq<char>;

/// Decodes with `encoding_rs::GBK.decode` and returns its text and its flag
/// for malformed input; the contract names both.  The bound on the length keeps
/// encoding_rs's buffer-size computation from overflowing (it panics there).
#[verifier::external_body]
fn gbk_decode_raw(bytes: &[u8]) -> (r: (String, bool))
    requires
        bytes@.len() <= 0x1000_0000,
    ensures
        (r.0@, r.1) == gbk_decode_outcome(bytes@),
{
    let (cow, _, had_errors) = encoding_rs::GBK.decode(bytes);
    (cow.into_owned(), had_errors)
}

/// The text of a GBK field: its GBK decoding, or, when that meets malformed
/// input, its lossy UTF-8 decoding.
pub open spec fn gbk_text(bytes: Seq<u8>) -> Seq<char> {
    if gbk_decode_outcome(bytes).1 {
        utf8_lossy(bytes)
    } else {
        gbk_decode_outcome(bytes).0
    }
}

/// Decodes a GBK-encoded byte slice to a `String`, falling back to lossy
/// UTF-8 when the bytes are not well-formed GBK.
pub fn decode_gbk(bytes: &[u8]) -> (s: String)
    requires
        bytes@.len() <= 0x1000_0000,
    ensures
        s@ == gbk_text(bytes@),
{
    let (text, had_errors) = gbk_decode_raw(bytes);
    if had_errors {
        utf8_lossy_string(bytes)
    } else {
        text
    }
}

/// `String::from_utf8_lossy`: the contract names the result and states, as the
/// standard library documents, that valid UTF-8 is decoded unchanged.
#[verifier::external_body]
pub(crate) fn utf8_lossy_string(bytes: &[u8]) -> (s: String)
    ensures
        s@ == utf8_lossy(bytes@),
        valid_utf8(bytes@) ==> s@ == decode_utf8(bytes@),
{
    String::from_utf8_lossy(bytes).into_owned()
}

/// `std::str::from_utf8`, owned: `Some` exactly for valid UTF-8, holding its
/// decoding.
#[verifier::external_body]
pub(crate) fn utf8_string(bytes: &[u8]) -> (r: Option<String>)
    ensures
        r is Some <==> valid_utf8(bytes@),
        r matches Some(s) ==> s@ == decode_utf8(bytes@),
{
    match std::str::from_utf8(bytes) {
        Ok(s) => Some(s.to_owned()),
        Err(_) => None,
    }
}

/// `s` without its trailing NUL characters.
pub open spec fn without_trailing_nul(s: Seq<char>) -> Seq<char>
    decreases s.len(),
{
    if s.len() > 0 && s.last() == '\0' {
        without_trailing_nul(s.drop_last())
    } else {
        s
    }
}

/// Removes the NUL characters at the end of `s` (`trim_end_matches('\0')`).
pub fn trim_trailing_nul(s: &str) -> (t: String)
    ensures
        t@ == without_trailing_nul(s@),
{
    let mut n = s.unicode_len();
    assert(s@.subrange(0, n as int) =~= s@);
    while n > 0 && s.get_char(n - 1) == '\0'
        invariant
            n <= s@.len(),
            without_trailing_nul(s@) == without_trailing_nul(s@.subrange(0, n as int)),
        decreases n,
    {
        assert(s@.subrange(0, n as int).drop_last() =~= s@.subrange(0, n - 1));
        n = n - 1;
    }
    assert(s@.subrange(0, n as int) == without_trailing_nul(s@.subrange(0, n as int)));
    s.substring_char(0, n).to_owned()
}

/// Index of the first zero byte at or after `i`, or the length.
pub open spec fn first_nul_from(bytes: Seq<u8>, i: int) -> int
    decreases bytes.len() - i,
{
    if i >= bytes.len() {
        bytes.len() as int
    } else if bytes[i] == 0 {
        i
    } else {
        first_nul_from(bytes, i + 1)
    }
}

/// The bytes before the first zero byte (all of them when there is none).
pub open spec fn before_nul(bytes: Seq<u8>) -> Seq<u8> {
    bytes.subrange(0, first_nul_from(bytes, 0))
}

/// The part before the first NUL is no longer than the field.
pub proof fn lemma_before_nul_len(bytes: Seq<u8>)
    ensures
        before_nul(bytes).len() <= bytes.len(),
{
    lemma_first_nul_bounds(bytes, 0);
}

proof fn lemma_first_nul_bounds(bytes: Seq<u8>, i: int)
    requires
        0 <= i <= bytes.len(),
    ensures
        i <= first_nul_from(bytes, i) <= bytes.len(),
    decreases bytes.len() - i,
{
    if i < bytes.len() && bytes[i] != 0 {
        lemma_first_nul_bounds(bytes, i + 1);
    }
}

/// The part of a NUL-terminated fixed-width field before its terminator.
pub fn nul_terminated(bytes: &[u8]) -> (r: &[u8])
    ensures
        r@ == before_nul(bytes@),
{
    let mut i: usize = 0;
    while i < bytes.len() && bytes[i] != 0
        invariant
            i <= bytes@.len(),
            first_nul_from(bytes@, 0) == first_nul_from(bytes@, i as int),
        decreases bytes@.len() - i,
    {
        i = i + 1;
    }
    &bytes[0..i]
}

/// Choosing the text of a GBK field: where encoding_rs reports malformed
/// input the text is the lossy UTF-8 decoding, otherwise it is encoding_rs's
/// GBK decoding.
pub proof fn lemma_gbk_text_choice(bytes: Seq<u8>)
    ensures
        gbk_decode_outcome(bytes).1 ==> gbk_text(bytes) == utf8_lossy(bytes),
        !gbk_decode_outcome(bytes).1 ==> gbk_text(bytes) == gbk_decode_outcome(bytes).0,
{
}

/// Removing trailing NULs keeps a prefix of the text that does not end in a
/// NUL, and everything removed is NUL.
pub proof fn lemma_without_trailing_nul(s: Seq<char>)
    ensures
        ({
            let t = without_trailing_nul(s);
            &&& t.len() <= s.len()
            &&& t == s.subrange(0, t.len() as int)
            &&& (t.len() > 0 ==> t.last() != '\0')
            &&& forall|k: int| t.len() <= k < s.len() ==> #[trigger] s[k] == '\0'
        }),
    decreases s.len(),
{
    if s.len() > 0 && s.last() == '\0' {
        lemma_without_trailing_nul(s.drop_last());
        let t = without_trailing_nul(s.drop_last());
        assert(t =~= s.subrange(0, t.len() as int));
        assert forall|k: int| t.len() <= k < s.len() implies #[trigger] s[k] == '\0' by {
            if k < s.len() - 1 {
                assert(s.drop_last()[k] == s[k]);
            }
        }
    } else {
        assert(s =~= s.subrange(0, s.len() as int));
    }
}

/// The part of a field before its first NUL is a prefix without zero bytes,
/// followed by a zero byte unless it is the whole field.
pub proof fn lemma_before_nul(bytes: Seq<u8>)
    ensures
        ({
            let t = before_nul(bytes);
            &&& t.len() <= bytes.len()
            &&& t == bytes.subrange(0, t.len() as int)
            &&& forall|k: int| 0 <= k < t.len() ==> #[trigger] bytes[k] != 0
            &&& (t.len() < bytes.len() ==> bytes[t.len() as int] == 0)
        }),
{
    lemma_first_nul_props(bytes, 0);
}

proof fn lemma_first_nul_props(bytes: Seq<u8>, i: int)
    requires
        0 <= i <= bytes.len(),
    ensures
        i <= first_nul_from(bytes, i) <= bytes.len(),
        forall|k: int| i <= k < first_nul_from(bytes, i) ==> #[trigger] bytes[k] != 0,
        first_nul_from(bytes, i) < bytes.len() ==> bytes[first_nul_from(bytes, i)] == 0,
    decreases bytes.len() - i,
{
    if i < bytes.len() && bytes[i] != 0 {
        lemma_first_nul_props(bytes, i + 1);
    }
}

} // verus!
