//! Ranking of quote servers by measured connection latency.

use vstd::prelude::*;

verus! {

/// Latency reported for a server that could not be reached.
pub const UNREACHABLE_LATENCY_MS: u64 = 9999;

/// A measured server: address, port and latency in milliseconds.
pub type PingResult = (String, u16, u64);

/// Selects the results whose latency is `ms`.
pub open spec fn latency_is(ms: u64) -> spec_fn(PingResult) -> bool {
    |r: PingResult| r.2 == ms
}

/// Latencies never decrease along `s`.
pub open spec fn sorted_by_latency(s: Seq<PingResult>) -> bool {
    forall|i: int, j: int| 0 <= i <= j < s.len() ==> s[i].2 <= s[j].2
}

proof fn lemma_filter_none(s: Seq<PingResult>, ms: u64)
    requires
        forall|i: int| 0 <= i < s.len() ==> s[i].2 != ms,
    ensures
        s.filter(latency_is(ms)) == Seq::<PingResult>::empty(),
    decreases s.len(),
{
    reveal(Seq::filter);
    if s.len() > 0 {
        lemma_filter_none(s.drop_last(), ms);
    }
}

proof fn lemma_filter_single(x: PingResult, ms: u64)
    ensures
        seq![x].filter(latency_is(ms)) == if x.2 == ms {
            seq![x]
        } else {
            Seq::<PingResult>::empty()
        },
{
    reveal_with_fuel(Seq::filter, 2);
    assert(seq![x].drop_last() =~= Seq::<PingResult>::empty());
}

proof fn lemma_insert_keeps_groups(
    out: Seq<PingResult>,
    done: Seq<PingResult>,
    x: PingResult,
    j: int,
)
    requires
        0 <= j <= out.len(),
        sorted_by_latency(out),
        forall|i: int| 0 <= i < j ==> out[i].2 <= x.2,
        forall|i: int| j <= i < out.len() ==> out[i].2 > x.2,
        forall|ms: u64| out.filter(latency_is(ms)) == done.filter(latency_is(ms)),
    ensures
        sorted_by_latency(out.insert(j, x)),
        forall|ms: u64|
            out.insert(j, x).filter(latency_is(ms)) == done.push(x).filter(latency_is(ms)),
{
    let a = out.subrange(0, j);
    let b = out.subrange(j, out.len() as int);
    assert(out.insert(j, x) =~= a + seq![x] + b);
    assert(out =~= a + b);
    assert(done.push(x) =~= done + seq![x]);
    assert forall|ms: u64|
        out.insert(j, x).filter(latency_is(ms)) == done.push(x).filter(latency_is(ms)) by {
        Seq::filter_distributes_over_add(a + seq![x], b, latency_is(ms));
        Seq::filter_distributes_over_add(a, seq![x], latency_is(ms));
        Seq::filter_distributes_over_add(a, b, latency_is(ms));
        Seq::filter_distributes_over_add(done, seq![x], latency_is(ms));
        lemma_filter_single(x, ms);
        if ms == x.2 {
            lemma_filter_none(b, ms);
            assert(a.filter(latency_is(ms)) + Seq::<PingResult>::empty() =~= a.filter(
                latency_is(ms),
            ));
        } else {
            assert(a.filter(latency_is(ms)) + Seq::<PingResult>::empty() =~= a.filter(
                latency_is(ms),
            ));
            assert(done.filter(latency_is(ms)) + Seq::<PingResult>::empty() =~= done.filter(
                latency_is(ms),
            ));
        }
    }
}

/// Orders measured servers by ascending latency, keeping servers of equal
/// latency in the order they were given (a stable sort on the latency).
pub fn sort_by_latency(results: Vec<PingResult>) -> (sorted: Vec<PingResult>)
    ensures
        sorted_by_latency(sorted@),
        forall|ms: u64| #[trigger]
            sorted@.filter(latency_is(ms)) == results@.filter(latency_is(ms)),
{
    let ghost orig = results@;
    let mut input = results;
    let mut out: Vec<PingResult> = Vec::new();
    let ghost mut done: Seq<PingResult> = Seq::empty();
    assert(orig =~= done + input@);
    while input.len() > 0
        invariant
            orig == done + input@,
            sorted_by_latency(out@),
            forall|ms: u64| out@.filter(latency_is(ms)) == done.filter(latency_is(ms)),
        decreases input@.len(),
    {
        let x = input.remove(0);
        let mut j: usize = 0;
        while j < out.len() && out[j].2 <= x.2
            invariant
                j <= out@.len(),
                forall|i: int| 0 <= i < j ==> out@[i].2 <= x.2,
            decreases out@.len() - j,
        {
            j = j + 1;
        }
        proof {
            assert forall|i: int| j <= i < out@.len() implies out@[i].2 > x.2 by {
                assert(out@[j as int].2 > x.2);
                assert(out@[j as int].2 <= out@[i].2);
            }
            lemma_insert_keeps_groups(out@, done, x, j as int);
            assert(orig =~= done.push(x) + input@);
            done = done.push(x);
        }
        out.insert(j, x);
    }
    proof {
        assert(done =~= orig);
    }
    out
}

} // verus!
