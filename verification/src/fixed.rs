//! Parsers of the responses that are made of fixed-size records or fields:
//! ex-rights events, the F10 company files, the financial summary, the
//! security count and list, and report-file chunks.

use vstd::prelude::*;
use crate::protocol::{
    datetime_at, get_datetime, lemma_datetime_packs_back, lemma_le_u16_bytes, lemma_le_u32_bytes,
    le_u16_at, le_u32_at, read_u16_le, read_u32_le,
};
use crate::response::ProtocolError;
use crate::text::{
    before_nul, decode_gbk, gbk_text, nul_terminated, trim_trailing_nul, utf8_lossy,
    utf8_lossy_string, without_trailing_nul,
};

verus! {

/// The category-specific part of an ex-rights / ex-dividend event.  Fields
/// named after a price, ratio or share count hold the 32 bits of an `f32`;
/// the share-capital fields hold packed volume words.
#[derive(Clone, Copy, Debug, PartialEq, Eq, Structural)]
pub enum XdxrDetail {
    /// Category 1: cash dividend, rights-issue price, bonus shares, rights shares.
    Dividend { fenhong: u32, peigujia: u32, songzhuangu: u32, peigu: u32 },
    /// Categories 11 and 12: share consolidation ratio.
    Consolidation { suogu: u32 },
    /// Categories 13 and 14: warrant strike price and number of warrants.
    Warrant { xingquanjia: u32, fenshu: u32 },
    /// Every other category: tradable and total share capital before and after.
    ShareCapital {
        panqianliutong: u32,
        qianzongguben: u32,
        panhouliutong: u32,
        houzongguben: u32,
    },
}

/// One ex-rights / ex-dividend event.
#[derive(Clone, Copy, Debug, PartialEq, Eq, Structural)]
pub struct XdxrRecord {
    pub year: u32,
    pub month: u32,
    pub day: u32,
    pub category: u8,
    pub detail: XdxrDetail,
}

/// How the four words of an event of `category` are read.
pub open spec fn xdxr_detail(category: u8, w0: u32, w1: u32, w2: u32, w3: u32) -> XdxrDetail {
    if category == 1 {
        XdxrDetail::Dividend { fenhong: w0, peigujia: w1, songzhuangu: w2, peigu: w3 }
    } else if category == 11 || category == 12 {
        XdxrDetail::Consolidation { suogu: w2 }
    } else if category == 13 || category == 14 {
        XdxrDetail::Warrant { xingquanjia: w0, fenshu: w2 }
    } else {
        XdxrDetail::ShareCapital {
            panqianliutong: w0,
            qianzongguben: w1,
            panhouliutong: w2,
            houzongguben: w3,
        }
    }
}

/// A 29-byte event record: market and code (7 bytes), one unused
/// byte, the date as a `u32` `YYYYMMDD`, the category byte and four words.
pub open spec fn xdxr_record_of(rec: Seq<u8>) -> XdxrRecord {
    let (year, month, day, _h, _m, _q) = datetime_at(9, rec, 8).unwrap();
    let category = rec[12];
    XdxrRecord {
        year: year as u32,
        month: month as u32,
        day: day as u32,
        category,
        detail: xdxr_detail(
            category,
            le_u32_at(rec, 13) as u32,
            le_u32_at(rec, 17) as u32,
            le_u32_at(rec, 21) as u32,
            le_u32_at(rec, 25) as u32,
        ),
    }
}

/// The event record that starts at `p`.
pub open spec fn xdxr_record_at(data: Seq<u8>, p: int) -> XdxrRecord {
    xdxr_record_of(data.subrange(p, p + 29))
}

/// Number of events in an ex-rights response: the `u16` count at byte 9,
/// limited to the whole records present from byte 11.
pub open spec fn xdxr_count(data: Seq<u8>) -> int {
    if data.len() < 11 {
        0
    } else if le_u16_at(data, 9) <= (data.len() - 11) / 29 {
        le_u16_at(data, 9)
    } else {
        (data.len() - 11) / 29
    }
}

fn decode_xdxr_record(rec: &[u8]) -> (r: XdxrRecord)
    requires
        rec@.len() == 29,
    ensures
        r == xdxr_record_of(rec@),
{
    let (year, month, day, _h, _m, _q) = match get_datetime(9, rec, 8) {
        Some(t) => t,
        None => (0, 0, 0, 0, 0, 0),
    };
    let category = rec[12];
    let w0 = read_u32_le(rec, 13);
    let w1 = read_u32_le(rec, 17);
    let w2 = read_u32_le(rec, 21);
    let w3 = read_u32_le(rec, 25);
    let detail = if category == 1 {
        XdxrDetail::Dividend { fenhong: w0, peigujia: w1, songzhuangu: w2, peigu: w3 }
    } else if category == 11 || category == 12 {
        XdxrDetail::Consolidation { suogu: w2 }
    } else if category == 13 || category == 14 {
        XdxrDetail::Warrant { xingquanjia: w0, fenshu: w2 }
    } else {
        XdxrDetail::ShareCapital {
            panqianliutong: w0,
            qianzongguben: w1,
            panhouliutong: w2,
            houzongguben: w3,
        }
    };
    XdxrRecord { year, month, day, category, detail }
}

/// Decodes an ex-rights / ex-dividend response: nine header bytes, a `u16`
/// count, then 29-byte records; a truncated record ends the list.
pub fn parse_xdxr_info(data: &[u8]) -> (r: Vec<XdxrRecord>)
    ensures
        r@.len() == xdxr_count(data@),
        forall|i: int| 0 <= i < r@.len() ==> r@[i] == xdxr_record_at(data@, 11 + 29 * i),
        forall|i: int|
            0 <= i < r@.len() ==> {
                let p = 11 + 29 * i;
                let data = data@;
                let r = #[trigger] r@[i];
                &&& r.category == data[p + 12]
                &&& r.year * 10000 + r.month * 100 + r.day == le_u32_at(data, p + 8)
                &&& r.month < 100
                &&& r.day < 100
                &&& (r.category == 1 ==> (r.detail matches XdxrDetail::Dividend {
                fenhong,
                peigujia,
                songzhuangu,
                peigu,
            } && fenhong == le_u32_at(data, p + 13) && peigujia == le_u32_at(data, p + 17)
                && songzhuangu == le_u32_at(data, p + 21) && peigu == le_u32_at(data, p + 25)))
                &&& (r.category == 11 || r.category == 12 ==> (r.detail matches XdxrDetail::Consolidation {
                suogu,
            } && suogu == le_u32_at(data, p + 21)))
                &&& (r.category == 13 || r.category == 14 ==> (r.detail matches XdxrDetail::Warrant {
                xingquanjia,
                fenshu,
            } && xingquanjia == le_u32_at(data, p + 13) && fenshu == le_u32_at(data, p + 21)))
                &&& (r.category != 1 && r.category != 11 && r.category != 12 && r.category != 13
                && r.category != 14 ==> (r.detail matches XdxrDetail::ShareCapital {
                panqianliutong,
                qianzongguben,
                panhouliutong,
                houzongguben,
            } && panqianliutong == le_u32_at(data, p + 13) && qianzongguben == le_u32_at(
                data,
                p + 17,
            ) && panhouliutong == le_u32_at(data, p + 21) && houzongguben == le_u32_at(
                data,
                p + 25,
            )))
            },
{
    let mut out: Vec<XdxrRecord> = Vec::new();
    if data.len() < 11 {
        return out;
    }
    let count = read_u16_le(data, 9);
    let mut pos: usize = 11;
    let mut i: u16 = 0;
    while i < count && data.len() - pos >= 29
        invariant
            data@.len() >= 11,
            count == le_u16_at(data@, 9),
            i <= count,
            pos == 11 + 29 * i,
            pos <= data@.len(),
            out@.len() == i,
            forall|j: int| 0 <= j < i ==> out@[j] == xdxr_record_at(data@, 11 + 29 * j),
        decreases count - i,
    {
        out.push(decode_xdxr_record(&data[pos..pos + 29]));
        pos = pos + 29;
        i = i + 1;
    }
    proof {
        assert(29 * (i as int) <= data@.len() - 11);
        if i < count {
            assert(data@.len() - 11 < 29 * (i as int) + 29);
        }
    }
    assert forall|j: int| 0 <= j < out@.len() implies #[trigger] out@[j] == xdxr_record_at(
        data@,
        11 + 29 * j,
    ) && {
        let p = 11 + 29 * j;
        let data = data@;
        let r = out@[j];
        &&& r.category == data[p + 12]
        &&& r.year * 10000 + r.month * 100 + r.day == le_u32_at(data, p + 8)
        &&& r.month < 100
        &&& r.day < 100
        &&& (r.category == 1 ==> (r.detail matches XdxrDetail::Dividend {
            fenhong,
            peigujia,
            songzhuangu,
            peigu,
        } && fenhong == le_u32_at(data, p + 13) && peigujia == le_u32_at(data, p + 17)
            && songzhuangu == le_u32_at(data, p + 21) && peigu == le_u32_at(data, p + 25)))
        &&& (r.category == 11 || r.category == 12 ==> (r.detail matches XdxrDetail::Consolidation {
            suogu,
        } && suogu == le_u32_at(data, p + 21)))
        &&& (r.category == 13 || r.category == 14 ==> (r.detail matches XdxrDetail::Warrant {
            xingquanjia,
            fenshu,
        } && xingquanjia == le_u32_at(data, p + 13) && fenshu == le_u32_at(data, p + 21)))
        &&& (r.category != 1 && r.category != 11 && r.category != 12 && r.category != 13
            && r.category != 14 ==> (r.detail matches XdxrDetail::ShareCapital {
            panqianliutong,
            qianzongguben,
            panhouliutong,
            houzongguben,
        } && panqianliutong == le_u32_at(data, p + 13) && qianzongguben == le_u32_at(
            data,
            p + 17,
        ) && panhouliutong == le_u32_at(data, p + 21) && houzongguben == le_u32_at(
            data,
            p + 25,
        )))
    } by {
        assert(11 + 29 * j + 29 <= 11 + 29 * (i as int));
        lemma_xdxr_record_layout(data@, 11 + 29 * j);
    }
    out
}


/// The name of an event category.
pub open spec fn xdxr_category_name_of(category: u8) -> Seq<char> {
    if category == 1 {
        "除权除息"@
    } else if category == 2 {
        "送配股上市"@
    } else if category == 3 {
        "非流通股上市"@
    } else if category == 4 {
        "未知股本变动"@
    } else if category == 5 {
        "股本变化"@
    } else if category == 6 {
        "增发新股"@
    } else if category == 7 {
        "股份回购"@
    } else if category == 8 {
        "增发新股上市"@
    } else if category == 9 {
        "转配股上市"@
    } else if category == 10 {
        "可转债上市"@
    } else if category == 11 {
        "扩缩股"@
    } else if category == 12 {
        "非流通股缩股"@
    } else if category == 13 {
        "送认购权证"@
    } else if category == 14 {
        "送认沽权证"@
    } else {
        "未知"@
    }
}

/// The name of an event category ("未知", unknown, outside 1 to 14).
pub fn xdxr_category_name(category: u8) -> (name: &'static str)
    ensures
        name@ == xdxr_category_name_of(category),
{
    if category == 1 {
        "除权除息"
    } else if category == 2 {
        "送配股上市"
    } else if category == 3 {
        "非流通股上市"
    } else if category == 4 {
        "未知股本变动"
    } else if category == 5 {
        "股本变化"
    } else if category == 6 {
        "增发新股"
    } else if category == 7 {
        "股份回购"
    } else if category == 8 {
        "增发新股上市"
    } else if category == 9 {
        "转配股上市"
    } else if category == 10 {
        "可转债上市"
    } else if category == 11 {
        "扩缩股"
    } else if category == 12 {
        "非流通股缩股"
    } else if category == 13 {
        "送认购权证"
    } else if category == 14 {
        "送认沽权证"
    } else {
        "未知"
    }
}


/// One entry of a security's F10 table of contents: the title, the file that
/// holds the section, and the section's offset and length in it.
pub struct CompanyInfoCategory {
    pub name: String,
    pub filename: String,
    pub start: u32,
    pub length: u32,
}

/// What a `CompanyInfoCategory` holds, its texts as characters.
pub struct CompanyInfoCategoryView {
    pub name: Seq<char>,
    pub filename: Seq<char>,
    pub start: u32,
    pub length: u32,
}

impl View for CompanyInfoCategory {
    type V = CompanyInfoCategoryView;

    open spec fn view(&self) -> CompanyInfoCategoryView {
        CompanyInfoCategoryView {
            name: self.name@,
            filename: self.filename@,
            start: self.start,
            length: self.length,
        }
    }
}

/// A 152-byte table-of-contents entry: a 64-byte GBK title and an 80-byte file name,
/// both ending at their first NUL, then the offset and the length.
pub open spec fn company_info_category_of(rec: Seq<u8>) -> CompanyInfoCategoryView {
    CompanyInfoCategoryView {
        name: gbk_text(before_nul(rec.subrange(0, 64))),
        filename: utf8_lossy(before_nul(rec.subrange(64, 144))),
        start: le_u32_at(rec, 144) as u32,
        length: le_u32_at(rec, 148) as u32,
    }
}

/// The table-of-contents entry that starts at `p`.
pub open spec fn company_info_category_at(data: Seq<u8>, p: int) -> CompanyInfoCategoryView {
    company_info_category_of(data.subrange(p, p + 152))
}

/// Number of entries in a table-of-contents response: the leading `u16`
/// count, limited to the whole entries present from byte 2.
pub open spec fn company_info_category_count(data: Seq<u8>) -> int {
    if data.len() < 2 {
        0
    } else if le_u16_at(data, 0) <= (data.len() - 2) / 152 {
        le_u16_at(data, 0)
    } else {
        (data.len() - 2) / 152
    }
}

fn decode_company_info_category(rec: &[u8]) -> (r: CompanyInfoCategory)
    requires
        rec@.len() == 152,
    ensures
        r@ == company_info_category_of(rec@),
{
    let name_field = nul_terminated(&rec[0..64]);
    let filename_field = nul_terminated(&rec[64..144]);
    proof {
        crate::text::lemma_before_nul_len(rec@.subrange(0, 64));
    }
    CompanyInfoCategory {
        name: decode_gbk(name_field),
        filename: utf8_lossy_string(filename_field),
        start: read_u32_le(rec, 144),
        length: read_u32_le(rec, 148),
    }
}

/// Decodes the response to a table-of-contents request: a `u16` count, then
/// 152-byte entries; a truncated entry ends the list.
pub fn parse_company_info_category(data: &[u8]) -> (r: Vec<CompanyInfoCategory>)
    ensures
        r@.len() == company_info_category_count(data@),
        forall|i: int|
            0 <= i < r@.len() ==> #[trigger] r@[i]@ == company_info_category_at(
                data@,
                2 + 152 * i,
            ),
{
    let mut out: Vec<CompanyInfoCategory> = Vec::new();
    if data.len() < 2 {
        return out;
    }
    let count = read_u16_le(data, 0);
    let mut pos: usize = 2;
    let mut i: u16 = 0;
    while i < count && data.len() - pos >= 152
        invariant
            data@.len() >= 2,
            count == le_u16_at(data@, 0),
            i <= count,
            pos == 2 + 152 * i,
            pos <= data@.len(),
            out@.len() == i,
            forall|j: int|
                0 <= j < i ==> #[trigger] out@[j]@ == company_info_category_at(
                    data@,
                    2 + 152 * j,
                ),
        decreases count - i,
    {
        out.push(decode_company_info_category(&data[pos..pos + 152]));
        pos = pos + 152;
        i = i + 1;
    }
    proof {
        assert(152 * (i as int) <= data@.len() - 2);
        if i < count {
            assert(data@.len() - 2 < 152 * (i as int) + 152);
        }
    }
    out
}

/// The GBK bytes of an F10 content response: after ten unused bytes a `u16`
/// length, then the text, cut at the end of the response when it is shorter.
pub open spec fn company_info_content_range(data: Seq<u8>) -> Seq<u8> {
    if data.len() < 12 {
        Seq::<u8>::empty()
    } else if 12 + le_u16_at(data, 10) > data.len() {
        data.subrange(12, data.len() as int)
    } else {
        data.subrange(12, 12 + le_u16_at(data, 10))
    }
}

/// The text of an F10 content response: empty when the response is shorter
/// than its header, otherwise its content bytes as GBK text (see `gbk_text`).
pub open spec fn company_info_content_text(data: Seq<u8>) -> Seq<char> {
    if data.len() < 12 {
        Seq::<char>::empty()
    } else {
        gbk_text(company_info_content_range(data))
    }
}

/// The content bytes of an F10 content response.
pub fn company_info_content_bytes(data: &[u8]) -> (r: &[u8])
    ensures
        r@ == company_info_content_range(data@),
        r@.len() <= 65535,
{
    if data.len() < 12 {
        return &data[0..0];
    }
    let content_length = read_u16_le(data, 10) as usize;
    if data.len() - 12 < content_length {
        &data[12..data.len()]
    } else {
        &data[12..12 + content_length]
    }
}

/// Decodes the response to an F10 content request into its text.
pub fn parse_company_info_content(data: &[u8]) -> (text: String)
    ensures
        text@ == company_info_content_text(data@),
{
    if data.len() < 12 {
        return String::new();
    }
    let bytes = company_info_content_bytes(data);
    decode_gbk(bytes)
}

/// Financial summary of a security.  `liutongguben` and the 29 `values` hold
/// the 32 bits of `f32`s; `values` follow the order zongguben, guojiagu,
/// faqirenfarengu, farengu, bgu, hgu, zhigonggu, zongzichan, liudongzichan,
/// gudingzichan, wuxingzichan, gudongrenshu, liudongfuzhai, changqifuzhai,
/// zibengongjijin, jingzichan, zhuyingshouru, zhuyinglirun, yingshouzhangkuan,
/// yingyelirun, touzishouyu, jingyingxianjinliu, zongxianjinliu, cunhuo,
/// lirunzonghe, shuihoulirun, jinglirun, weifenpeilirun, meigujingzichan.
pub struct FinanceInfo {
    pub liutongguben: u32,
    pub province: u16,
    pub industry: u16,
    pub updated_date: u32,
    pub ipo_date: u32,
    pub values: Vec<u32>,
}

/// What a `FinanceInfo` holds, its values as a sequence.
pub struct FinanceInfoView {
    pub liutongguben: u32,
    pub province: u16,
    pub industry: u16,
    pub updated_date: u32,
    pub ipo_date: u32,
    pub values: Seq<u32>,
}

impl View for FinanceInfo {
    type V = FinanceInfoView;

    open spec fn view(&self) -> FinanceInfoView {
        FinanceInfoView {
            liutongguben: self.liutongguben,
            province: self.province,
            industry: self.industry,
            updated_date: self.updated_date,
            ipo_date: self.ipo_date,
            values: self.values@,
        }
    }
}

/// Number of `f32` words after the fixed fields of a financial summary.
pub const FINANCE_VALUE_COUNT: usize = 29;

/// The financial summary in a response: after a count and the market and code
/// (9 bytes), a 132-byte structure; `None` when the response is shorter.
pub open spec fn finance_info_of(data: Seq<u8>) -> Option<FinanceInfoView> {
    if data.len() < 9 + 132 {
        None
    } else {
        Some(
            FinanceInfoView {
                liutongguben: le_u32_at(data, 9) as u32,
                province: le_u16_at(data, 13) as u16,
                industry: le_u16_at(data, 15) as u16,
                updated_date: le_u32_at(data, 17) as u32,
                ipo_date: le_u32_at(data, 21) as u32,
                values: Seq::new(29, |k: int| le_u32_at(data, 25 + 4 * k) as u32),
            },
        )
    }
}

/// Decodes the response to a financial-summary request.
pub fn parse_finance_info(data: &[u8]) -> (r: Option<FinanceInfo>)
    ensures
        r is None <==> finance_info_of(data@) is None,
        r matches Some(info) ==> finance_info_of(data@) == Some(info@),
{
    if data.len() < 9 + 132 {
        return None;
    }
    let mut values: Vec<u32> = Vec::new();
    let mut k: usize = 0;
    while k < FINANCE_VALUE_COUNT
        invariant
            data@.len() >= 141,
            k <= 29,
            values@ =~= Seq::new(k as nat, |j: int| le_u32_at(data@, 25 + 4 * j) as u32),
        decreases 29 - k,
    {
        values.push(read_u32_le(data, 25 + 4 * k));
        k = k + 1;
    }
    Some(
        FinanceInfo {
            liutongguben: read_u32_le(data, 9),
            province: read_u16_le(data, 13),
            industry: read_u16_le(data, 15),
            updated_date: read_u32_le(data, 17),
            ipo_date: read_u32_le(data, 21),
            values,
        },
    )
}

/// Decodes the response to a security-count request: its leading `u16`.
pub fn parse_security_count(data: &[u8]) -> (r: Result<u16, ProtocolError>)
    ensures
        data@.len() < 2 ==> r == Err::<u16, ProtocolError>(ProtocolError::TooShort),
        data@.len() >= 2 ==> r == Ok::<u16, ProtocolError>(le_u16_at(data@, 0) as u16),
{
    if data.len() < 2 {
        return Err(ProtocolError::TooShort);
    }
    Ok(read_u16_le(data, 0))
}

/// One security of a market listing.  `pre_close_raw` holds the packed word
/// of the previous close.
pub struct SecurityEntry {
    pub code: String,
    pub volunit: u16,
    pub name: String,
    pub decimal_point: u8,
    pub pre_close_raw: u32,
}

/// What a `SecurityEntry` holds, its texts as characters.
pub struct SecurityEntryView {
    pub code: Seq<char>,
    pub volunit: u16,
    pub name: Seq<char>,
    pub decimal_point: u8,
    pub pre_close_raw: u32,
}

impl View for SecurityEntry {
    type V = SecurityEntryView;

    open spec fn view(&self) -> SecurityEntryView {
        SecurityEntryView {
            code: self.code@,
            volunit: self.volunit,
            name: self.name@,
            decimal_point: self.decimal_point,
            pre_close_raw: self.pre_close_raw,
        }
    }
}

/// A 29-byte listing record: a six-byte code (UTF-8), the volume
/// unit, an eight-byte GBK name, four unused bytes, the number of decimals,
/// the previous close and four unused bytes.  Texts lose their trailing NULs.
pub open spec fn security_entry_of(rec: Seq<u8>) -> SecurityEntryView {
    SecurityEntryView {
        code: without_trailing_nul(utf8_lossy(rec.subrange(0, 6))),
        volunit: le_u16_at(rec, 6) as u16,
        name: without_trailing_nul(gbk_text(rec.subrange(8, 16))),
        decimal_point: rec[20],
        pre_close_raw: le_u32_at(rec, 21) as u32,
    }
}

/// The listing record that starts at `p`.
pub open spec fn security_entry_at(data: Seq<u8>, p: int) -> SecurityEntryView {
    security_entry_of(data.subrange(p, p + 29))
}

/// Number of records in a listing response: the leading `u16` count, limited
/// to the whole records present from byte 2.
pub open spec fn security_list_count(data: Seq<u8>) -> int {
    if data.len() < 2 {
        0
    } else if le_u16_at(data, 0) <= (data.len() - 2) / 29 {
        le_u16_at(data, 0)
    } else {
        (data.len() - 2) / 29
    }
}

fn decode_security_entry(rec: &[u8]) -> (r: SecurityEntry)
    requires
        rec@.len() == 29,
    ensures
        r@ == security_entry_of(rec@),
{
    let code = utf8_lossy_string(&rec[0..6]);
    let name = decode_gbk(&rec[8..16]);
    SecurityEntry {
        code: trim_trailing_nul(code.as_str()),
        volunit: read_u16_le(rec, 6),
        name: trim_trailing_nul(name.as_str()),
        decimal_point: rec[20],
        pre_close_raw: read_u32_le(rec, 21),
    }
}

/// Decodes the response to a listing request: a `u16` count, then 29-byte
/// records; a truncated record ends the list.  A response shorter than its
/// count is refused.
pub fn parse_security_list(data: &[u8]) -> (r: Result<Vec<SecurityEntry>, ProtocolError>)
    ensures
        data@.len() < 2 <==> r is Err,
        r is Err ==> r == Err::<Vec<SecurityEntry>, ProtocolError>(ProtocolError::TooShort),
        r matches Ok(entries) ==> entries@.len() == security_list_count(data@) && forall|i: int|
            0 <= i < entries@.len() ==> #[trigger] entries@[i]@ == security_entry_at(
                data@,
                2 + 29 * i,
            ),
{
    if data.len() < 2 {
        return Err(ProtocolError::TooShort);
    }
    let mut out: Vec<SecurityEntry> = Vec::new();
    let count = read_u16_le(data, 0);
    let mut pos: usize = 2;
    let mut i: u16 = 0;
    while i < count && data.len() - pos >= 29
        invariant
            data@.len() >= 2,
            count == le_u16_at(data@, 0),
            i <= count,
            pos == 2 + 29 * i,
            pos <= data@.len(),
            out@.len() == i,
            forall|j: int|
                0 <= j < i ==> #[trigger] out@[j]@ == security_entry_at(data@, 2 + 29 * j),
        decreases count - i,
    {
        out.push(decode_security_entry(&data[pos..pos + 29]));
        pos = pos + 29;
        i = i + 1;
    }
    proof {
        assert(29 * (i as int) <= data@.len() - 2);
        if i < count {
            assert(data@.len() - 2 < 29 * (i as int) + 29);
        }
    }
    Ok(out)
}

/// Decodes a report-file chunk response: the leading `u32` (the chunk size
/// the server reports) and the bytes after it; `(0, [])` when the response is shorter than four
/// bytes.
pub fn parse_report_file(data: &[u8]) -> (r: (u32, Vec<u8>))
    ensures
        data@.len() < 4 ==> r.0 == 0 && r.1@ == Seq::<u8>::empty(),
        data@.len() >= 4 ==> r.0 == le_u32_at(data@, 0) && r.1@ == data@.subrange(
            4,
            data@.len() as int,
        ),
{
    if data.len() < 4 {
        return (0, Vec::new());
    }
    let size = read_u32_le(data, 0);
    let mut rest: Vec<u8> = Vec::new();
    let mut k: usize = 4;
    while k < data.len()
        invariant
            4 <= k <= data@.len(),
            rest@ =~= data@.subrange(4, k as int),
        decreases data@.len() - k,
    {
        rest.push(data[k]);
        k = k + 1;
    }
    (size, rest)
}

/// Layout of an ex-rights record: the category is byte 12, the date's fields
/// pack back into the `YYYYMMDD` word at 8, and the four words at 13, 17, 21
/// and 25 are read by category: all four as dividend, rights price, bonus and
/// rights shares for category 1; the third as the consolidation ratio for 11
/// and 12; the first and third as strike price and number for 13 and 14; all
/// four as share capital before and after for every other category.
pub proof fn lemma_xdxr_record_layout(data: Seq<u8>, p: int)
    requires
        0 <= p,
        p + 29 <= data.len(),
    ensures
        ({
            let r = xdxr_record_at(data, p);
            &&& r.category == data[p + 12]
            &&& r.year * 10000 + r.month * 100 + r.day == le_u32_at(data, p + 8)
            &&& r.month < 100
            &&& r.day < 100
            &&& (r.category == 1 ==> (r.detail matches XdxrDetail::Dividend {
                fenhong,
                peigujia,
                songzhuangu,
                peigu,
            } && fenhong == le_u32_at(data, p + 13) && peigujia == le_u32_at(data, p + 17)
                && songzhuangu == le_u32_at(data, p + 21) && peigu == le_u32_at(data, p + 25)))
            &&& (r.category == 11 || r.category == 12 ==> (r.detail matches XdxrDetail::Consolidation {
                suogu,
            } && suogu == le_u32_at(data, p + 21)))
            &&& (r.category == 13 || r.category == 14 ==> (r.detail matches XdxrDetail::Warrant {
                xingquanjia,
                fenshu,
            } && xingquanjia == le_u32_at(data, p + 13) && fenshu == le_u32_at(data, p + 21)))
            &&& (r.category != 1 && r.category != 11 && r.category != 12 && r.category != 13
                && r.category != 14 ==> (r.detail matches XdxrDetail::ShareCapital {
                panqianliutong,
                qianzongguben,
                panhouliutong,
                houzongguben,
            } && panqianliutong == le_u32_at(data, p + 13) && qianzongguben == le_u32_at(
                data,
                p + 17,
            ) && panhouliutong == le_u32_at(data, p + 21) && houzongguben == le_u32_at(
                data,
                p + 25,
            )))
        }),
{
    let rec = data.subrange(p, p + 29);
    lemma_datetime_packs_back(9, rec, 8);
    lemma_le_u32_bytes(rec, 8);
    lemma_le_u32_bytes(rec, 13);
    lemma_le_u32_bytes(rec, 17);
    lemma_le_u32_bytes(rec, 21);
    lemma_le_u32_bytes(rec, 25);
}

/// Layout of an F10 table-of-contents entry: the title is the GBK text of the
/// bytes before the first NUL of 0..64, the file name the lossy UTF-8 of those
/// of 64..144, the offset and length the words at 144 and 148.
pub proof fn lemma_company_info_category_layout(data: Seq<u8>, p: int)
    requires
        0 <= p,
        p + 152 <= data.len(),
    ensures
        ({
            let e = company_info_category_at(data, p);
            &&& e.name == gbk_text(before_nul(data.subrange(p, p + 64)))
            &&& e.filename == utf8_lossy(before_nul(data.subrange(p + 64, p + 144)))
            &&& e.start == le_u32_at(data, p + 144)
            &&& e.length == le_u32_at(data, p + 148)
        }),
{
    let rec = data.subrange(p, p + 152);
    lemma_le_u32_bytes(rec, 144);
    lemma_le_u32_bytes(rec, 148);
    assert(rec.subrange(0, 64) =~= data.subrange(p, p + 64));
    assert(rec.subrange(64, 144) =~= data.subrange(p + 64, p + 144));
}

/// Layout of a listing record: the code is the lossy UTF-8 of bytes 0..6 and
/// the name the GBK text of 8..16, both without trailing NULs; the volume unit
/// is the `u16` at 6, the number of decimals byte 20, the previous close the
/// word at 21.
pub proof fn lemma_security_entry_layout(data: Seq<u8>, p: int)
    requires
        0 <= p,
        p + 29 <= data.len(),
    ensures
        ({
            let e = security_entry_at(data, p);
            &&& e.code == without_trailing_nul(utf8_lossy(data.subrange(p, p + 6)))
            &&& e.name == without_trailing_nul(gbk_text(data.subrange(p + 8, p + 16)))
            &&& e.volunit == le_u16_at(data, p + 6)
            &&& e.decimal_point == data[p + 20]
            &&& e.pre_close_raw == le_u32_at(data, p + 21)
        }),
{
    let rec = data.subrange(p, p + 29);
    lemma_le_u16_bytes(rec, 6);
    lemma_le_u32_bytes(rec, 21);
    assert(rec.subrange(0, 6) =~= data.subrange(p, p + 6));
    assert(rec.subrange(8, 16) =~= data.subrange(p + 8, p + 16));
}

/// Layout of a financial summary: present exactly when the response holds the
/// 9 leading bytes and the 132-byte structure; the free float is the word at
/// 9, province and industry the `u16`s at 13 and 15, the update and listing
/// dates the words at 17 and 21, and value `k` of the 29 the word at
/// `25 + 4 * k`.
pub proof fn lemma_finance_info_layout(data: Seq<u8>)
    ensures
        finance_info_of(data) is Some <==> data.len() >= 141,
        data.len() >= 141 ==> ({
            let f = finance_info_of(data).unwrap();
            &&& f.liutongguben == le_u32_at(data, 9)
            &&& f.province == le_u16_at(data, 13)
            &&& f.industry == le_u16_at(data, 15)
            &&& f.updated_date == le_u32_at(data, 17)
            &&& f.ipo_date == le_u32_at(data, 21)
            &&& f.values.len() == 29
            &&& forall|k: int| 0 <= k < 29 ==> #[trigger] f.values[k] == le_u32_at(data, 25 + 4 * k)
        }),
{
    if data.len() >= 141 {
        lemma_le_u32_bytes(data, 9);
        lemma_le_u16_bytes(data, 13);
        lemma_le_u16_bytes(data, 15);
        lemma_le_u32_bytes(data, 17);
        lemma_le_u32_bytes(data, 21);
        let f = finance_info_of(data).unwrap();
        assert forall|k: int| 0 <= k < 29 implies #[trigger] f.values[k] == le_u32_at(data, 25 + 4 * k) by {
            lemma_le_u32_bytes(data, 25 + 4 * k);
        }
    }
}

/// The content of an F10 content response is the run of bytes from 12 whose
/// length is the `u16` at 10, cut at the end of the response.
pub proof fn lemma_company_info_content_layout(data: Seq<u8>)
    requires
        data.len() >= 12,
    ensures
        ({
            let c = company_info_content_range(data);
            let want = le_u16_at(data, 10);
            &&& c.len() == if 12 + want <= data.len() { want } else { data.len() - 12 }
            &&& forall|k: int| 0 <= k < c.len() ==> #[trigger] c[k] == data[12 + k]
        }),
{
    lemma_le_u16_bytes(data, 10);
}

} // verus!
