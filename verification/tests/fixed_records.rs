use mitdx::fixed::{
    company_info_content_bytes, parse_company_info_category, parse_company_info_content,
    parse_finance_info, parse_report_file, parse_security_count, parse_security_list,
    parse_xdxr_info, xdxr_category_name, XdxrDetail,
};
use mitdx::response::ProtocolError;
use mitdx::text::{decode_gbk, nul_terminated, trim_trailing_nul};

fn xdxr_record(date: u32, category: u8, words: [u32; 4]) -> Vec<u8> {
    let mut r = vec![1u8];
    r.extend(b"600036");
    r.push(0);
    r.extend(date.to_le_bytes());
    r.push(category);
    for w in words {
        r.extend(w.to_le_bytes());
    }
    r
}

fn xdxr_response(records: &[Vec<u8>], count: u16) -> Vec<u8> {
    let mut data = vec![0u8; 9];
    data.extend(count.to_le_bytes());
    for r in records {
        data.extend(r);
    }
    data
}

#[test]
fn xdxr_categories_select_their_fields() {
    let recs = vec![
        xdxr_record(20240612, 1, [1, 2, 3, 4]),
        xdxr_record(20240613, 11, [5, 6, 7, 8]),
        xdxr_record(20240614, 13, [9, 10, 11, 12]),
        xdxr_record(20240615, 5, [13, 14, 15, 16]),
    ];
    let out = parse_xdxr_info(&xdxr_response(&recs, 4));
    assert_eq!(out.len(), 4);
    assert_eq!((out[0].year, out[0].month, out[0].day, out[0].category), (2024, 6, 12, 1));
    assert_eq!(out[0].detail, XdxrDetail::Dividend { fenhong: 1, peigujia: 2, songzhuangu: 3, peigu: 4 });
    assert_eq!(out[1].detail, XdxrDetail::Consolidation { suogu: 7 });
    assert_eq!(out[2].detail, XdxrDetail::Warrant { xingquanjia: 9, fenshu: 11 });
    assert_eq!(
        out[3].detail,
        XdxrDetail::ShareCapital { panqianliutong: 13, qianzongguben: 14, panhouliutong: 15, houzongguben: 16 }
    );
    assert_eq!(out[3].day, 15);
}

#[test]
fn xdxr_count_and_truncation() {
    let recs = vec![xdxr_record(20240612, 1, [0; 4]), xdxr_record(20240613, 1, [0; 4])];
    assert_eq!(parse_xdxr_info(&xdxr_response(&recs, 1)).len(), 1);
    let mut data = xdxr_response(&recs, 2);
    data.pop();
    assert_eq!(parse_xdxr_info(&data).len(), 1);
    assert_eq!(parse_xdxr_info(&[0u8; 10]).len(), 0);
}

#[test]
fn xdxr_category_names() {
    assert_eq!(xdxr_category_name(1), "除权除息");
    assert_eq!(xdxr_category_name(10), "可转债上市");
    assert_eq!(xdxr_category_name(14), "送认沽权证");
    assert_eq!(xdxr_category_name(0), "未知");
    assert_eq!(xdxr_category_name(15), "未知");
}

#[test]
fn company_info_category_entries() {
    let mut data = 2u16.to_le_bytes().to_vec();
    for (name, file, start, len) in [
        (vec![0xd6u8, 0xd0, 0xb9, 0xfa], "600036.txt", 0u32, 1200u32),
        (b"abc".to_vec(), "f.txt", 1200, 30),
    ] {
        let mut n = name.clone();
        n.resize(64, 0);
        let mut f = file.as_bytes().to_vec();
        f.resize(80, 0);
        data.extend(n);
        data.extend(f);
        data.extend(start.to_le_bytes());
        data.extend(len.to_le_bytes());
    }
    let out = parse_company_info_category(&data);
    assert_eq!(out.len(), 2);
    assert_eq!(out[0].name, "中国");
    assert_eq!(out[0].filename, "600036.txt");
    assert_eq!((out[0].start, out[0].length), (0, 1200));
    assert_eq!(out[1].name, "abc");
    assert_eq!((out[1].start, out[1].length), (1200, 30));
    data.truncate(data.len() - 1);
    assert_eq!(parse_company_info_category(&data).len(), 1);
}

#[test]
fn company_info_content_text() {
    let mut data = vec![0u8; 10];
    data.extend(4u16.to_le_bytes());
    data.extend([0xc6, 0xbd, 0xb0, 0xb2, 0xd2, 0xf8]);
    assert_eq!(company_info_content_bytes(&data), &[0xc6, 0xbd, 0xb0, 0xb2]);
    assert_eq!(parse_company_info_content(&data), "平安");
    // the declared length runs past the end: the rest is taken
    let mut long = vec![0u8; 10];
    long.extend(100u16.to_le_bytes());
    long.extend([0xc6, 0xbd, 0xb0, 0xb2, 0xd2, 0xf8, 0xd0, 0xd0]);
    assert_eq!(parse_company_info_content(&long), "平安银行");
    assert_eq!(parse_company_info_content(&[0u8; 11]), "");
}

#[test]
fn finance_info_fields() {
    let mut data = vec![0u8; 9];
    data.extend(1.5f32.to_bits().to_le_bytes());
    data.extend(11u16.to_le_bytes());
    data.extend(22u16.to_le_bytes());
    data.extend(20250331u32.to_le_bytes());
    data.extend(20020409u32.to_le_bytes());
    for k in 0..29u32 {
        data.extend((k as f32).to_bits().to_le_bytes());
    }
    assert_eq!(data.len(), 141);
    let info = parse_finance_info(&data).unwrap();
    assert_eq!(f32::from_bits(info.liutongguben), 1.5);
    assert_eq!((info.province, info.industry), (11, 22));
    assert_eq!((info.updated_date, info.ipo_date), (20250331, 20020409));
    assert_eq!(info.values.len(), 29);
    assert_eq!(f32::from_bits(info.values[28]), 28.0);
    data.pop();
    assert!(parse_finance_info(&data).is_none());
}

#[test]
fn security_count() {
    assert_eq!(parse_security_count(&[0x34, 0x12, 0xff]), Ok(0x1234));
    assert_eq!(parse_security_count(&[0x34]), Err(ProtocolError::TooShort));
}

fn list_record(code: &[u8; 6], name: &[u8], decimals: u8, pre_close: u32) -> Vec<u8> {
    let mut r = code.to_vec();
    r.extend(100u16.to_le_bytes());
    let mut n = name.to_vec();
    n.resize(8, 0);
    r.extend(n);
    r.extend([0u8; 4]);
    r.push(decimals);
    r.extend(pre_close.to_le_bytes());
    r.extend([0u8; 4]);
    r
}

#[test]
fn security_list_entries() {
    let mut data = 2u16.to_le_bytes().to_vec();
    data.extend(list_record(b"000001", &[0xc6, 0xbd, 0xb0, 0xb2, 0xd2, 0xf8, 0xd0, 0xd0], 2, 0x4120_0000));
    data.extend(list_record(b"3999\0\0", b"AB", 3, 7));
    let out = parse_security_list(&data).unwrap();
    assert_eq!(out.len(), 2);
    assert_eq!(out[0].code, "000001");
    assert_eq!(out[0].name, "平安银行");
    assert_eq!((out[0].volunit, out[0].decimal_point, out[0].pre_close_raw), (100, 2, 0x4120_0000));
    assert_eq!(out[1].code, "3999");
    assert_eq!(out[1].name, "AB");
    assert_eq!(out[1].decimal_point, 3);
    data.pop();
    assert_eq!(parse_security_list(&data).unwrap().len(), 1);
    assert!(parse_security_list(&[1]).is_err());
}

#[test]
fn security_list_code_with_invalid_utf8_is_replaced() {
    let mut data = 1u16.to_le_bytes().to_vec();
    data.extend(list_record(&[b'6', 0xff, b'0', b'0', b'0', b'0'], b"X", 2, 0));
    let out = parse_security_list(&data).unwrap();
    assert_eq!(out[0].code, "6\u{fffd}0000");
}

#[test]
fn report_file_chunk() {
    assert_eq!(parse_report_file(&[0x10, 0x27, 0, 0, 7, 8, 9]), (10000, vec![7, 8, 9]));
    assert_eq!(parse_report_file(&[1, 2, 3]), (0, vec![]));
    assert_eq!(parse_report_file(&[1, 0, 0, 0]), (1, vec![]));
}

#[test]
fn nul_handling() {
    assert_eq!(trim_trailing_nul("ab\0\0"), "ab");
    assert_eq!(trim_trailing_nul("a\0b\0"), "a\0b");
    assert_eq!(trim_trailing_nul("\0\0"), "");
    assert_eq!(trim_trailing_nul("平安\0"), "平安");
    assert_eq!(nul_terminated(&[1, 2, 0, 3]), &[1, 2]);
    assert_eq!(nul_terminated(&[1, 2]), &[1, 2]);
    assert_eq!(nul_terminated(&[0, 1]), &[] as &[u8]);
}

#[test]
fn gbk_text_falls_back_to_lossy_utf8() {
    assert_eq!(decode_gbk(&[0xd6, 0xd0, 0xb9, 0xfa]), "中国");
    assert_eq!(decode_gbk(&[0xe2, 0x82, 0xac]), "€");
    assert_eq!(decode_gbk(&[0xff, b'a']), "\u{fffd}a");
    assert_eq!(decode_gbk(b"abc"), "abc");
}

#[test]
fn security_list_name_that_is_not_gbk_is_read_as_utf8() {
    let mut data = 1u16.to_le_bytes().to_vec();
    data.extend(list_record(b"000001", &[0xe2, 0x82, 0xac], 2, 0));
    let out = parse_security_list(&data).unwrap();
    assert_eq!(out[0].name, "€");
}
