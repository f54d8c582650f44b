use mitdx::request::{
    code_bytes, company_info_category_request, company_info_content_request, finance_info_request,
    report_file_request, security_bars_request, security_count_request, security_list_request,
    security_quotes_request, setup_command_1, setup_command_2, setup_command_3, transaction_request,
    xdxr_request,
};

/// The two length fields of the header both give the length of what follows.
fn assert_framed(req: &[u8]) {
    let declared = u16::from_le_bytes([req[6], req[7]]) as usize;
    let repeated = u16::from_le_bytes([req[8], req[9]]) as usize;
    assert_eq!(declared, req.len() - 10);
    assert_eq!(repeated, req.len() - 10);
}

#[test]
fn code_is_cut_or_padded_to_six_bytes() {
    assert_eq!(code_bytes("600036"), vec![b'6', b'0', b'0', b'0', b'3', b'6']);
    assert_eq!(code_bytes("6000361"), vec![b'6', b'0', b'0', b'0', b'3', b'6']);
    assert_eq!(code_bytes("88"), vec![b'8', b'8', 0, 0, 0, 0]);
    assert_eq!(code_bytes(""), vec![0; 6]);
}

#[test]
fn bars_request_bytes() {
    let req = security_bars_request(9, 1, "600036", 0, 10);
    let expected: Vec<u8> = vec![
        0x0c, 0x01, 0x08, 0x64, 0x01, 0x01, 0x1c, 0x00, 0x1c, 0x00, 0x2d, 0x05, 0x01, 0x00, b'6',
        b'0', b'0', b'0', b'3', b'6', 0x09, 0x00, 0x01, 0x00, 0x00, 0x00, 0x0a, 0x00, 0, 0, 0, 0,
        0, 0, 0, 0, 0, 0,
    ];
    assert_eq!(req, expected);
    assert_framed(&req);
}

#[test]
fn security_count_request_bytes() {
    let req = security_count_request(1);
    assert_eq!(
        req,
        vec![
            0x0c, 0x0c, 0x18, 0x6c, 0x00, 0x01, 0x08, 0x00, 0x08, 0x00, 0x4e, 0x04, 0x01, 0x00,
            0x75, 0xc7, 0x33, 0x01
        ]
    );
    assert_framed(&req);
}

#[test]
fn security_list_request_bytes() {
    let req = security_list_request(0, 1000);
    assert_eq!(
        req,
        vec![0x0c, 0x01, 0x18, 0x64, 0x01, 0x01, 0x06, 0x00, 0x06, 0x00, 0x50, 0x04, 0x00, 0x00, 0xe8, 0x03]
    );
    assert_framed(&req);
}

#[test]
fn xdxr_and_finance_requests_carry_a_one_byte_market() {
    let req = xdxr_request(1, "600036");
    assert_eq!(&req[..14], &[0x0c, 0x1f, 0x18, 0x76, 0x00, 0x01, 0x0b, 0x00, 0x0b, 0x00, 0x0f, 0x00, 0x01, 0x00]);
    assert_eq!(req[14], 1);
    assert_eq!(&req[15..], b"600036");
    assert_framed(&req);
    let req = finance_info_request(0, "000001");
    assert_eq!(&req[10..14], &[0x10, 0x00, 0x01, 0x00]);
    assert_eq!(req[14], 0);
    assert_eq!(&req[15..], b"000001");
    assert_framed(&req);
}

#[test]
fn transaction_request_bytes() {
    let req = transaction_request(0, "000001", 30, 100);
    assert_eq!(
        req,
        vec![
            0x0c, 0x17, 0x08, 0x01, 0x01, 0x01, 0x0e, 0x00, 0x0e, 0x00, 0xc5, 0x0f, 0x00, 0x00, b'0',
            b'0', b'0', b'0', b'0', b'1', 30, 0, 100, 0
        ]
    );
    assert_framed(&req);
}

#[test]
fn quotes_request_bytes() {
    let stocks = vec![(1u8, "600036".to_string()), (0u8, "000001".to_string())];
    let req = security_quotes_request(&stocks);
    assert_eq!(req.len(), 22 + 14);
    assert_eq!(&req[..10], &[0x0c, 0x01, 0x20, 0x63, 0x00, 0x02, 26, 0, 26, 0]);
    assert_eq!(&req[10..22], &[0x3e, 0x05, 0x05, 0x00, 0, 0, 0, 0, 0, 0, 2, 0]);
    assert_eq!(req[22], 1);
    assert_eq!(&req[23..29], b"600036");
    assert_eq!(req[29], 0);
    assert_eq!(&req[30..36], b"000001");
    assert_framed(&req);
}

#[test]
fn company_info_requests() {
    let req = company_info_category_request(1, "600036");
    assert_eq!(req.len(), 24);
    assert_eq!(&req[10..14], &[0xcf, 0x02, 0x01, 0x00]);
    assert_framed(&req);
    let req = company_info_content_request(1, "600036", "600036.txt", 100, 2000);
    assert_eq!(req.len(), 114);
    assert_eq!(&req[10..14], &[0xd0, 0x02, 0x01, 0x00]);
    assert_eq!(&req[20..22], &[0, 0]);
    assert_eq!(&req[22..32], b"600036.txt");
    assert!(req[32..102].iter().all(|b| *b == 0));
    assert_eq!(&req[102..106], &100u32.to_le_bytes());
    assert_eq!(&req[106..110], &2000u32.to_le_bytes());
    assert_eq!(&req[110..114], &[0, 0, 0, 0]);
    assert_framed(&req);
}

#[test]
fn report_file_request_bytes() {
    let req = report_file_request("tdxfin/gpcw.txt", 30000);
    assert_eq!(req.len(), 120);
    assert_eq!(&req[..10], &[0x0c, 0x12, 0x34, 0x00, 0x00, 0x00, 110, 0, 110, 0]);
    assert_eq!(&req[10..12], &[0xb9, 0x06]);
    assert_eq!(&req[12..16], &30000u32.to_le_bytes());
    assert_eq!(&req[16..20], &0x7530u32.to_le_bytes());
    assert_eq!(&req[20..35], b"tdxfin/gpcw.txt");
    assert!(req[35..].iter().all(|b| *b == 0));
    assert_framed(&req);
}

#[test]
fn handshake_packets() {
    let one = setup_command_1();
    let two = setup_command_2();
    let three = setup_command_3();
    assert_eq!(one, vec![0x0c, 0x02, 0x18, 0x93, 0x00, 0x01, 0x03, 0x00, 0x03, 0x00, 0x0d, 0x00, 0x01]);
    assert_eq!(two, vec![0x0c, 0x02, 0x18, 0x94, 0x00, 0x01, 0x03, 0x00, 0x03, 0x00, 0x0d, 0x00, 0x02]);
    assert_eq!(three.len(), 42);
    assert_framed(&one);
    assert_framed(&two);
    assert_framed(&three);
}
