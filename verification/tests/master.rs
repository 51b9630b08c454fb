use csgo_scanner::master::{master_request, parse_master_page, MasterError};
use csgo_scanner::model::Addr;

#[test]
fn request_asks_for_appid_730() {
    let mut want: Vec<u8> = vec![0x31, 0xFF];
    want.extend_from_slice(b"0.0.0.0:0\0");
    want.extend_from_slice(b"\\appid\\730\0");
    assert_eq!(master_request(), want);
}

#[test]
fn page_entries_stop_at_sentinel() {
    let mut d = vec![0xFF, 0xFF, 0xFF, 0xFF, 0x66, 0x0A];
    d.extend_from_slice(&[51, 77, 47, 244, 0x69, 0x87]);
    d.extend_from_slice(&[1, 2, 3, 4, 0, 80]);
    d.extend_from_slice(&[0, 0, 0, 0, 0, 0]);
    d.extend_from_slice(&[9, 9, 9, 9, 0, 1]);
    let got = match parse_master_page(&d) {
        Ok(v) => v,
        Err(_) => panic!("expected entries"),
    };
    assert_eq!(got, vec![Addr::new(51, 77, 47, 244, 27015), Addr::new(1, 2, 3, 4, 80)]);
}

#[test]
fn trailing_partial_entry_is_ignored() {
    let mut d = vec![0xFF, 0xFF, 0xFF, 0xFF, 0x66, 0x0A];
    d.extend_from_slice(&[1, 2, 3, 4, 0, 80, 7, 7]);
    match parse_master_page(&d) {
        Ok(v) => assert_eq!(v, vec![Addr::new(1, 2, 3, 4, 80)]),
        Err(_) => panic!("expected entries"),
    }
}

#[test]
fn bad_header_is_reported() {
    match parse_master_page(&[0xFF, 0x00]) {
        Err(e) => {
            let MasterError::BadHeader(b) = &e;
            assert_eq!(b, &vec![0xFF, 0x00]);
            assert_eq!(e.message(), format!("unexpected master header: {:02X?}", &[0xFFu8, 0x00]));
            assert_eq!(e.message(), "unexpected master header: [FF, 00]");
        }
        Ok(_) => panic!("expected an error"),
    }
    match parse_master_page(&[0xFF, 0xFF, 0xFF, 0xFF, 0x66, 0x0B, 1]) {
        Err(e) => assert_eq!(e.message(), "unexpected master header: [FF, FF, FF, FF, 66, 0B]"),
        Ok(_) => panic!("expected an error"),
    }
    match parse_master_page(&[]) {
        Err(e) => assert_eq!(e.message(), "unexpected master header: []"),
        Ok(_) => panic!("expected an error"),
    }
}
