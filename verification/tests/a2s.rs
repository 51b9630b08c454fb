use csgo_scanner::a2s::{info_request, on_reply, A2sError, Cursor, Reply};
use csgo_scanner::model::{Addr, ServerInfo};

fn info_body(name: &[u8], version: &[u8]) -> Vec<u8> {
    let mut v = vec![0xFF, 0xFF, 0xFF, 0xFF, 0x49, 17];
    v.extend_from_slice(name);
    v.push(0);
    v.extend_from_slice(b"de_dust2\0csgo\0Counter-Strike: Global Offensive\0");
    v.extend_from_slice(&[0xDA, 0x02, 5, 12, 1, b'd', b'l', 0, 1]);
    v.extend_from_slice(version);
    v.push(0);
    v
}

#[test]
fn request_is_source_engine_query() {
    assert_eq!(info_request(), b"\xFF\xFF\xFF\xFF\x54Source Engine Query\0".to_vec());
}

#[test]
fn challenge_is_answered_with_request_and_challenge() {
    let resp = [0xFF, 0xFF, 0xFF, 0xFF, 0x41, 1, 2, 3, 4];
    match on_reply(&resp, false) {
        Ok(Reply::Challenge(req)) => {
            let mut want = b"\xFF\xFF\xFF\xFF\x54Source Engine Query\0".to_vec();
            want.extend_from_slice(&[1, 2, 3, 4]);
            assert_eq!(req, want);
        }
        _ => panic!("expected a challenge"),
    }
}

#[test]
fn second_challenge_is_refused() {
    let resp = [0xFF, 0xFF, 0xFF, 0xFF, 0x41, 1, 2, 3, 4];
    match on_reply(&resp, true) {
        Err(e) => {
            assert_eq!(e, A2sError::UnexpectedType(0x41));
            assert_eq!(e.message(), "unexpected A2S response type 0x41");
        }
        _ => panic!("expected an error"),
    }
}

#[test]
fn short_challenge_is_end_of_buffer() {
    let resp = [0xFF, 0xFF, 0xFF, 0xFF, 0x41, 1, 2];
    assert!(matches!(on_reply(&resp, false), Err(A2sError::EndOfBuffer)));
    assert!(matches!(on_reply(&[0xFF, 0xFF], false), Err(A2sError::EndOfBuffer)));
    assert_eq!(A2sError::EndOfBuffer.message(), "unexpected end of buffer");
}

#[test]
fn unexpected_type_is_reported_in_hex() {
    let resp = [0xFF, 0xFF, 0xFF, 0xFF, 0x0A, 0];
    match on_reply(&resp, false) {
        Err(e) => assert_eq!(e.message(), "unexpected A2S response type 0x0A"),
        _ => panic!("expected an error"),
    }
    assert_eq!(A2sError::UnexpectedType(0xAB).message(), format!("unexpected A2S response type 0x{:02X}", 0xABu8));
}

#[test]
fn info_body_is_read_field_by_field() {
    let resp = info_body(b"My Server", b"1.38.8.1");
    match on_reply(&resp, false) {
        Ok(Reply::Info(i)) => {
            assert_eq!(i.protocol, 17);
            assert_eq!(i.name, "My Server");
            assert_eq!(i.map, "de_dust2");
            assert_eq!(i.folder, "csgo");
            assert_eq!(i.game, "Counter-Strike: Global Offensive");
            assert_eq!(i.appid, 730);
            assert_eq!(i.players, 5);
            assert_eq!(i.max_players, 12);
            assert_eq!(i.bots, 1);
            assert_eq!(i.server_type, b'd');
            assert_eq!(i.environment, b'l');
            assert_eq!(i.visibility, 0);
            assert_eq!(i.vac, 1);
            assert_eq!(i.version, "1.38.8.1");
            let s = ServerInfo::from_reply(Addr::new(1, 2, 3, 4, 5), 7, i);
            assert_eq!(s.map, "de_dust2");
            assert_eq!(s.latency_nanos, 7);
            assert_eq!(s.country, "");
        }
        _ => panic!("expected info"),
    }
}

#[test]
fn invalid_utf8_is_replaced() {
    let resp = info_body(b"caf\xE9", b"1.38.8.1");
    match on_reply(&resp, true) {
        Ok(Reply::Info(i)) => assert_eq!(i.name, "caf\u{FFFD}"),
        _ => panic!("expected info"),
    }
}

#[test]
fn unterminated_version_is_end_of_buffer() {
    let mut resp = info_body(b"n", b"1.38.8.1");
    resp.pop();
    assert!(matches!(on_reply(&resp, false), Err(A2sError::EndOfBuffer)));
}

#[test]
fn truncated_fixed_fields_are_end_of_buffer() {
    let resp = b"\xFF\xFF\xFF\xFF\x49\x11name\0map\0csgo\0game\0\xDA\x02\x05".to_vec();
    assert!(matches!(on_reply(&resp, false), Err(A2sError::EndOfBuffer)));
    let resp = b"\xFF\xFF\xFF\xFF\x49".to_vec();
    assert!(matches!(on_reply(&resp, false), Err(A2sError::EndOfBuffer)));
}

#[test]
fn string_running_to_the_end_is_end_of_buffer() {
    for resp in [
        &b"\xFF\xFF\xFF\xFF\x49\x11a"[..],
        &b"\xFF\xFF\xFF\xFF\x49\x11name"[..],
        &b"\xFF\xFF\xFF\xFF\x49\x11name\0map"[..],
        &b"\xFF\xFF\xFF\xFF\x49\x11name\0map\0csgo"[..],
        &b"\xFF\xFF\xFF\xFF\x49\x11name\0map\0csgo\0game"[..],
    ] {
        assert!(matches!(on_reply(resp, false), Err(A2sError::EndOfBuffer)));
    }
}

#[test]
fn challenge_then_info_gives_the_server() {
    let r1 = [0xFF, 0xFF, 0xFF, 0xFF, 0x41, 0x0A, 0x0B, 0x0C, 0x0D];
    let req = match on_reply(&r1, false) {
        Ok(Reply::Challenge(req)) => req,
        _ => panic!("expected a challenge"),
    };
    let mut want = info_request();
    want.extend_from_slice(&[0x0A, 0x0B, 0x0C, 0x0D]);
    assert_eq!(req, want);
    let mut r2 = vec![0xFF, 0xFF, 0xFF, 0xFF, 0x49, 0x11];
    r2.extend_from_slice(b"a\0de_x\0csgo\0g\0");
    r2.extend_from_slice(&[0xDA, 0x02, 0x05, 0x0C, 0x00, 0x64, 0x6C, 0x00, 0x01]);
    r2.extend_from_slice(b"1.38.8.1\0");
    match on_reply(&r2, true) {
        Ok(Reply::Info(i)) => {
            let s = ServerInfo::from_reply(Addr::new(1, 2, 3, 4, 27015), 0, i);
            assert_eq!(s.protocol, 17);
            assert_eq!(s.name, "a");
            assert_eq!(s.map, "de_x");
            assert_eq!(s.folder, "csgo");
            assert_eq!(s.game, "g");
            assert_eq!((s.players, s.max_players, s.bots), (5, 12, 0));
            assert_eq!(s.version, "1.38.8.1");
            assert_eq!(s.country, "");
        }
        _ => panic!("expected info"),
    }
}

#[test]
fn cursor_reads_in_order_and_stops_at_the_end() {
    let data = [1u8, 2, 3, 0x34, 0x12, b'h', b'i', 0, b'x'];
    let mut c = Cursor::new(&data);
    assert_eq!(c.u8(), Ok(1));
    assert!(c.skip(2).is_ok());
    assert_eq!(c.u16le(), Ok(0x1234));
    assert_eq!(c.cstr(), Ok("hi".to_string()));
    assert_eq!(c.pos, 8);
    assert_eq!(c.take(2), Err(A2sError::EndOfBuffer));
    assert_eq!(c.pos, 8);
    assert_eq!(c.cstr(), Err(A2sError::EndOfBuffer));
    assert_eq!(c.pos, 8);
    let one = [0x61u8];
    let mut c = Cursor::new(&one);
    assert_eq!(c.cstr(), Err(A2sError::EndOfBuffer));
    assert_eq!(c.pos, 0);
    let mut c = Cursor::new(&data);
    c.pos = 8;
    assert_eq!(c.take(1), Ok(&b"x"[..]));
    assert_eq!(c.cstr(), Err(A2sError::EndOfBuffer));
    assert_eq!(c.pos, 9);
}
