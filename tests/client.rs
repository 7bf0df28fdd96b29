use rsdb::packet::Packet;
use rsdb::session::ScanStart;
use rsdb::{RsDBClient, RsDBError};

fn b(s: &str) -> Vec<u8> {
    s.as_bytes().to_vec()
}

fn selected() -> RsDBClient {
    let mut c = RsDBClient::new();
    c.use_db_response("db", Packet::RespOk("Ok.".to_string())).unwrap();
    c
}

#[test]
fn requests_need_a_selection() {
    let c = RsDBClient::new();
    assert!(matches!(c.set_request(b"k", b"v"), Err(RsDBError::NoDbSelected)));
    assert!(matches!(c.get_request(b"k"), Err(RsDBError::NoDbSelected)));
    assert!(matches!(c.range_request(&ScanStart::Start, 3, false), Err(RsDBError::NoDbSelected)));
}

#[test]
fn requests_carry_their_arguments() {
    let c = selected();
    assert_eq!(c.set_request(b"k", b"v").unwrap(), Packet::CmdWrite(vec![b("k"), b("v")]));
    assert_eq!(c.delete_request(b"k").unwrap(), Packet::CmdDelete(vec![b("k")]));
    assert_eq!(c.use_db_request("x"), Packet::CmdUse(b("x")));
    assert_eq!(
        c.range_request(&ScanStart::Forward(b("k")), 9, true).unwrap(),
        Packet::CmdRangeFromAscEx(9, b("k"))
    );
    assert_eq!(
        c.range_request(&ScanStart::Backward(b("k")), 9, false).unwrap(),
        Packet::CmdRangeFromDesc(9, b("k"))
    );
    assert_eq!(c.range_request(&ScanStart::End, 1, true).unwrap(), Packet::CmdRangeEnd(1));
}

#[test]
fn responses_are_read() {
    let mut c = selected();
    assert_eq!(c.get_db_name(), &Some("db".to_string()));
    assert_eq!(c.get_response(Packet::RespTokens(vec![b("v")])).unwrap(), Some(b("v")));
    assert_eq!(c.get_response(Packet::RespTokens(vec![b("")])).unwrap(), None);
    assert!(matches!(c.get_response(Packet::RespTokens(vec![])), Err(RsDBError::RespError(ref m)) if m == "invalid response"));
    assert!(matches!(c.set_response(Packet::RespError("no db selected".to_string())), Err(RsDBError::RespError(ref m)) if m == "no db selected"));
    let pairs = c.range_response(Packet::RespPairs(vec![b("a"), b("1"), b("b"), b("2")])).unwrap();
    assert_eq!(pairs, vec![(b("a"), b("1")), (b("b"), b("2"))]);
    assert!(matches!(c.range_response(Packet::RespPairs(vec![b("a")])), Err(RsDBError::EmptyToken)));
    let names = c.list_db_response(Packet::RespTokens(vec![b("x"), b("y")])).unwrap();
    assert_eq!(names, vec!["x".to_string(), "y".to_string()]);
    assert!(matches!(c.list_db_response(Packet::RespTokens(vec![vec![0xff]])), Err(RsDBError::FromUtf8Error)));
    assert_eq!(c.get_current_db_response(Packet::RespToken(b("other"))).unwrap(), Some("other".to_string()));
    assert_eq!(c.get_db_name(), &Some("other".to_string()));
    c.detach_db_response("other", Packet::RespOk("Ok.".to_string())).unwrap();
    assert_eq!(c.get_db_name(), &None);
}
