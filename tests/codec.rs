use rsdb::codec::{decode, encode};
use rsdb::packet::{self, Packet, PacketError};
use rsdb::{MultiDB, PacketReader, PacketReaderWriter};

fn b(s: &str) -> Vec<u8> {
    s.as_bytes().to_vec()
}

fn samples() -> Vec<Packet> {
    vec![
        Packet::CmdWrite(vec![b("k"), b("v"), b(""), b("x")]),
        Packet::CmdRead(vec![b("a"), b("")]),
        Packet::CmdDelete(vec![]),
        Packet::CmdUse(b("db")),
        Packet::CmdCurrentDB(),
        Packet::CmdListDb(),
        Packet::CmdDetach(b("")),
        Packet::CmdRangeBegin(0),
        Packet::CmdRangeEnd(0xffff),
        Packet::CmdRangeFromAsc(3, b("a")),
        Packet::CmdRangeFromAscEx(4, b("b")),
        Packet::CmdRangeFromDesc(5, b("c")),
        Packet::CmdRangeFromDescEx(6, b("")),
        Packet::RespOk("Ok.".to_string()),
        Packet::RespError("détaché ✓".to_string()),
        Packet::RespToken(vec![]),
        Packet::RespTokens(vec![b("x"), vec![], b("y")]),
        Packet::RespPairs(vec![b("k"), b("v")]),
    ]
}

#[test]
fn every_sample_round_trips() {
    for p in samples() {
        assert!(p.is_encodable());
        let mut bytes = encode(&p);
        let n = bytes.len();
        bytes.extend_from_slice(&[0x99, 1, 2]);
        let (q, used) = decode(&bytes).unwrap();
        assert_eq!(q, p);
        assert_eq!(used, n);
    }
}

#[test]
fn tags_are_distinct() {
    let mut tags: Vec<u8> = samples().iter().map(|p| encode(p)[0]).collect();
    let n = tags.len();
    tags.sort();
    tags.dedup();
    assert_eq!(tags.len(), n);
}

#[test]
fn empty_token_is_four_zero_bytes_and_reads_back_empty() {
    let bytes = encode(&Packet::RespToken(vec![]));
    assert_eq!(bytes, vec![packet::RESP_TOKEN, 0, 0, 0, 0]);
    assert_eq!(decode(&bytes).unwrap(), (Packet::RespToken(vec![]), 5));
    let list = Packet::RespTokens(vec![b("a"), vec![], b("c")]);
    let (q, _) = decode(&encode(&list)).unwrap();
    match q {
        Packet::RespTokens(ts) => assert_eq!(ts[1], Vec::<u8>::new()),
        _ => panic!("wrong packet"),
    }
}

#[test]
fn lengths_and_counts_are_big_endian() {
    let long = vec![7u8; 0x0102];
    let bytes = encode(&Packet::RespToken(long.clone()));
    assert_eq!(&bytes[..5], &[packet::RESP_TOKEN, 0, 0, 1, 2]);
    let bytes = encode(&Packet::CmdRangeBegin(0x0210));
    assert_eq!(bytes, vec![packet::CMD_RANGE_BEGIN, 2, 16]);
    let many: Vec<Vec<u8>> = (0..0x0103).map(|_| vec![]).collect();
    let bytes = encode(&Packet::CmdRead(many));
    assert_eq!(&bytes[..3], &[packet::CMD_READ, 1, 3]);
}

#[test]
fn unknown_tag_is_malformed() {
    assert_eq!(decode(&[0x99, 0, 0]), Err(PacketError::MalformedProtocol(0x99)));
    assert_eq!(decode(&[0x00]), Err(PacketError::MalformedProtocol(0x00)));
    let mut r = PacketReader::new(&[0x42]);
    assert_eq!(r.read_packet(), Err(PacketError::MalformedProtocol(0x42)));
}

#[test]
fn truncated_frames_are_unexpected_eof() {
    assert_eq!(decode(&[]), Err(PacketError::UnexpectedEof));
    assert_eq!(decode(&[packet::CMD_READ, 0]), Err(PacketError::UnexpectedEof));
    assert_eq!(decode(&[packet::CMD_READ, 0, 1, 0, 0, 0, 2, b'a']), Err(PacketError::UnexpectedEof));
    assert_eq!(decode(&[packet::CMD_USE, 0, 0]), Err(PacketError::UnexpectedEof));
    assert_eq!(decode(&[packet::CMD_RANGE_FROM_ASC, 0, 1, 0, 0, 0]), Err(PacketError::UnexpectedEof));
}

#[test]
fn invalid_utf8_message_is_a_text_encoding_error() {
    let bytes = [packet::RESP_OK, 0, 0, 0, 2, 0xc3, 0x28];
    assert_eq!(decode(&bytes), Err(PacketError::TextEncoding));
    let bytes = [packet::RESP_ERROR, 0, 0, 0, 2, 0xc3, 0xa9];
    assert_eq!(decode(&bytes).unwrap().0, Packet::RespError("é".to_string()));
    let bytes = [packet::RESP_TOKEN, 0, 0, 0, 2, 0xc3, 0x28];
    assert_eq!(decode(&bytes).unwrap().0, Packet::RespToken(vec![0xc3, 0x28]));
}

#[test]
fn unpaired_write_cannot_be_encoded() {
    assert!(!Packet::CmdWrite(vec![b("k")]).is_encodable());
    assert!(!Packet::RespPairs(vec![b("k"), b("v"), b("w")]).is_encodable());
    let too_many: Vec<Vec<u8>> = (0..0x10000).map(|_| vec![]).collect();
    assert!(!Packet::RespTokens(too_many).is_encodable());
    assert!(Packet::RespTokens(vec![]).is_encodable());
}

#[test]
fn reader_reads_frames_one_after_another() {
    let mut bytes = encode(&Packet::CmdUse(b("x")));
    bytes.extend(encode(&Packet::CmdListDb()));
    let mut r = PacketReader::new(&bytes);
    assert_eq!(r.read_packet(), Ok(Packet::CmdUse(b("x"))));
    assert_eq!(r.read_packet(), Ok(Packet::CmdListDb()));
    assert_eq!(r.read_packet(), Err(PacketError::UnexpectedEof));
}

#[test]
fn reader_writer_waits_for_a_whole_frame() {
    let frame = encode(&Packet::CmdWrite(vec![b("key"), b("val")]));
    let mut rw = PacketReaderWriter::new();
    rw.receive(&frame[..4]);
    assert_eq!(rw.read_packet(), Err(PacketError::UnexpectedEof));
    rw.receive(&frame[4..]);
    assert_eq!(rw.read_packet(), Ok(Packet::CmdWrite(vec![b("key"), b("val")])));
    assert_eq!(rw.read_packet(), Err(PacketError::UnexpectedEof));
    rw.write_packet(&Packet::RespOk("Ok.".to_string()));
    rw.write_packet(&Packet::RespToken(vec![]));
    let out = rw.flush();
    assert_eq!(out, vec![packet::RESP_OK, 0, 0, 0, 3, b'O', b'k', b'.', packet::RESP_TOKEN, 0, 0, 0, 0]);
    assert!(rw.flush().is_empty());
}

#[test]
fn registry_attach_is_idempotent_and_detach_forgets() {
    let mut reg: MultiDB<u32> = MultiDB::new("/srv/db");
    assert_eq!(reg.db_path("users"), "/srv/db/users");
    reg.attach("users", 1);
    reg.attach("users", 2);
    assert_eq!(reg.get_db("users"), Some(&1));
    reg.attach("logs", 3);
    assert_eq!(reg.list_db(), vec![b("users"), b("logs")]);
    reg.detach("missing");
    assert_eq!(reg.list_db().len(), 2);
    reg.detach("users");
    assert_eq!(reg.get_db("users"), None);
    assert_eq!(reg.list_db(), vec![b("logs")]);
    reg.attach("users", 4);
    assert_eq!(reg.get_db("users"), Some(&4));
}
