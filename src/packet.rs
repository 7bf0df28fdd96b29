use vstd::prelude::*;
use vstd::utf8::encode_utf8;

verus! {

/// Length in bytes of the type tag that opens every frame.
pub const CMD_LENGTH: usize = 1;

/// Length in bytes of a count or page-size field.
pub const LEN_LENGTH: usize = 2;

/// Length in bytes of the length prefix of a token.
pub const TOKEN_LENGTH: usize = 4;

pub const CMD_WRITE: u8 = 0x01;
pub const CMD_DELETE: u8 = 0x02;
pub const CMD_READ: u8 = 0x03;
pub const CMD_USE: u8 = 0x04;
pub const CMD_CURRENT_DB: u8 = 0x05;
pub const CMD_LIST_DB: u8 = 0x06;
pub const CMD_DETACH: u8 = 0x07;

pub const CMD_RANGE_BEGIN: u8 = 0x31;
pub const CMD_RANGE_END: u8 = 0x32;
pub const CMD_RANGE_FROM_ASC: u8 = 0x33;
pub const CMD_RANGE_FROM_ASC_EX: u8 = 0x34;
pub const CMD_RANGE_FROM_DESC: u8 = 0x35;
pub const CMD_RANGE_FROM_DESC_EX: u8 = 0x36;

pub const RESP_OK: u8 = 0x55;
pub const RESP_ERROR: u8 = 0x56;
pub const RESP_TOKEN: u8 = 0x57;
pub const RESP_TOKENS: u8 = 0x58;
pub const RESP_PAIRS: u8 = 0x59;

/// Largest count that the two-byte count field can hold.
pub const MAX_COUNT: usize = 0xffff;

/// Largest token length that the four-byte length prefix can hold.
pub const MAX_TOKEN_LEN: usize = 0xffff_ffff;

/// One fully buffered message of the wire protocol: a command or a response.
///
/// `CmdWrite` and `RespPairs` hold their pairs flattened, key then value.
/// An empty token stands for "none" by convention only: on the wire it is a
/// zero length, and it reads back as an empty byte string.
#[derive(Debug, PartialEq, Eq)]
pub enum Packet {
    CmdWrite(Vec<Vec<u8>>),
    CmdRead(Vec<Vec<u8>>),
    CmdDelete(Vec<Vec<u8>>),
    CmdUse(Vec<u8>),
    CmdCurrentDB(),
    CmdListDb(),
    CmdDetach(Vec<u8>),
    CmdRangeBegin(u16),
    CmdRangeEnd(u16),
    CmdRangeFromAsc(u16, Vec<u8>),
    CmdRangeFromAscEx(u16, Vec<u8>),
    CmdRangeFromDesc(u16, Vec<u8>),
    CmdRangeFromDescEx(u16, Vec<u8>),
    RespOk(String),
    RespError(String),
    RespToken(Vec<u8>),
    RespTokens(Vec<Vec<u8>>),
    RespPairs(Vec<Vec<u8>>),
}

/// The mathematical value of a [`Packet`]: byte strings as sequences of bytes,
/// messages as sequences of characters.
pub enum PacketModel {
    CmdWrite(Seq<Seq<u8>>),
    CmdRead(Seq<Seq<u8>>),
    CmdDelete(Seq<Seq<u8>>),
    CmdUse(Seq<u8>),
    CmdCurrentDB,
    CmdListDb,
    CmdDetach(Seq<u8>),
    CmdRangeBegin(u16),
    CmdRangeEnd(u16),
    CmdRangeFromAsc(u16, Seq<u8>),
    CmdRangeFromAscEx(u16, Seq<u8>),
    CmdRangeFromDesc(u16, Seq<u8>),
    CmdRangeFromDescEx(u16, Seq<u8>),
    RespOk(Seq<char>),
    RespError(Seq<char>),
    RespToken(Seq<u8>),
    RespTokens(Seq<Seq<u8>>),
    RespPairs(Seq<Seq<u8>>),
}

/// Errors met while reading a frame.
#[derive(Debug, PartialEq, Eq, Clone, Copy)]
pub enum PacketError {
    /// The bytes end before the frame does.
    UnexpectedEof,
    /// The type tag is none of the protocol's.
    MalformedProtocol(u8),
    /// A message field is not valid UTF-8.
    TextEncoding,
}

/// The byte strings of a list of tokens.
pub open spec fn tokens_view(v: Vec<Vec<u8>>) -> Seq<Seq<u8>> {
    v@.map_values(|t: Vec<u8>| t@)
}

impl View for Packet {
    type V = PacketModel;

    open spec fn view(&self) -> PacketModel {
        match self {
            Packet::CmdWrite(v) => PacketModel::CmdWrite(tokens_view(*v)),
            Packet::CmdRead(v) => PacketModel::CmdRead(tokens_view(*v)),
            Packet::CmdDelete(v) => PacketModel::CmdDelete(tokens_view(*v)),
            Packet::CmdUse(t) => PacketModel::CmdUse(t@),
            Packet::CmdCurrentDB() => PacketModel::CmdCurrentDB,
            Packet::CmdListDb() => PacketModel::CmdListDb,
            Packet::CmdDetach(t) => PacketModel::CmdDetach(t@),
            Packet::CmdRangeBegin(n) => PacketModel::CmdRangeBegin(*n),
            Packet::CmdRangeEnd(n) => PacketModel::CmdRangeEnd(*n),
            Packet::CmdRangeFromAsc(n, t) => PacketModel::CmdRangeFromAsc(*n, t@),
            Packet::CmdRangeFromAscEx(n, t) => PacketModel::CmdRangeFromAscEx(*n, t@),
            Packet::CmdRangeFromDesc(n, t) => PacketModel::CmdRangeFromDesc(*n, t@),
            Packet::CmdRangeFromDescEx(n, t) => PacketModel::CmdRangeFromDescEx(*n, t@),
            Packet::RespOk(s) => PacketModel::RespOk(s@),
            Packet::RespError(s) => PacketModel::RespError(s@),
            Packet::RespToken(t) => PacketModel::RespToken(t@),
            Packet::RespTokens(v) => PacketModel::RespTokens(tokens_view(*v)),
            Packet::RespPairs(v) => PacketModel::RespPairs(tokens_view(*v)),
        }
    }
}

/// A token whose length fits the four-byte length prefix.
pub open spec fn token_fits(t: Seq<u8>) -> bool {
    t.len() <= MAX_TOKEN_LEN
}

/// Every token of the list fits its length prefix.
pub open spec fn tokens_fit(ts: Seq<Seq<u8>>) -> bool {
    forall|i: int| 0 <= i < ts.len() ==> #[trigger] token_fits(ts[i])
}

/// A list of tokens that a count field can announce.
pub open spec fn list_fits(ts: Seq<Seq<u8>>) -> bool {
    ts.len() <= MAX_COUNT && tokens_fit(ts)
}

/// A flattened list of pairs that a pair count can announce.
pub open spec fn pairs_fit(ts: Seq<Seq<u8>>) -> bool {
    ts.len() % 2 == 0 && ts.len() / 2 <= MAX_COUNT && tokens_fit(ts)
}

impl PacketModel {
    /// The packet can be framed: lengths and counts fit their fields, and pair
    /// lists have an even number of entries.
    pub open spec fn wf(self) -> bool {
        match self {
            PacketModel::CmdWrite(ts) => pairs_fit(ts),
            PacketModel::RespPairs(ts) => pairs_fit(ts),
            PacketModel::CmdRead(ts) => list_fits(ts),
            PacketModel::CmdDelete(ts) => list_fits(ts),
            PacketModel::RespTokens(ts) => list_fits(ts),
            PacketModel::CmdUse(t) => token_fits(t),
            PacketModel::CmdDetach(t) => token_fits(t),
            PacketModel::RespToken(t) => token_fits(t),
            PacketModel::CmdRangeFromAsc(_, t) => token_fits(t),
            PacketModel::CmdRangeFromAscEx(_, t) => token_fits(t),
            PacketModel::CmdRangeFromDesc(_, t) => token_fits(t),
            PacketModel::CmdRangeFromDescEx(_, t) => token_fits(t),
            PacketModel::RespOk(s) => token_fits(encode_utf8(s)),
            PacketModel::RespError(s) => token_fits(encode_utf8(s)),
            _ => true,
        }
    }
}

pub(crate) fn all_tokens_fit(v: &Vec<Vec<u8>>) -> (r: bool)
    ensures
        r == tokens_fit(tokens_view(*v)),
{
    let mut i: usize = 0;
    while i < v.len()
        invariant
            i <= v@.len(),
            forall|j: int| 0 <= j < i ==> #[trigger] token_fits(tokens_view(*v)[j]),
        decreases v@.len() - i,
    {
        if v[i].len() > MAX_TOKEN_LEN {
            assert(!token_fits(tokens_view(*v)[i as int]));
            return false;
        }
        i += 1;
    }
    true
}

impl Packet {
    /// Whether this packet can be framed (see [`PacketModel::wf`]). A value
    /// that cannot is refused before encoding: the format cannot represent it.
    pub fn is_encodable(&self) -> (r: bool)
        ensures
            r == self@.wf(),
    {
        match self {
            Packet::CmdWrite(v) | Packet::RespPairs(v) => {
                v.len() % 2 == 0 && v.len() / 2 <= MAX_COUNT && all_tokens_fit(v)
            },
            Packet::CmdRead(v) | Packet::CmdDelete(v) | Packet::RespTokens(v) => {
                v.len() <= MAX_COUNT && all_tokens_fit(v)
            },
            Packet::CmdUse(t) | Packet::CmdDetach(t) | Packet::RespToken(t) => t.len()
                <= MAX_TOKEN_LEN,
            Packet::CmdRangeFromAsc(_, t)
            | Packet::CmdRangeFromAscEx(_, t)
            | Packet::CmdRangeFromDesc(_, t)
            | Packet::CmdRangeFromDescEx(_, t) => t.len() <= MAX_TOKEN_LEN,
            Packet::RespOk(s) | Packet::RespError(s) => s.as_str().as_bytes().len()
                <= MAX_TOKEN_LEN,
            _ => true,
        }
    }
}

} // verus!
