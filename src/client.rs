use crate::packet::{tokens_view, Packet, PacketError, PacketModel};
use crate::range::{flatten, pairs_view};
use crate::session::ScanStart;
use crate::text::{copy_bytes, str_eq, string_from_utf8, utf8_bytes};
use vstd::prelude::*;
use vstd::string::StringExecFns;
use vstd::utf8::{decode_utf8, encode_utf8, valid_utf8};

verus! {

pub const MSG_INVALID_RESPONSE: &'static str = "invalid response";

/// What can go wrong on the client's side of a request.
#[derive(Debug)]
pub enum RsDBError {
    /// The transport failed; the text says how.
    IOError(String),
    /// The server answered with an error, or with a response of the wrong kind.
    RespError(String),
    /// A name in the response is not valid UTF-8.
    FromUtf8Error,
    /// There is no connection to send on.
    NotConnect,
    /// The request needs a selected database and none is.
    NoDbSelected,
    /// A pair in the response lacks its key or value.
    EmptyToken,
    /// The response could not be read.
    PacketError(PacketError),
}

/// The client's side of a connection, without the transport: it builds each
/// request and reads the server's answer to it, and remembers the database it
/// selected.
pub struct RsDBClient {
    db_name: Option<String>,
}

/// `r` is the "invalid response" error.
pub open spec fn is_invalid_response<T>(r: Result<T, RsDBError>) -> bool {
    r matches Err(RsDBError::RespError(m)) && m@ == MSG_INVALID_RESPONSE@
}

fn invalid_response() -> (e: RsDBError)
    ensures
        e matches RsDBError::RespError(m) && m@ == MSG_INVALID_RESPONSE@,
{
    RsDBError::RespError(String::from_str(MSG_INVALID_RESPONSE))
}

/// The names of a list response, or `None` where one is not UTF-8.
pub open spec fn names_of(tokens: Seq<Seq<u8>>) -> Option<Seq<Seq<char>>> {
    if forall|i: int| 0 <= i < tokens.len() ==> valid_utf8(#[trigger] tokens[i]) {
        Some(tokens.map_values(|t: Seq<u8>| decode_utf8(t)))
    } else {
        None
    }
}

/// The pairs of a pairs response: key then value, in order.
pub open spec fn pairs_of(tokens: Seq<Seq<u8>>) -> Seq<(Seq<u8>, Seq<u8>)> {
    Seq::new(tokens.len() / 2, |i: int| (tokens[2 * i], tokens[2 * i + 1]))
}

impl RsDBClient {
    /// The database selected, as far as this client knows.
    pub closed spec fn db(&self) -> Option<Seq<char>> {
        match self.db_name {
            Some(n) => Some(n@),
            None => None,
        }
    }

    /// No database selected.
    pub fn new() -> (r: Self)
        ensures
            r.db() is None,
    {
        RsDBClient { db_name: None }
    }

    /// The name of the database selected.
    pub fn get_db_name(&self) -> (r: &Option<String>)
        ensures
            match *r {
                Some(n) => self.db() == Some(n@),
                None => self.db() is None,
            },
    {
        &self.db_name
    }

    fn check_db(&self) -> (r: Result<(), RsDBError>)
        ensures
            self.db() is None <==> r matches Err(RsDBError::NoDbSelected),
            r is Ok <==> self.db() is Some,
    {
        if self.db_name.is_none() {
            Err(RsDBError::NoDbSelected)
        } else {
            Ok(())
        }
    }

    /// The request that stores `value` under `key`.
    pub fn set_request(&self, key: &[u8], value: &[u8]) -> (r: Result<Packet, RsDBError>)
        ensures
            self.db() is None ==> r matches Err(RsDBError::NoDbSelected),
            self.db() is Some ==> (r matches Ok(p) && p@ == PacketModel::CmdWrite(
                seq![key@, value@],
            )),
    {
        self.check_db()?;
        let parts = vec![copy_bytes(key), copy_bytes(value)];
        assert(tokens_view(parts) =~= seq![key@, value@]);
        Ok(Packet::CmdWrite(parts))
    }

    /// What the answer to a store says: an error response fails with its
    /// message.
    pub fn set_response(&self, resp: Packet) -> (r: Result<(), RsDBError>)
        ensures
            match resp@ {
                PacketModel::RespError(m) => r matches Err(RsDBError::RespError(e)) && e@ == m,
                _ => r is Ok,
            },
    {
        match resp {
            Packet::RespError(msg) => Err(RsDBError::RespError(msg)),
            _ => Ok(()),
        }
    }

    /// The request that reads `key`.
    pub fn get_request(&self, key: &[u8]) -> (r: Result<Packet, RsDBError>)
        ensures
            self.db() is None ==> r matches Err(RsDBError::NoDbSelected),
            self.db() is Some ==> (r matches Ok(p) && p@ == PacketModel::CmdRead(seq![key@])),
    {
        self.check_db()?;
        let keys = vec![copy_bytes(key)];
        assert(tokens_view(keys) =~= seq![key@]);
        Ok(Packet::CmdRead(keys))
    }

    /// What the answer to a read of one key says: its value, or `None` for
    /// the empty token.
    pub fn get_response(&self, resp: Packet) -> (r: Result<Option<Vec<u8>>, RsDBError>)
        ensures
            match resp@ {
                PacketModel::RespTokens(vals) => if vals.len() != 1 {
                    is_invalid_response(r)
                } else if vals[0].len() == 0 {
                    r matches Ok(None)
                } else {
                    r matches Ok(Some(v)) && v@ == vals[0]
                },
                _ => is_invalid_response(r),
            },
    {
        match resp {
            Packet::RespTokens(vals) => {
                if vals.len() != 1 {
                    Err(invalid_response())
                } else if vals[0].len() == 0 {
                    Ok(None)
                } else {
                    Ok(Some(copy_bytes(vals[0].as_slice())))
                }
            },
            _ => Err(invalid_response()),
        }
    }

    /// The request that deletes `key`.
    pub fn delete_request(&self, key: &[u8]) -> (r: Result<Packet, RsDBError>)
        ensures
            self.db() is None ==> r matches Err(RsDBError::NoDbSelected),
            self.db() is Some ==> (r matches Ok(p) && p@ == PacketModel::CmdDelete(seq![key@])),
    {
        self.check_db()?;
        let keys = vec![copy_bytes(key)];
        assert(tokens_view(keys) =~= seq![key@]);
        Ok(Packet::CmdDelete(keys))
    }

    /// What the answer to a delete says.
    pub fn delete_response(&self, resp: Packet) -> (r: Result<(), RsDBError>)
        ensures
            resp@ is RespOk ==> r is Ok,
            !(resp@ is RespOk) ==> is_invalid_response(r),
    {
        match resp {
            Packet::RespOk(_) => Ok(()),
            _ => Err(invalid_response()),
        }
    }

    /// The request that selects `name`.
    pub fn use_db_request(&self, name: &str) -> (r: Packet)
        ensures
            r@ == PacketModel::CmdUse(encode_utf8(name@)),
    {
        Packet::CmdUse(utf8_bytes(name))
    }

    /// What the answer to a selection says; on success the client remembers
    /// `name`.
    pub fn use_db_response(&mut self, name: &str, resp: Packet) -> (r: Result<(), RsDBError>)
        ensures
            resp@ is RespOk ==> r is Ok && final(self).db() == Some(name@),
            !(resp@ is RespOk) ==> is_invalid_response(r) && final(self).db() == old(self).db(),
    {
        match resp {
            Packet::RespOk(_) => {
                self.db_name = Some(String::from_str(name));
                Ok(())
            },
            _ => Err(invalid_response()),
        }
    }

    /// The request that detaches `name`.
    pub fn detach_db_request(&self, name: &str) -> (r: Packet)
        ensures
            r@ == PacketModel::CmdDetach(encode_utf8(name@)),
    {
        Packet::CmdDetach(utf8_bytes(name))
    }

    /// What the answer to a detach says; on success the client forgets its
    /// selection if it was `name`.
    pub fn detach_db_response(&mut self, name: &str, resp: Packet) -> (r: Result<(), RsDBError>)
        ensures
            resp@ is RespOk ==> r is Ok && final(self).db() == (if old(self).db() == Some(
                name@,
            ) {
                None
            } else {
                old(self).db()
            }),
            !(resp@ is RespOk) ==> is_invalid_response(r) && final(self).db() == old(self).db(),
    {
        match resp {
            Packet::RespOk(_) => {
                let forget = match &self.db_name {
                    Some(db_name) => str_eq(db_name.as_str(), name),
                    None => false,
                };
                if forget {
                    self.db_name = None;
                }
                Ok(())
            },
            _ => Err(invalid_response()),
        }
    }

    /// The request that asks which database the connection selected.
    pub fn get_current_db_request(&self) -> (r: Packet)
        ensures
            r@ == PacketModel::CmdCurrentDB,
    {
        Packet::CmdCurrentDB()
    }

    /// What the answer says: the name (which the client then remembers), or
    /// `None` for the empty token.
    pub fn get_current_db_response(&mut self, resp: Packet) -> (r: Result<
        Option<String>,
        RsDBError,
    >)
        ensures
            match resp@ {
                PacketModel::RespToken(data) => if data.len() == 0 {
                    r matches Ok(None) && final(self).db() == old(self).db()
                } else if valid_utf8(data) {
                    r matches Ok(Some(n)) && n@ == decode_utf8(data) && final(self).db() == Some(
                        decode_utf8(data),
                    )
                } else {
                    r matches Err(RsDBError::FromUtf8Error) && final(self).db() == old(self).db()
                },
                _ => is_invalid_response(r) && final(self).db() == old(self).db(),
            },
    {
        match resp {
            Packet::RespToken(data) => {
                if data.len() == 0 {
                    Ok(None)
                } else {
                    match string_from_utf8(data) {
                        Some(msg) => {
                            self.db_name = Some(msg.clone());
                            Ok(Some(msg))
                        },
                        None => Err(RsDBError::FromUtf8Error),
                    }
                }
            },
            _ => Err(invalid_response()),
        }
    }

    /// The request that lists the attached databases.
    pub fn list_db_request(&self) -> (r: Packet)
        ensures
            r@ == PacketModel::CmdListDb,
    {
        Packet::CmdListDb()
    }

    /// What the answer says: the names, in the server's order.
    pub fn list_db_response(&self, resp: Packet) -> (r: Result<Vec<String>, RsDBError>)
        ensures
            match resp@ {
                PacketModel::RespTokens(tokens) => match names_of(tokens) {
                    Some(names) => r matches Ok(v) && v@.len() == names.len() && forall|i: int|
                        0 <= i < names.len() ==> #[trigger] v@[i]@ == names[i],
                    None => r matches Err(RsDBError::FromUtf8Error),
                },
                _ => is_invalid_response(r),
            },
    {
        match resp {
            Packet::RespTokens(tokens) => {
                let ghost tv = tokens_view(tokens);
                assert(resp@ == PacketModel::RespTokens(tv));
                let mut names: Vec<String> = Vec::new();
                let mut i: usize = 0;
                while i < tokens.len()
                    invariant
                        i <= tokens@.len(),
                        tv == tokens_view(tokens),
                        resp@ == PacketModel::RespTokens(tv),
                        names@.len() == i,
                        forall|j: int| 0 <= j < i ==> valid_utf8(#[trigger] tv[j]),
                        forall|j: int| 0 <= j < i ==> #[trigger] names@[j]@ == decode_utf8(tv[j]),
                    decreases tokens@.len() - i,
                {
                    match string_from_utf8(copy_bytes(tokens[i].as_slice())) {
                        Some(n) => names.push(n),
                        None => {
                            assert(!valid_utf8(tv[i as int]));
                            assert(names_of(tv) is None);
                            return Err(RsDBError::FromUtf8Error);
                        },
                    }
                    i += 1;
                }
                Ok(names)
            },
            _ => Err(invalid_response()),
        }
    }

    /// The request for a page of at most `page_size` pairs from `start`; with
    /// `exclude_current`, a pair whose key is exactly the starting key is left
    /// out.
    pub fn range_request(&self, start: &ScanStart, page_size: u16, exclude_current: bool) -> (r:
        Result<Packet, RsDBError>)
        ensures
            self.db() is None ==> r matches Err(RsDBError::NoDbSelected),
            self.db() is Some ==> (r matches Ok(p) && match *start {
                ScanStart::Start => p@ == PacketModel::CmdRangeBegin(page_size),
                ScanStart::End => p@ == PacketModel::CmdRangeEnd(page_size),
                ScanStart::Forward(k) => p@ == if exclude_current {
                    PacketModel::CmdRangeFromAscEx(page_size, k@)
                } else {
                    PacketModel::CmdRangeFromAsc(page_size, k@)
                },
                ScanStart::Backward(k) => p@ == if exclude_current {
                    PacketModel::CmdRangeFromDescEx(page_size, k@)
                } else {
                    PacketModel::CmdRangeFromDesc(page_size, k@)
                },
            }),
    {
        self.check_db()?;
        let p = match start {
            ScanStart::Start => Packet::CmdRangeBegin(page_size),
            ScanStart::End => Packet::CmdRangeEnd(page_size),
            ScanStart::Forward(k) => if exclude_current {
                Packet::CmdRangeFromAscEx(page_size, copy_bytes(k.as_slice()))
            } else {
                Packet::CmdRangeFromAsc(page_size, copy_bytes(k.as_slice()))
            },
            ScanStart::Backward(k) => if exclude_current {
                Packet::CmdRangeFromDescEx(page_size, copy_bytes(k.as_slice()))
            } else {
                Packet::CmdRangeFromDesc(page_size, copy_bytes(k.as_slice()))
            },
        };
        Ok(p)
    }

    /// What the answer to a range request says: its pairs, in order. A last
    /// key without its value is an error.
    pub fn range_response(&self, resp: Packet) -> (r: Result<Vec<(Vec<u8>, Vec<u8>)>, RsDBError>)
        ensures
            match resp@ {
                PacketModel::RespPairs(tokens) => if tokens.len() % 2 == 1 {
                    r matches Err(RsDBError::EmptyToken)
                } else {
                    r matches Ok(v) && pairs_view(v) == pairs_of(tokens) && flatten(pairs_of(tokens)) == tokens
                },
                _ => is_invalid_response(r),
            },
    {
        match resp {
            Packet::RespPairs(tokens) => {
                if tokens.len() % 2 == 1 {
                    return Err(RsDBError::EmptyToken);
                }
                let ghost tv = tokens_view(tokens);
                let mut pairs: Vec<(Vec<u8>, Vec<u8>)> = Vec::new();
                let mut i: usize = 0;
                while i < tokens.len() / 2
                    invariant
                        i <= tokens@.len() / 2,
                        tokens@.len() % 2 == 0,
                        tv == tokens_view(tokens),
                        pairs@.len() == i,
                        pairs_view(pairs) == pairs_of(
                            tv,
                        ).take(i as int),
                    decreases tokens@.len() / 2 - i,
                {
                    let k = copy_bytes(tokens[2 * i].as_slice());
                    let v = copy_bytes(tokens[2 * i + 1].as_slice());
                    let ghost before = pairs@;
                    pairs.push((k, v));
                    assert(pairs@ == before.push((k, v)));
                    assert(pairs_of(tv)[i as int] == (k@, v@));
                    i += 1;
                    assert forall|j: int| 0 <= j < i implies #[trigger] pairs_view(pairs)[j] == pairs_of(tv).take(i as int)[j] by {
                        if j < i - 1 {
                            assert(pairs@[j] == before[j]);
                        }
                    }
                    assert(pairs_view(pairs) =~= pairs_of(
                        tv,
                    ).take(i as int));
                }
                assert(pairs_of(tv).take(i as int) =~= pairs_of(tv));
                assert(flatten(pairs_of(tv)) =~= tv);
                Ok(pairs)
            },
            _ => Err(invalid_response()),
        }
    }
}

} // verus!
