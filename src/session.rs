use crate::packet::{all_tokens_fit, list_fits as list_fits_spec, tokens_fit, tokens_view, Packet, PacketModel, MAX_COUNT, MAX_TOKEN_LEN};
use crate::range::{fetch_limit, flatten, page_spec, pairs_view, range_page};
use crate::text::{copy_bytes, lemma_utf8_len, str_eq, string_from_utf8, utf8_bytes};
use vstd::prelude::*;
use vstd::string::StringExecFns;
use vstd::utf8::{decode_utf8, encode_utf8, valid_utf8};

verus! {

pub const MSG_OK: &'static str = "Ok.";
pub const MSG_NO_DB: &'static str = "no db selected";
pub const MSG_UNKNOWN: &'static str = "unknown command";
pub const MSG_LOCK: &'static str = "get lock failed";
pub const MSG_BAD_NAME: &'static str = "invalid database name";
pub const MSG_TOO_LARGE: &'static str = "response too large";
pub const MSG_TOO_MANY: &'static str = "too many keys";

/// Where a scan of the selected store starts, and in which direction it goes.
pub enum ScanStart {
    /// From the smallest key up.
    Start,
    /// From the largest key down.
    End,
    /// From the first key at or after this one, up.
    Forward(Vec<u8>),
    /// From the last key at or before this one, down.
    Backward(Vec<u8>),
}

/// What the session asks of the code that runs it. Each one but `Send` and
/// `Close` is answered by the event method named beside it.
pub enum Action {
    /// Send this response: the request is done.
    Send(Packet),
    /// Close the connection.
    Close,
    /// Open-or-reuse this database in the registry (`on_attached`).
    Attach(String),
    /// Take this name out of the registry (`on_detached`).
    Detach(String),
    /// List the registry's names (`on_listed`).
    ListDbs,
    /// Look up this key in the selected store (`on_got`).
    Get(Vec<u8>),
    /// Store this pair in the selected store (`on_stored`).
    Put(Vec<u8>, Vec<u8>),
    /// Delete this key from the selected store (`on_stored`).
    Remove(Vec<u8>),
    /// Pull at most this many pairs from the selected store (`on_scanned`).
    Scan(ScanStart, usize),
}

/// The request in progress.
pub enum Job {
    Idle,
    Attaching { name: String },
    Detaching,
    Listing,
    /// The values found so far, one for each key in order.
    Reading { keys: Vec<Vec<u8>>, values: Vec<Vec<u8>> },
    /// Pairs flattened key, value; `done` pairs are stored.
    Writing { tokens: Vec<Vec<u8>>, done: usize },
    /// `done` keys are deleted.
    Deleting { keys: Vec<Vec<u8>>, done: usize },
    Ranging { key: Vec<u8>, page_size: u16, exclusive: bool },
}

/// The state of one connection: the database it selected, with its handle,
/// and the request in progress.
pub struct Session<H> {
    pub selected: Option<(String, H)>,
    pub job: Job,
}

/// `a` sends a packet whose value is `m`.
pub open spec fn sends(a: Action, m: PacketModel) -> bool {
    a matches Action::Send(p) && p@ == m
}

/// `a` sends an error with message `msg`.
pub open spec fn sends_error(a: Action, msg: Seq<char>) -> bool {
    sends(a, PacketModel::RespError(msg))
}

/// Every packet that `a` sends can be framed.
pub open spec fn sends_framable(a: Action) -> bool {
    a matches Action::Send(p) ==> p@.wf()
}

/// The message of an error that the store or the registry reported, or a
/// stand-in where it is too long to frame.
pub open spec fn reported(msg: Seq<char>) -> Seq<char> {
    if encode_utf8(msg).len() <= MAX_TOKEN_LEN {
        msg
    } else {
        MSG_TOO_LARGE@
    }
}

/// A value as a read reports it: missing is the empty token.
pub open spec fn value_or_empty(v: Option<Vec<u8>>) -> Seq<u8> {
    match v {
        Some(b) => b@,
        None => Seq::empty(),
    }
}

/// The response that ends a scan: the page, or an error where a key or value
/// is too long to frame.
pub open spec fn page_response(page: Seq<Seq<u8>>) -> PacketModel {
    if tokens_fit(page) {
        PacketModel::RespPairs(page)
    } else {
        PacketModel::RespError(MSG_TOO_LARGE@)
    }
}

/// The response that ends a read: the values, or an error where one is too
/// long to frame.
pub open spec fn values_response(values: Seq<Seq<u8>>) -> PacketModel {
    if list_fits_spec(values) {
        PacketModel::RespTokens(values)
    } else {
        PacketModel::RespError(MSG_TOO_LARGE@)
    }
}

fn literal(s: &str) -> (r: String)
    requires
        s@.len() <= 64,
    ensures
        r@ == s@,
        encode_utf8(r@).len() <= MAX_TOKEN_LEN,
{
    proof {
        lemma_utf8_len(s@);
    }
    String::from_str(s)
}

fn ok_response() -> (r: Packet)
    ensures
        r@ == PacketModel::RespOk(MSG_OK@),
        r@.wf(),
{
    proof {
        reveal_strlit("Ok.");
    }
    Packet::RespOk(literal(MSG_OK))
}

fn error_response(msg: &str) -> (r: Packet)
    requires
        msg@.len() <= 64,
    ensures
        r@ == PacketModel::RespError(msg@),
        r@.wf(),
{
    Packet::RespError(literal(msg))
}

fn reported_error(msg: String) -> (r: Packet)
    ensures
        r@ == PacketModel::RespError(reported(msg@)),
        r@.wf(),
{
    proof {
        reveal_strlit("response too large");
    }
    if msg.as_str().as_bytes().len() <= MAX_TOKEN_LEN {
        Packet::RespError(msg)
    } else {
        error_response(MSG_TOO_LARGE)
    }
}

fn no_db() -> (r: Action)
    ensures
        sends_error(r, MSG_NO_DB@),
        sends_framable(r),
{
    proof {
        reveal_strlit("no db selected");
    }
    Action::Send(error_response(MSG_NO_DB))
}

impl<H> Session<H> {
    /// A new connection: nothing selected, nothing in progress.
    pub fn new() -> (r: Self)
        ensures
            r.selected is None,
            r.job is Idle,
    {
        Session { selected: None, job: Job::Idle }
    }

    /// Whether the selected database is named `name`.
    pub open spec fn selects(&self, name: Seq<char>) -> bool {
        self.selected matches Some(sel) && sel.0@ == name
    }

    /// A request arrives. Requests on data need a selected database; what
    /// needs the registry or the store is asked for through the action.
    pub fn on_request(&mut self, req: Packet) -> (a: Action)
        ensures
            sends_framable(a),
            match req@ {
                PacketModel::CmdUse(name) => if valid_utf8(name) {
                    &&& a matches Action::Attach(n) && n@ == decode_utf8(name)
                    &&& final(self).job matches Job::Attaching { name: n } && n@ == decode_utf8(
                        name,
                    )
                    &&& final(self).selected == old(self).selected
                } else {
                    &&& sends_error(a, MSG_BAD_NAME@)
                    &&& final(self).selected == old(self).selected
                },
                PacketModel::CmdDetach(name) => if valid_utf8(name) {
                    &&& a matches Action::Detach(n) && n@ == decode_utf8(name)
                    &&& final(self).job is Detaching
                    &&& if old(self).selects(decode_utf8(name)) {
                        final(self).selected is None
                    } else {
                        final(self).selected == old(self).selected
                    }
                } else {
                    &&& sends(a, PacketModel::RespOk(MSG_OK@))
                    &&& final(self).selected == old(self).selected
                },
                PacketModel::CmdListDb => {
                    &&& a is ListDbs
                    &&& final(self).job is Listing
                    &&& final(self).selected == old(self).selected
                },
                PacketModel::CmdCurrentDB => {
                    &&& final(self).selected == old(self).selected
                    &&& match old(self).selected {
                        Some(sel) => if encode_utf8(sel.0@).len() <= MAX_TOKEN_LEN {
                            sends(a, PacketModel::RespToken(encode_utf8(sel.0@)))
                        } else {
                            sends_error(a, MSG_TOO_LARGE@)
                        },
                        None => sends_error(a, MSG_NO_DB@),
                    }
                },
                PacketModel::CmdRead(keys) => {
                    &&& final(self).selected == old(self).selected
                    &&& if old(self).selected is None {
                        sends_error(a, MSG_NO_DB@)
                    } else if keys.len() > MAX_COUNT {
                        sends_error(a, MSG_TOO_MANY@)
                    } else if keys.len() == 0 {
                        sends(a, PacketModel::RespTokens(Seq::empty()))
                    } else {
                        &&& a matches Action::Get(k) && k@ == keys[0]
                        &&& final(self).job matches Job::Reading { keys: ks, values: vs }
                            && tokens_view(ks) == keys && vs@.len() == 0
                    }
                },
                PacketModel::CmdWrite(tokens) => {
                    &&& final(self).selected == old(self).selected
                    &&& if old(self).selected is None {
                        sends_error(a, MSG_NO_DB@)
                    } else if tokens.len() < 2 {
                        sends(a, PacketModel::RespOk(MSG_OK@))
                    } else {
                        &&& a matches Action::Put(k, v) && k@ == tokens[0] && v@ == tokens[1]
                        &&& final(self).job matches Job::Writing { tokens: ts, done }
                            && tokens_view(ts) == tokens && done == 0
                    }
                },
                PacketModel::CmdDelete(keys) => {
                    &&& final(self).selected == old(self).selected
                    &&& if old(self).selected is None {
                        sends_error(a, MSG_NO_DB@)
                    } else if keys.len() == 0 {
                        sends(a, PacketModel::RespOk(MSG_OK@))
                    } else {
                        &&& a matches Action::Remove(k) && k@ == keys[0]
                        &&& final(self).job matches Job::Deleting { keys: ks, done }
                            && tokens_view(ks) == keys && done == 0
                    }
                },
                PacketModel::CmdRangeBegin(n) => {
                    &&& final(self).selected == old(self).selected
                    &&& if old(self).selected is None {
                        sends_error(a, MSG_NO_DB@)
                    } else {
                        &&& a matches Action::Scan(ScanStart::Start, limit) && limit == n
                        &&& final(self).job matches Job::Ranging { key, page_size, exclusive }
                            && key@.len() == 0 && page_size == n && !exclusive
                    }
                },
                PacketModel::CmdRangeEnd(n) => {
                    &&& final(self).selected == old(self).selected
                    &&& if old(self).selected is None {
                        sends_error(a, MSG_NO_DB@)
                    } else {
                        &&& a matches Action::Scan(ScanStart::End, limit) && limit == n
                        &&& final(self).job matches Job::Ranging { key, page_size, exclusive }
                            && key@.len() == 0 && page_size == n && !exclusive
                    }
                },
                PacketModel::CmdRangeFromAsc(n, k) => {
                    &&& final(self).selected == old(self).selected
                    &&& if old(self).selected is None {
                        sends_error(a, MSG_NO_DB@)
                    } else {
                        &&& a matches Action::Scan(ScanStart::Forward(from), limit) && from@ == k
                            && limit == fetch_limit(n, false)
                        &&& final(self).job matches Job::Ranging { key, page_size, exclusive }
                            && key@ == k && page_size == n && !exclusive
                    }
                },
                PacketModel::CmdRangeFromAscEx(n, k) => {
                    &&& final(self).selected == old(self).selected
                    &&& if old(self).selected is None {
                        sends_error(a, MSG_NO_DB@)
                    } else {
                        &&& a matches Action::Scan(ScanStart::Forward(from), limit) && from@ == k
                            && limit == fetch_limit(n, true)
                        &&& final(self).job matches Job::Ranging { key, page_size, exclusive }
                            && key@ == k && page_size == n && exclusive
                    }
                },
                PacketModel::CmdRangeFromDesc(n, k) => {
                    &&& final(self).selected == old(self).selected
                    &&& if old(self).selected is None {
                        sends_error(a, MSG_NO_DB@)
                    } else {
                        &&& a matches Action::Scan(ScanStart::Backward(from), limit) && from@ == k
                            && limit == fetch_limit(n, false)
                        &&& final(self).job matches Job::Ranging { key, page_size, exclusive }
                            && key@ == k && page_size == n && !exclusive
                    }
                },
                PacketModel::CmdRangeFromDescEx(n, k) => {
                    &&& final(self).selected == old(self).selected
                    &&& if old(self).selected is None {
                        sends_error(a, MSG_NO_DB@)
                    } else {
                        &&& a matches Action::Scan(ScanStart::Backward(from), limit) && from@ == k
                            && limit == fetch_limit(n, true)
                        &&& final(self).job matches Job::Ranging { key, page_size, exclusive }
                            && key@ == k && page_size == n && exclusive
                    }
                },
                _ => {
                    &&& sends_error(a, MSG_UNKNOWN@)
                    &&& final(self).selected == old(self).selected
                },
            },
    {
        proof {
            reveal_strlit("Ok.");
            reveal_strlit("no db selected");
            reveal_strlit("unknown command");
            reveal_strlit("invalid database name");
            reveal_strlit("response too large");
            reveal_strlit("too many keys");
        }
        self.job = Job::Idle;
        match req {
            Packet::CmdUse(name) => match string_from_utf8(name) {
                Some(n) => {
                    self.job = Job::Attaching { name: n.clone() };
                    Action::Attach(n)
                },
                None => Action::Send(error_response(MSG_BAD_NAME)),
            },
            Packet::CmdDetach(name) => match string_from_utf8(name) {
                Some(n) => {
                    let clear = match &self.selected {
                        Some(sel) => str_eq(sel.0.as_str(), n.as_str()),
                        None => false,
                    };
                    if clear {
                        self.selected = None;
                    }
                    self.job = Job::Detaching;
                    Action::Detach(n)
                },
                None => Action::Send(ok_response()),
            },
            Packet::CmdListDb() => {
                self.job = Job::Listing;
                Action::ListDbs
            },
            Packet::CmdCurrentDB() => match &self.selected {
                Some(sel) => {
                    let b = utf8_bytes(sel.0.as_str());
                    if b.len() <= MAX_TOKEN_LEN {
                        Action::Send(Packet::RespToken(b))
                    } else {
                        Action::Send(error_response(MSG_TOO_LARGE))
                    }
                },
                None => no_db(),
            },
            Packet::CmdRead(keys) => {
                if self.selected.is_none() {
                    no_db()
                } else if keys.len() > MAX_COUNT {
                    Action::Send(error_response(MSG_TOO_MANY))
                } else if keys.len() == 0 {
                    let empty: Vec<Vec<u8>> = Vec::new();
                    assert(tokens_view(empty) =~= Seq::<Seq<u8>>::empty());
                    Action::Send(Packet::RespTokens(empty))
                } else {
                    let first = copy_bytes(keys[0].as_slice());
                    self.job = Job::Reading { keys, values: Vec::new() };
                    Action::Get(first)
                }
            },
            Packet::CmdWrite(tokens) => {
                if self.selected.is_none() {
                    no_db()
                } else if tokens.len() < 2 {
                    Action::Send(ok_response())
                } else {
                    let k = copy_bytes(tokens[0].as_slice());
                    let v = copy_bytes(tokens[1].as_slice());
                    self.job = Job::Writing { tokens, done: 0 };
                    Action::Put(k, v)
                }
            },
            Packet::CmdDelete(keys) => {
                if self.selected.is_none() {
                    no_db()
                } else if keys.len() == 0 {
                    Action::Send(ok_response())
                } else {
                    let first = copy_bytes(keys[0].as_slice());
                    self.job = Job::Deleting { keys, done: 0 };
                    Action::Remove(first)
                }
            },
            Packet::CmdRangeBegin(n) => {
                if self.selected.is_none() {
                    no_db()
                } else {
                    self.job = Job::Ranging { key: Vec::new(), page_size: n, exclusive: false };
                    Action::Scan(ScanStart::Start, n as usize)
                }
            },
            Packet::CmdRangeEnd(n) => {
                if self.selected.is_none() {
                    no_db()
                } else {
                    self.job = Job::Ranging { key: Vec::new(), page_size: n, exclusive: false };
                    Action::Scan(ScanStart::End, n as usize)
                }
            },
            Packet::CmdRangeFromAsc(n, k) => {
                if self.selected.is_none() {
                    no_db()
                } else {
                    let from = copy_bytes(k.as_slice());
                    self.job = Job::Ranging { key: k, page_size: n, exclusive: false };
                    Action::Scan(ScanStart::Forward(from), n as usize)
                }
            },
            Packet::CmdRangeFromAscEx(n, k) => {
                if self.selected.is_none() {
                    no_db()
                } else {
                    let from = copy_bytes(k.as_slice());
                    self.job = Job::Ranging { key: k, page_size: n, exclusive: true };
                    Action::Scan(ScanStart::Forward(from), n as usize + 1)
                }
            },
            Packet::CmdRangeFromDesc(n, k) => {
                if self.selected.is_none() {
                    no_db()
                } else {
                    let from = copy_bytes(k.as_slice());
                    self.job = Job::Ranging { key: k, page_size: n, exclusive: false };
                    Action::Scan(ScanStart::Backward(from), n as usize)
                }
            },
            Packet::CmdRangeFromDescEx(n, k) => {
                if self.selected.is_none() {
                    no_db()
                } else {
                    let from = copy_bytes(k.as_slice());
                    self.job = Job::Ranging { key: k, page_size: n, exclusive: true };
                    Action::Scan(ScanStart::Backward(from), n as usize + 1)
                }
            },
            _ => Action::Send(error_response(MSG_UNKNOWN)),
        }
    }

    /// The registry answered an `Attach`: with the handle of the database, or
    /// with why it could not be opened. On success the session selects it.
    pub fn on_attached(&mut self, r: Result<H, String>) -> (a: Action)
        ensures
            sends_framable(a),
            final(self).job is Idle,
            match old(self).job {
                Job::Attaching { name } => match r {
                    Ok(h) => {
                        &&& sends(a, PacketModel::RespOk(MSG_OK@))
                        &&& final(self).selected matches Some(sel) && sel.0@ == name@ && sel.1
                            == h
                    },
                    Err(msg) => {
                        &&& sends_error(a, reported(msg@))
                        &&& final(self).selected == old(self).selected
                    },
                },
                _ => a is Close && final(self).selected == old(self).selected,
            },
    {
        let mut job = Job::Idle;
        std::mem::swap(&mut job, &mut self.job);
        match job {
            Job::Attaching { name } => match r {
                Ok(h) => {
                    self.selected = Some((name, h));
                    Action::Send(ok_response())
                },
                Err(msg) => Action::Send(reported_error(msg)),
            },
            _ => Action::Close,
        }
    }

    /// The registry answered a `Detach`: `false` where it could not be locked.
    pub fn on_detached(&mut self, done: bool) -> (a: Action)
        ensures
            sends_framable(a),
            final(self).job is Idle,
            final(self).selected == old(self).selected,
            match old(self).job {
                Job::Detaching => if done {
                    sends(a, PacketModel::RespOk(MSG_OK@))
                } else {
                    sends_error(a, MSG_LOCK@)
                },
                _ => a is Close,
            },
    {
        proof {
            reveal_strlit("get lock failed");
        }
        let mut job = Job::Idle;
        std::mem::swap(&mut job, &mut self.job);
        match job {
            Job::Detaching => if done {
                Action::Send(ok_response())
            } else {
                Action::Send(error_response(MSG_LOCK))
            },
            _ => Action::Close,
        }
    }

    /// The registry answered `ListDbs` with the names attached (their bytes),
    /// or `None` where it could not be locked.
    pub fn on_listed(&mut self, names: Option<Vec<Vec<u8>>>) -> (a: Action)
        ensures
            sends_framable(a),
            final(self).job is Idle,
            final(self).selected == old(self).selected,
            match old(self).job {
                Job::Listing => match names {
                    Some(ns) => if list_fits_spec(tokens_view(ns)) {
                        sends(a, PacketModel::RespTokens(tokens_view(ns)))
                    } else {
                        sends_error(a, MSG_TOO_LARGE@)
                    },
                    None => sends_error(a, MSG_LOCK@),
                },
                _ => a is Close,
            },
    {
        proof {
            reveal_strlit("get lock failed");
            reveal_strlit("response too large");
        }
        let mut job = Job::Idle;
        std::mem::swap(&mut job, &mut self.job);
        match job {
            Job::Listing => match names {
                Some(ns) => if ns.len() <= MAX_COUNT && all_tokens_fit(&ns) {
                    Action::Send(Packet::RespTokens(ns))
                } else {
                    Action::Send(error_response(MSG_TOO_LARGE))
                },
                None => Action::Send(error_response(MSG_LOCK)),
            },
            _ => Action::Close,
        }
    }

    /// The store answered a `Get`: the value, `None` where the key is absent,
    /// or why it failed. The next key is asked for, in order, until every key
    /// has its value; the first failure ends the read.
    pub fn on_got(&mut self, r: Result<Option<Vec<u8>>, String>) -> (a: Action)
        ensures
            sends_framable(a),
            final(self).selected == old(self).selected,
            match old(self).job {
                Job::Reading { keys, values } => match r {
                    Ok(v) => {
                        let found = tokens_view(values).push(value_or_empty(v));
                        if found.len() < keys@.len() {
                            &&& a matches Action::Get(k) && k@ == tokens_view(keys)[found.len() as int]
                            &&& final(self).job matches Job::Reading { keys: ks, values: vs }
                                && ks == keys && tokens_view(vs) == found
                        } else {
                            &&& sends(a, values_response(found))
                            &&& final(self).job is Idle
                        }
                    },
                    Err(msg) => sends_error(a, reported(msg@)) && final(self).job is Idle,
                },
                _ => a is Close && final(self).job is Idle,
            },
    {
        proof {
            reveal_strlit("response too large");
        }
        let mut job = Job::Idle;
        std::mem::swap(&mut job, &mut self.job);
        match job {
            Job::Reading { keys, values } => match r {
                Ok(v) => {
                    let mut values = values;
                    let ghost before = tokens_view(values);
                    let got = match v {
                        Some(b) => b,
                        None => Vec::new(),
                    };
                    values.push(got);
                    assert(tokens_view(values) =~= before.push(value_or_empty(v)));
                    if values.len() < keys.len() {
                        let next = copy_bytes(keys[values.len()].as_slice());
                        self.job = Job::Reading { keys, values };
                        Action::Get(next)
                    } else if values.len() <= MAX_COUNT && all_tokens_fit(&values) {
                        Action::Send(Packet::RespTokens(values))
                    } else {
                        Action::Send(error_response(MSG_TOO_LARGE))
                    }
                },
                Err(msg) => Action::Send(reported_error(msg)),
            },
            _ => Action::Close,
        }
    }

    /// The store answered a `Put` or a `Remove`. The next pair is stored, or
    /// the next key deleted, in order; the first failure ends the request.
    /// A last key without a value is left alone.
    pub fn on_stored(&mut self, r: Result<(), String>) -> (a: Action)
        ensures
            sends_framable(a),
            final(self).selected == old(self).selected,
            match old(self).job {
                Job::Writing { tokens, done } => match r {
                    Ok(_) => if done + 1 < tokens@.len() / 2 {
                        &&& a matches Action::Put(k, v) && k@ == tokens_view(tokens)[2 * (done
                            + 1)] && v@ == tokens_view(tokens)[2 * (done + 1) + 1]
                        &&& final(self).job matches Job::Writing { tokens: ts, done: d }
                            && ts == tokens && d == done + 1
                    } else {
                        sends(a, PacketModel::RespOk(MSG_OK@)) && final(self).job is Idle
                    },
                    Err(msg) => sends_error(a, reported(msg@)) && final(self).job is Idle,
                },
                Job::Deleting { keys, done } => match r {
                    Ok(_) => if done + 1 < keys@.len() {
                        &&& a matches Action::Remove(k) && k@ == tokens_view(keys)[done + 1]
                        &&& final(self).job matches Job::Deleting { keys: ks, done: d }
                            && ks == keys && d == done + 1
                    } else {
                        sends(a, PacketModel::RespOk(MSG_OK@)) && final(self).job is Idle
                    },
                    Err(msg) => sends_error(a, reported(msg@)) && final(self).job is Idle,
                },
                _ => a is Close && final(self).job is Idle,
            },
    {
        let mut job = Job::Idle;
        std::mem::swap(&mut job, &mut self.job);
        match job {
            Job::Writing { tokens, done } => match r {
                Ok(_) => {
                    if done < tokens.len() / 2 && done + 1 < tokens.len() / 2 {
                        let k = copy_bytes(tokens[2 * (done + 1)].as_slice());
                        let v = copy_bytes(tokens[2 * (done + 1) + 1].as_slice());
                        self.job = Job::Writing { tokens, done: done + 1 };
                        Action::Put(k, v)
                    } else {
                        Action::Send(ok_response())
                    }
                },
                Err(msg) => Action::Send(reported_error(msg)),
            },
            Job::Deleting { keys, done } => match r {
                Ok(_) => {
                    if done < keys.len() && done + 1 < keys.len() {
                        let k = copy_bytes(keys[done + 1].as_slice());
                        self.job = Job::Deleting { keys, done: done + 1 };
                        Action::Remove(k)
                    } else {
                        Action::Send(ok_response())
                    }
                },
                Err(msg) => Action::Send(reported_error(msg)),
            },
            _ => Action::Close,
        }
    }

    /// The store answered a `Scan` with the pairs pulled, in the scan's
    /// direction, or with why it failed. The response is the page of them
    /// (see [`page_spec`]).
    pub fn on_scanned(&mut self, r: Result<Vec<(Vec<u8>, Vec<u8>)>, String>) -> (a: Action)
        ensures
            sends_framable(a),
            final(self).job is Idle,
            final(self).selected == old(self).selected,
            match old(self).job {
                Job::Ranging { key, page_size, exclusive } => match r {
                    Ok(items) => sends(
                        a,
                        page_response(
                            flatten(page_spec(pairs_view(items), key@, page_size, exclusive)),
                        ),
                    ),
                    Err(msg) => sends_error(a, reported(msg@)),
                },
                _ => a is Close,
            },
    {
        proof {
            reveal_strlit("response too large");
        }
        let mut job = Job::Idle;
        std::mem::swap(&mut job, &mut self.job);
        match job {
            Job::Ranging { key, page_size, exclusive } => match r {
                Ok(items) => {
                    let tokens = range_page(&items, key.as_slice(), page_size, exclusive);
                    let ghost page = page_spec(pairs_view(items), key@, page_size, exclusive);
                    assert(page.len() <= page_size);
                    if all_tokens_fit(&tokens) {
                        Action::Send(Packet::RespPairs(tokens))
                    } else {
                        Action::Send(error_response(MSG_TOO_LARGE))
                    }
                },
                Err(msg) => Action::Send(reported_error(msg)),
            },
            _ => Action::Close,
        }
    }
}

} // verus!
