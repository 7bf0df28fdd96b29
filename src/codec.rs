use crate::bigendian::{
    be16, be16_bytes, be16_value, be32, be32_bytes, be32_value, lemma_be16_round_trip,
    lemma_be16_value_bytes, lemma_be32_round_trip, lemma_be32_value_bytes, read_be16_at,
    read_be32_at,
};
use crate::packet::{
    list_fits, token_fits, tokens_fit, tokens_view, Packet, PacketError, PacketModel, CMD_CURRENT_DB, CMD_DELETE,
    CMD_DETACH, CMD_LIST_DB, CMD_RANGE_BEGIN, CMD_RANGE_END, CMD_RANGE_FROM_ASC,
    CMD_RANGE_FROM_ASC_EX, CMD_RANGE_FROM_DESC, CMD_RANGE_FROM_DESC_EX, CMD_READ, CMD_USE,
    CMD_WRITE, RESP_ERROR, RESP_OK, RESP_PAIRS, RESP_TOKEN, RESP_TOKENS,
};
use vstd::prelude::*;
use crate::text::string_from_utf8;
use vstd::utf8::{decode_utf8, encode_utf8, valid_utf8};

verus! {

broadcast use vstd::utf8::group_utf8_lib;

// ---------------------------------------------------------------- encoding

/// A token on the wire: its length in four bytes, then its bytes.
pub open spec fn token_bytes(t: Seq<u8>) -> Seq<u8> {
    be32(t.len() as u32) + t
}

/// A list of tokens on the wire, one after the other.
pub open spec fn tokens_bytes(ts: Seq<Seq<u8>>) -> Seq<u8>
    decreases ts.len(),
{
    if ts.len() == 0 {
        seq![]
    } else {
        tokens_bytes(ts.drop_last()) + token_bytes(ts.last())
    }
}

/// The frame of a packet: its tag, then its payload.
pub open spec fn encode_spec(m: PacketModel) -> Seq<u8> {
    match m {
        PacketModel::CmdWrite(ts) => seq![CMD_WRITE] + be16((ts.len() / 2) as u16) + tokens_bytes(
            ts,
        ),
        PacketModel::CmdRead(ts) => seq![CMD_READ] + be16(ts.len() as u16) + tokens_bytes(ts),
        PacketModel::CmdDelete(ts) => seq![CMD_DELETE] + be16(ts.len() as u16) + tokens_bytes(ts),
        PacketModel::CmdUse(t) => seq![CMD_USE] + token_bytes(t),
        PacketModel::CmdCurrentDB => seq![CMD_CURRENT_DB],
        PacketModel::CmdListDb => seq![CMD_LIST_DB],
        PacketModel::CmdDetach(t) => seq![CMD_DETACH] + token_bytes(t),
        PacketModel::CmdRangeBegin(n) => seq![CMD_RANGE_BEGIN] + be16(n),
        PacketModel::CmdRangeEnd(n) => seq![CMD_RANGE_END] + be16(n),
        PacketModel::CmdRangeFromAsc(n, t) => seq![CMD_RANGE_FROM_ASC] + be16(n) + token_bytes(t),
        PacketModel::CmdRangeFromAscEx(n, t) => seq![CMD_RANGE_FROM_ASC_EX] + be16(n)
            + token_bytes(t),
        PacketModel::CmdRangeFromDesc(n, t) => seq![CMD_RANGE_FROM_DESC] + be16(n) + token_bytes(
            t,
        ),
        PacketModel::CmdRangeFromDescEx(n, t) => seq![CMD_RANGE_FROM_DESC_EX] + be16(n)
            + token_bytes(t),
        PacketModel::RespOk(s) => seq![RESP_OK] + token_bytes(encode_utf8(s)),
        PacketModel::RespError(s) => seq![RESP_ERROR] + token_bytes(encode_utf8(s)),
        PacketModel::RespToken(t) => seq![RESP_TOKEN] + token_bytes(t),
        PacketModel::RespTokens(ts) => seq![RESP_TOKENS] + be16(ts.len() as u16) + tokens_bytes(
            ts,
        ),
        PacketModel::RespPairs(ts) => seq![RESP_PAIRS] + be16((ts.len() / 2) as u16)
            + tokens_bytes(ts),
    }
}

// ---------------------------------------------------------------- decoding

/// A two-byte count at `p`, and where it ends.
pub open spec fn parse_u16(s: Seq<u8>, p: int) -> Option<(u16, int)> {
    if 0 <= p && p + 2 <= s.len() {
        Some((be16_value(s[p], s[p + 1]), p + 2))
    } else {
        None
    }
}

/// A token at `p`, and where it ends.
pub open spec fn parse_token(s: Seq<u8>, p: int) -> Option<(Seq<u8>, int)> {
    if 0 <= p && p + 4 <= s.len() {
        let n = be32_value(s[p], s[p + 1], s[p + 2], s[p + 3]) as int;
        if p + 4 + n <= s.len() {
            Some((s.subrange(p + 4, p + 4 + n), p + 4 + n))
        } else {
            None
        }
    } else {
        None
    }
}

/// `k` tokens one after the other from `p`, and where the last ends.
pub open spec fn parse_tokens(s: Seq<u8>, p: int, k: nat) -> Option<(Seq<Seq<u8>>, int)>
    decreases k,
{
    if k == 0 {
        Some((seq![], p))
    } else {
        match parse_tokens(s, p, (k - 1) as nat) {
            Some((ts, q)) => match parse_token(s, q) {
                Some((t, e)) => Some((ts.push(t), e)),
                None => None,
            },
            None => None,
        }
    }
}

/// A count at `p`, then `per` tokens for each unit it counts.
pub open spec fn parse_counted(s: Seq<u8>, p: int, per: nat) -> Option<(Seq<Seq<u8>>, int)> {
    match parse_u16(s, p) {
        Some((c, q)) => parse_tokens(s, q, per * c as nat),
        None => None,
    }
}

/// The tags of packets whose payload is a count and a list of tokens.
pub open spec fn is_list_tag(tag: u8) -> bool {
    tag == CMD_WRITE || tag == CMD_READ || tag == CMD_DELETE || tag == RESP_TOKENS || tag
        == RESP_PAIRS
}

/// The tags of packets whose payload is one token.
pub open spec fn is_token_tag(tag: u8) -> bool {
    tag == CMD_USE || tag == CMD_DETACH || tag == RESP_TOKEN || tag == RESP_OK || tag == RESP_ERROR
}

/// The tags of packets whose payload is a page size.
pub open spec fn is_page_tag(tag: u8) -> bool {
    tag == CMD_RANGE_BEGIN || tag == CMD_RANGE_END
}

/// The tags of packets whose payload is a page size and a key token.
pub open spec fn is_keyed_tag(tag: u8) -> bool {
    tag == CMD_RANGE_FROM_ASC || tag == CMD_RANGE_FROM_ASC_EX || tag == CMD_RANGE_FROM_DESC || tag
        == CMD_RANGE_FROM_DESC_EX
}

/// The tags of packets without payload.
pub open spec fn is_bare_tag(tag: u8) -> bool {
    tag == CMD_CURRENT_DB || tag == CMD_LIST_DB
}

/// Tokens per counted unit: two for the pair lists, one otherwise.
pub open spec fn per_unit(tag: u8) -> nat {
    if tag == CMD_WRITE || tag == RESP_PAIRS {
        2
    } else {
        1
    }
}

pub open spec fn list_packet(tag: u8, ts: Seq<Seq<u8>>) -> PacketModel {
    if tag == CMD_WRITE {
        PacketModel::CmdWrite(ts)
    } else if tag == CMD_READ {
        PacketModel::CmdRead(ts)
    } else if tag == CMD_DELETE {
        PacketModel::CmdDelete(ts)
    } else if tag == RESP_TOKENS {
        PacketModel::RespTokens(ts)
    } else {
        PacketModel::RespPairs(ts)
    }
}

/// The packet of a one-token tag; message tokens must be UTF-8.
pub open spec fn token_packet(tag: u8, t: Seq<u8>) -> Result<PacketModel, PacketError> {
    if tag == RESP_OK || tag == RESP_ERROR {
        if !valid_utf8(t) {
            Err(PacketError::TextEncoding)
        } else if tag == RESP_OK {
            Ok(PacketModel::RespOk(decode_utf8(t)))
        } else {
            Ok(PacketModel::RespError(decode_utf8(t)))
        }
    } else if tag == CMD_USE {
        Ok(PacketModel::CmdUse(t))
    } else if tag == CMD_DETACH {
        Ok(PacketModel::CmdDetach(t))
    } else {
        Ok(PacketModel::RespToken(t))
    }
}

pub open spec fn page_packet(tag: u8, n: u16) -> PacketModel {
    if tag == CMD_RANGE_BEGIN {
        PacketModel::CmdRangeBegin(n)
    } else {
        PacketModel::CmdRangeEnd(n)
    }
}

pub open spec fn keyed_packet(tag: u8, n: u16, t: Seq<u8>) -> PacketModel {
    if tag == CMD_RANGE_FROM_ASC {
        PacketModel::CmdRangeFromAsc(n, t)
    } else if tag == CMD_RANGE_FROM_ASC_EX {
        PacketModel::CmdRangeFromAscEx(n, t)
    } else if tag == CMD_RANGE_FROM_DESC {
        PacketModel::CmdRangeFromDesc(n, t)
    } else {
        PacketModel::CmdRangeFromDescEx(n, t)
    }
}

pub open spec fn bare_packet(tag: u8) -> PacketModel {
    if tag == CMD_CURRENT_DB {
        PacketModel::CmdCurrentDB
    } else {
        PacketModel::CmdListDb
    }
}

/// What reading one frame at `p` of `s` gives: the packet and where its frame
/// ends, or why no frame can be read there.
pub open spec fn parse_at(s: Seq<u8>, p: int) -> Result<(PacketModel, int), PacketError> {
    if p < 0 || p >= s.len() {
        Err(PacketError::UnexpectedEof)
    } else {
        let tag = s[p];
        let q = p + 1;
        if is_list_tag(tag) {
            match parse_counted(s, q, per_unit(tag)) {
                Some((ts, e)) => Ok((list_packet(tag, ts), e)),
                None => Err(PacketError::UnexpectedEof),
            }
        } else if is_token_tag(tag) {
            match parse_token(s, q) {
                Some((t, e)) => match token_packet(tag, t) {
                    Ok(m) => Ok((m, e)),
                    Err(err) => Err(err),
                },
                None => Err(PacketError::UnexpectedEof),
            }
        } else if is_bare_tag(tag) {
            Ok((bare_packet(tag), q))
        } else if is_page_tag(tag) {
            match parse_u16(s, q) {
                Some((n, e)) => Ok((page_packet(tag, n), e)),
                None => Err(PacketError::UnexpectedEof),
            }
        } else if is_keyed_tag(tag) {
            match parse_u16(s, q) {
                Some((n, q2)) => match parse_token(s, q2) {
                    Some((t, e)) => Ok((keyed_packet(tag, n, t), e)),
                    None => Err(PacketError::UnexpectedEof),
                },
                None => Err(PacketError::UnexpectedEof),
            }
        } else {
            Err(PacketError::MalformedProtocol(tag))
        }
    }
}

// ---------------------------------------------------------------- lemmas

proof fn lemma_parse_u16(s: Seq<u8>, p: int, n: u16)
    requires
        0 <= p,
        p + 2 <= s.len(),
        s.subrange(p, p + 2) == be16(n),
    ensures
        parse_u16(s, p) == Some((n, p + 2)),
{
    assert(s[p] == s.subrange(p, p + 2)[0]);
    assert(s[p + 1] == s.subrange(p, p + 2)[1]);
    lemma_be16_round_trip(n);
}

proof fn lemma_parse_token(s: Seq<u8>, p: int, t: Seq<u8>)
    requires
        token_fits(t),
        0 <= p,
        p + token_bytes(t).len() <= s.len(),
        s.subrange(p, p + token_bytes(t).len()) == token_bytes(t),
    ensures
        parse_token(s, p) == Some((t, p + token_bytes(t).len())),
{
    let tb = token_bytes(t);
    let n = t.len() as u32;
    assert(s[p] == tb[0] && s[p + 1] == tb[1] && s[p + 2] == tb[2] && s[p + 3] == tb[3]);
    lemma_be32_round_trip(n);
    assert(s.subrange(p + 4, p + 4 + t.len()) =~= tb.subrange(4, tb.len() as int));
    assert(tb.subrange(4, tb.len() as int) =~= t);
}

proof fn lemma_tokens_bytes_take(ts: Seq<Seq<u8>>, i: int)
    requires
        0 <= i < ts.len(),
    ensures
        tokens_bytes(ts.take(i + 1)) == tokens_bytes(ts.take(i)) + token_bytes(ts[i]),
{
    assert(ts.take(i + 1).drop_last() =~= ts.take(i));
}

proof fn lemma_parse_tokens(s: Seq<u8>, p: int, ts: Seq<Seq<u8>>)
    requires
        tokens_fit(ts),
        0 <= p,
        p + tokens_bytes(ts).len() <= s.len(),
        s.subrange(p, p + tokens_bytes(ts).len()) == tokens_bytes(ts),
    ensures
        parse_tokens(s, p, ts.len()) == Some((ts, p + tokens_bytes(ts).len())),
    decreases ts.len(),
{
    if ts.len() > 0 {
        let init = ts.drop_last();
        let a = tokens_bytes(init);
        let b = token_bytes(ts.last());
        assert(tokens_fit(init)) by {
            assert forall|i: int| 0 <= i < init.len() implies #[trigger] token_fits(init[i]) by {
                assert(token_fits(ts[i]));
            }
        }
        assert(token_fits(ts[ts.len() - 1]));
        lemma_split(s, p, a, b);
        lemma_parse_tokens(s, p, init);
        lemma_parse_token(s, p + a.len(), ts.last());
        assert(init.push(ts.last()) =~= ts);
    }
}

proof fn lemma_split(s: Seq<u8>, p: int, a: Seq<u8>, b: Seq<u8>)
    requires
        0 <= p,
        p + a.len() + b.len() <= s.len(),
        s.subrange(p, p + a.len() + b.len()) == a + b,
    ensures
        s.subrange(p, p + a.len()) == a,
        s.subrange(p + a.len(), p + a.len() + b.len()) == b,
{
    assert(s.subrange(p, p + a.len()) =~= (a + b).subrange(0, a.len() as int));
    assert((a + b).subrange(0, a.len() as int) =~= a);
    assert(s.subrange(p + a.len(), p + a.len() + b.len()) =~= (a + b).subrange(
        a.len() as int,
        (a.len() + b.len()) as int,
    ));
    assert((a + b).subrange(a.len() as int, (a.len() + b.len()) as int) =~= b);
}

proof fn lemma_parse_counted(s: Seq<u8>, p: int, per: nat, c: u16, ts: Seq<Seq<u8>>)
    requires
        tokens_fit(ts),
        ts.len() == per * c,
        0 <= p,
        p + 2 + tokens_bytes(ts).len() <= s.len(),
        s.subrange(p, p + 2 + tokens_bytes(ts).len()) == be16(c) + tokens_bytes(ts),
    ensures
        parse_counted(s, p, per) == Some((ts, p + 2 + tokens_bytes(ts).len())),
{
    lemma_split(s, p, be16(c), tokens_bytes(ts));
    lemma_parse_u16(s, p, c);
    lemma_parse_tokens(s, p + 2, ts);
}

proof fn lemma_parse_keyed(s: Seq<u8>, p: int, n: u16, t: Seq<u8>)
    requires
        token_fits(t),
        0 <= p,
        p + 2 + token_bytes(t).len() <= s.len(),
        s.subrange(p, p + 2 + token_bytes(t).len()) == be16(n) + token_bytes(t),
    ensures
        parse_u16(s, p) == Some((n, p + 2)),
        parse_token(s, p + 2) == Some((t, p + 2 + token_bytes(t).len())),
{
    lemma_split(s, p, be16(n), token_bytes(t));
    lemma_parse_u16(s, p, n);
    lemma_parse_token(s, p + 2, t);
}

proof fn lemma_parse_encoded_list(s: Seq<u8>, p: int, m: PacketModel, ts: Seq<Seq<u8>>, c: u16)
    requires
        m.wf(),
        0 <= p,
        p + encode_spec(m).len() <= s.len(),
        s.subrange(p, p + encode_spec(m).len()) == encode_spec(m),
        is_list_tag(encode_spec(m)[0]),
        list_packet(encode_spec(m)[0], ts) == m,
        tokens_fit(ts),
        ts.len() == per_unit(encode_spec(m)[0]) * c,
        encode_spec(m) == seq![encode_spec(m)[0]] + be16(c) + tokens_bytes(ts),
    ensures
        parse_at(s, p) == Ok::<(PacketModel, int), PacketError>((m, p + encode_spec(m).len())),
{
    let e = encode_spec(m);
    assert(e =~= seq![e[0]] + (be16(c) + tokens_bytes(ts)));
    lemma_split(s, p, seq![e[0]], be16(c) + tokens_bytes(ts));
    lemma_parse_counted(s, p + 1, per_unit(e[0]), c, ts);
}

proof fn lemma_parse_encoded_token(s: Seq<u8>, p: int, m: PacketModel, t: Seq<u8>)
    requires
        0 <= p,
        p + encode_spec(m).len() <= s.len(),
        s.subrange(p, p + encode_spec(m).len()) == encode_spec(m),
        is_token_tag(encode_spec(m)[0]),
        token_packet(encode_spec(m)[0], t) == Ok::<PacketModel, PacketError>(m),
        token_fits(t),
        encode_spec(m) == seq![encode_spec(m)[0]] + token_bytes(t),
    ensures
        parse_at(s, p) == Ok::<(PacketModel, int), PacketError>((m, p + encode_spec(m).len())),
{
    let e = encode_spec(m);
    lemma_split(s, p, seq![e[0]], token_bytes(t));
    lemma_parse_token(s, p + 1, t);
}

proof fn lemma_parse_encoded_keyed(s: Seq<u8>, p: int, m: PacketModel, n: u16, t: Seq<u8>)
    requires
        0 <= p,
        p + encode_spec(m).len() <= s.len(),
        s.subrange(p, p + encode_spec(m).len()) == encode_spec(m),
        is_keyed_tag(encode_spec(m)[0]),
        keyed_packet(encode_spec(m)[0], n, t) == m,
        token_fits(t),
        encode_spec(m) == seq![encode_spec(m)[0]] + (be16(n) + token_bytes(t)),
    ensures
        parse_at(s, p) == Ok::<(PacketModel, int), PacketError>((m, p + encode_spec(m).len())),
{
    let e = encode_spec(m);
    lemma_split(s, p, seq![e[0]], be16(n) + token_bytes(t));
    lemma_parse_keyed(s, p + 1, n, t);
}

proof fn lemma_parse_encoded_page(s: Seq<u8>, p: int, m: PacketModel, n: u16)
    requires
        0 <= p,
        p + encode_spec(m).len() <= s.len(),
        s.subrange(p, p + encode_spec(m).len()) == encode_spec(m),
        is_page_tag(encode_spec(m)[0]),
        page_packet(encode_spec(m)[0], n) == m,
        encode_spec(m) == seq![encode_spec(m)[0]] + be16(n),
    ensures
        parse_at(s, p) == Ok::<(PacketModel, int), PacketError>((m, p + encode_spec(m).len())),
{
    let e = encode_spec(m);
    lemma_split(s, p, seq![e[0]], be16(n));
    lemma_parse_u16(s, p + 1, n);
}

/// Reading the frame of a well-formed packet, wherever it stands in a byte
/// stream, gives back that packet and ends exactly where its frame ends.
pub proof fn lemma_parse_encoded(s: Seq<u8>, p: int, m: PacketModel)
    requires
        m.wf(),
        0 <= p,
        p + encode_spec(m).len() <= s.len(),
        s.subrange(p, p + encode_spec(m).len()) == encode_spec(m),
    ensures
        parse_at(s, p) == Ok::<(PacketModel, int), PacketError>((m, p + encode_spec(m).len())),
{
    let e = encode_spec(m);
    assert(s[p] == s.subrange(p, p + e.len())[0]);
    match m {
        PacketModel::CmdWrite(ts) => {
            assert(e =~= seq![e[0]] + be16((ts.len() / 2) as u16) + tokens_bytes(ts));
            lemma_parse_encoded_list(s, p, m, ts, (ts.len() / 2) as u16);
        },
        PacketModel::RespPairs(ts) => {
            assert(e =~= seq![e[0]] + be16((ts.len() / 2) as u16) + tokens_bytes(ts));
            lemma_parse_encoded_list(s, p, m, ts, (ts.len() / 2) as u16);
        },
        PacketModel::CmdRead(ts) => {
            assert(e =~= seq![e[0]] + be16(ts.len() as u16) + tokens_bytes(ts));
            lemma_parse_encoded_list(s, p, m, ts, ts.len() as u16);
        },
        PacketModel::CmdDelete(ts) => {
            assert(e =~= seq![e[0]] + be16(ts.len() as u16) + tokens_bytes(ts));
            lemma_parse_encoded_list(s, p, m, ts, ts.len() as u16);
        },
        PacketModel::RespTokens(ts) => {
            assert(e =~= seq![e[0]] + be16(ts.len() as u16) + tokens_bytes(ts));
            lemma_parse_encoded_list(s, p, m, ts, ts.len() as u16);
        },
        PacketModel::CmdUse(t) => {
            lemma_parse_encoded_token(s, p, m, t);
        },
        PacketModel::CmdDetach(t) => {
            lemma_parse_encoded_token(s, p, m, t);
        },
        PacketModel::RespToken(t) => {
            lemma_parse_encoded_token(s, p, m, t);
        },
        PacketModel::RespOk(msg) => {
            lemma_parse_encoded_token(s, p, m, encode_utf8(msg));
        },
        PacketModel::RespError(msg) => {
            lemma_parse_encoded_token(s, p, m, encode_utf8(msg));
        },
        PacketModel::CmdRangeBegin(n) => {
            lemma_parse_encoded_page(s, p, m, n);
        },
        PacketModel::CmdRangeEnd(n) => {
            lemma_parse_encoded_page(s, p, m, n);
        },
        PacketModel::CmdRangeFromAsc(n, t) => {
            assert(e =~= seq![e[0]] + (be16(n) + token_bytes(t)));
            lemma_parse_encoded_keyed(s, p, m, n, t);
        },
        PacketModel::CmdRangeFromAscEx(n, t) => {
            assert(e =~= seq![e[0]] + (be16(n) + token_bytes(t)));
            lemma_parse_encoded_keyed(s, p, m, n, t);
        },
        PacketModel::CmdRangeFromDesc(n, t) => {
            assert(e =~= seq![e[0]] + (be16(n) + token_bytes(t)));
            lemma_parse_encoded_keyed(s, p, m, n, t);
        },
        PacketModel::CmdRangeFromDescEx(n, t) => {
            assert(e =~= seq![e[0]] + (be16(n) + token_bytes(t)));
            lemma_parse_encoded_keyed(s, p, m, n, t);
        },
        PacketModel::CmdCurrentDB => {},
        PacketModel::CmdListDb => {},
    }
}

proof fn lemma_join(s: Seq<u8>, p: int, q: int, e: int, a: Seq<u8>, b: Seq<u8>)
    requires
        0 <= p <= q <= e <= s.len(),
        s.subrange(p, q) == a,
        s.subrange(q, e) == b,
    ensures
        s.subrange(p, e) == a + b,
{
    assert(s.subrange(p, e) =~= s.subrange(p, q) + s.subrange(q, e));
}

proof fn lemma_u16_sound(s: Seq<u8>, p: int)
    requires
        parse_u16(s, p) is Some,
    ensures
        ({
            let (n, e) = parse_u16(s, p)->Some_0;
            &&& 0 <= p && e == p + 2 && e <= s.len()
            &&& s.subrange(p, e) == be16(n)
        }),
{
    lemma_be16_value_bytes(s[p], s[p + 1]);
    assert(s.subrange(p, p + 2) =~= seq![s[p], s[p + 1]]);
}

proof fn lemma_token_sound(s: Seq<u8>, p: int)
    requires
        parse_token(s, p) is Some,
    ensures
        ({
            let (t, e) = parse_token(s, p)->Some_0;
            &&& 0 <= p && e == p + token_bytes(t).len() && e <= s.len()
            &&& token_fits(t)
            &&& s.subrange(p, e) == token_bytes(t)
        }),
{
    let (t, e) = parse_token(s, p)->Some_0;
    lemma_be32_value_bytes(s[p], s[p + 1], s[p + 2], s[p + 3]);
    assert(s.subrange(p, p + 4) =~= seq![s[p], s[p + 1], s[p + 2], s[p + 3]]);
    lemma_join(s, p, p + 4, e, be32(t.len() as u32), t);
}

proof fn lemma_tokens_sound(s: Seq<u8>, p: int, k: nat)
    requires
        0 <= p <= s.len(),
        parse_tokens(s, p, k) is Some,
    ensures
        ({
            let (ts, e) = parse_tokens(s, p, k)->Some_0;
            &&& ts.len() == k && p <= e <= s.len()
            &&& tokens_fit(ts)
            &&& s.subrange(p, e) == tokens_bytes(ts)
        }),
    decreases k,
{
    if k == 0 {
        assert(s.subrange(p, p) =~= Seq::<u8>::empty());
    } else {
        lemma_tokens_sound(s, p, (k - 1) as nat);
        let (ts, q) = parse_tokens(s, p, (k - 1) as nat)->Some_0;
        lemma_token_sound(s, q);
        let (t, e) = parse_token(s, q)->Some_0;
        let all = ts.push(t);
        assert(all.drop_last() =~= ts);
        lemma_join(s, p, q, e, tokens_bytes(ts), token_bytes(t));
        assert(tokens_fit(all)) by {
            assert forall|i: int| 0 <= i < all.len() implies #[trigger] token_fits(all[i]) by {
                if i < ts.len() {
                    assert(token_fits(ts[i]));
                }
            }
        }
    }
}

proof fn lemma_counted_sound(s: Seq<u8>, p: int, per: nat)
    requires
        parse_counted(s, p, per) is Some,
    ensures
        ({
            let (ts, e) = parse_counted(s, p, per)->Some_0;
            let c = parse_u16(s, p)->Some_0.0;
            &&& ts.len() == per * c && 0 <= p && p + 2 <= e <= s.len()
            &&& tokens_fit(ts)
            &&& s.subrange(p, e) == be16(c) + tokens_bytes(ts)
        }),
{
    lemma_u16_sound(s, p);
    let (c, q) = parse_u16(s, p)->Some_0;
    lemma_tokens_sound(s, q, per * c as nat);
    let (ts, e) = parse_counted(s, p, per)->Some_0;
    lemma_join(s, p, q, e, be16(c), tokens_bytes(ts));
}

/// What a frame is read as is a well-formed packet, and the bytes read are
/// exactly that packet's frame.
pub proof fn lemma_parse_sound(s: Seq<u8>, p: int)
    requires
        parse_at(s, p) is Ok,
    ensures
        ({
            let (m, e) = parse_at(s, p)->Ok_0;
            &&& m.wf()
            &&& 0 <= p < e <= s.len()
            &&& s.subrange(p, e) == encode_spec(m)
        }),
{
    let (m, e) = parse_at(s, p)->Ok_0;
    let tag = s[p];
    let q = p + 1;
    assert(s.subrange(p, q) =~= seq![tag]);
    if is_list_tag(tag) {
        lemma_counted_sound(s, q, per_unit(tag));
        let (ts, _) = parse_counted(s, q, per_unit(tag))->Some_0;
        let c = parse_u16(s, q)->Some_0.0;
        lemma_join(s, p, q, e, seq![tag], be16(c) + tokens_bytes(ts));
        assert(seq![tag] + (be16(c) + tokens_bytes(ts)) =~= seq![tag] + be16(c) + tokens_bytes(ts));
        if tag == CMD_WRITE || tag == RESP_PAIRS {
            assert(ts.len() / 2 == c);
        }
    } else if is_token_tag(tag) {
        lemma_token_sound(s, q);
        let (t, _) = parse_token(s, q)->Some_0;
        lemma_join(s, p, q, e, seq![tag], token_bytes(t));
        if tag == RESP_OK || tag == RESP_ERROR {
            assert(encode_utf8(decode_utf8(t)) == t);
        }
    } else if is_bare_tag(tag) {
    } else if is_page_tag(tag) {
        lemma_u16_sound(s, q);
        let (n, _) = parse_u16(s, q)->Some_0;
        lemma_join(s, p, q, e, seq![tag], be16(n));
    } else {
        lemma_u16_sound(s, q);
        let (n, q2) = parse_u16(s, q)->Some_0;
        lemma_token_sound(s, q2);
        let (t, _) = parse_token(s, q2)->Some_0;
        lemma_join(s, q, q2, e, be16(n), token_bytes(t));
        lemma_join(s, p, q, e, seq![tag], be16(n) + token_bytes(t));
        assert(seq![tag] + (be16(n) + token_bytes(t)) =~= seq![tag] + be16(n) + token_bytes(t));
    }
}

// ---------------------------------------------------------------- laws

/// Decoding the frame of any well-formed packet gives that packet back, and
/// consumes exactly its frame, whatever bytes follow it.
pub proof fn lemma_decode_encode(m: PacketModel, rest: Seq<u8>)
    requires
        m.wf(),
    ensures
        parse_at(encode_spec(m) + rest, 0) == Ok::<(PacketModel, int), PacketError>(
            (m, encode_spec(m).len() as int),
        ),
{
    let s = encode_spec(m) + rest;
    assert(s.subrange(0, encode_spec(m).len() as int) =~= encode_spec(m));
    lemma_parse_encoded(s, 0, m);
}

/// An empty token is framed as a zero length with no bytes after it, and reads
/// back as an empty byte string, alone or at its place in a list.
pub proof fn lemma_empty_token(before: Seq<Seq<u8>>, after: Seq<Seq<u8>>)
    requires
        list_fits(before + seq![Seq::<u8>::empty()] + after),
    ensures
        token_bytes(Seq::<u8>::empty()) == seq![0u8, 0u8, 0u8, 0u8],
        parse_at(encode_spec(PacketModel::RespToken(Seq::<u8>::empty())), 0) == Ok::<
            (PacketModel, int),
            PacketError,
        >((PacketModel::RespToken(Seq::<u8>::empty()), 5)),
        ({
            let ts = before + seq![Seq::<u8>::empty()] + after;
            let m = PacketModel::RespTokens(ts);
            &&& parse_at(encode_spec(m), 0) == Ok::<(PacketModel, int), PacketError>(
                (m, encode_spec(m).len() as int),
            )
            &&& ts[before.len() as int] == Seq::<u8>::empty()
        }),
{
    let z: u32 = 0;
    assert(((z >> 24u32) & 0xffu32) as u8 == 0 && ((z >> 16u32) & 0xffu32) as u8 == 0 && ((z
        >> 8u32) & 0xffu32) as u8 == 0 && (z & 0xffu32) as u8 == 0) by (bit_vector)
        requires
            z == 0,
    ;
    assert(token_bytes(Seq::<u8>::empty()) =~= seq![0u8, 0u8, 0u8, 0u8]);
    let e = PacketModel::RespToken(Seq::<u8>::empty());
    assert(encode_spec(e).len() == 5);
    lemma_decode_encode(e, seq![]);
    assert(encode_spec(e) + seq![] =~= encode_spec(e));
    let ts = before + seq![Seq::<u8>::empty()] + after;
    let m = PacketModel::RespTokens(ts);
    lemma_decode_encode(m, seq![]);
    assert(encode_spec(m) + seq![] =~= encode_spec(m));
}

/// Whether `tag` opens a frame of the protocol.
pub open spec fn is_known_tag(tag: u8) -> bool {
    is_list_tag(tag) || is_token_tag(tag) || is_bare_tag(tag) || is_page_tag(tag) || is_keyed_tag(
        tag,
    )
}

/// A frame whose tag is none of the protocol's is refused as malformed,
/// whatever follows it: the reader does not guess.
pub proof fn lemma_unknown_tag(s: Seq<u8>, p: int)
    requires
        0 <= p < s.len(),
        !is_known_tag(s[p]),
    ensures
        parse_at(s, p) == Err::<(PacketModel, int), PacketError>(
            PacketError::MalformedProtocol(s[p]),
        ),
{
}

// ---------------------------------------------------------------- encoder

fn push_bytes(out: &mut Vec<u8>, b: &[u8])
    ensures
        final(out)@ == old(out)@ + b@,
{
    let mut i: usize = 0;
    while i < b.len()
        invariant
            i <= b@.len(),
            out@ == old(out)@ + b@.subrange(0, i as int),
        decreases b@.len() - i,
    {
        out.push(b[i]);
        i += 1;
        assert(out@ =~= old(out)@ + b@.subrange(0, i as int));
    }
    assert(b@.subrange(0, b@.len() as int) =~= b@);
}

fn push_u16(out: &mut Vec<u8>, n: u16)
    ensures
        final(out)@ == old(out)@ + be16(n),
{
    let b = be16_bytes(n);
    push_bytes(out, &b);
}

fn push_token(out: &mut Vec<u8>, t: &[u8])
    requires
        token_fits(t@),
    ensures
        final(out)@ == old(out)@ + token_bytes(t@),
{
    let n = be32_bytes(t.len() as u32);
    push_bytes(out, &n);
    push_bytes(out, t);
    assert(final(out)@ =~= old(out)@ + token_bytes(t@));
}

fn push_tokens(out: &mut Vec<u8>, ts: &Vec<Vec<u8>>)
    requires
        tokens_fit(tokens_view(*ts)),
    ensures
        final(out)@ == old(out)@ + tokens_bytes(tokens_view(*ts)),
{
    let ghost tv = tokens_view(*ts);
    let mut i: usize = 0;
    assert(tv.take(0) =~= seq![]);
    assert(old(out)@ + tokens_bytes(tv.take(0)) =~= old(out)@);
    while i < ts.len()
        invariant
            i <= ts@.len(),
            tv == tokens_view(*ts),
            tokens_fit(tv),
            out@ == old(out)@ + tokens_bytes(tv.take(i as int)),
        decreases ts@.len() - i,
    {
        assert(token_fits(tv[i as int]));
        push_token(out, ts[i].as_slice());
        proof {
            lemma_tokens_bytes_take(tv, i as int);
        }
        i += 1;
        assert(out@ =~= old(out)@ + tokens_bytes(tv.take(i as int)));
    }
    assert(tv.take(ts@.len() as int) =~= tv);
}

/// Appends the frame of `p` to `out`.
pub fn encode_into(out: &mut Vec<u8>, p: &Packet)
    requires
        p@.wf(),
    ensures
        final(out)@ == old(out)@ + encode_spec(p@),
{
    let ghost start = out@;
    match p {
        Packet::CmdWrite(ts) => {
            out.push(CMD_WRITE);
            push_u16(out, (ts.len() / 2) as u16);
            push_tokens(out, ts);
        },
        Packet::CmdRead(ts) => {
            out.push(CMD_READ);
            push_u16(out, ts.len() as u16);
            push_tokens(out, ts);
        },
        Packet::CmdDelete(ts) => {
            out.push(CMD_DELETE);
            push_u16(out, ts.len() as u16);
            push_tokens(out, ts);
        },
        Packet::CmdUse(t) => {
            out.push(CMD_USE);
            push_token(out, t.as_slice());
        },
        Packet::CmdCurrentDB() => {
            out.push(CMD_CURRENT_DB);
        },
        Packet::CmdListDb() => {
            out.push(CMD_LIST_DB);
        },
        Packet::CmdDetach(t) => {
            out.push(CMD_DETACH);
            push_token(out, t.as_slice());
        },
        Packet::CmdRangeBegin(n) => {
            out.push(CMD_RANGE_BEGIN);
            push_u16(out, *n);
        },
        Packet::CmdRangeEnd(n) => {
            out.push(CMD_RANGE_END);
            push_u16(out, *n);
        },
        Packet::CmdRangeFromAsc(n, t) => {
            out.push(CMD_RANGE_FROM_ASC);
            push_u16(out, *n);
            push_token(out, t.as_slice());
        },
        Packet::CmdRangeFromAscEx(n, t) => {
            out.push(CMD_RANGE_FROM_ASC_EX);
            push_u16(out, *n);
            push_token(out, t.as_slice());
        },
        Packet::CmdRangeFromDesc(n, t) => {
            out.push(CMD_RANGE_FROM_DESC);
            push_u16(out, *n);
            push_token(out, t.as_slice());
        },
        Packet::CmdRangeFromDescEx(n, t) => {
            out.push(CMD_RANGE_FROM_DESC_EX);
            push_u16(out, *n);
            push_token(out, t.as_slice());
        },
        Packet::RespOk(msg) => {
            out.push(RESP_OK);
            push_token(out, msg.as_str().as_bytes());
        },
        Packet::RespError(msg) => {
            out.push(RESP_ERROR);
            push_token(out, msg.as_str().as_bytes());
        },
        Packet::RespToken(t) => {
            out.push(RESP_TOKEN);
            push_token(out, t.as_slice());
        },
        Packet::RespTokens(ts) => {
            out.push(RESP_TOKENS);
            push_u16(out, ts.len() as u16);
            push_tokens(out, ts);
        },
        Packet::RespPairs(ts) => {
            out.push(RESP_PAIRS);
            push_u16(out, (ts.len() / 2) as u16);
            push_tokens(out, ts);
        },
    }
    assert(out@ =~= start + encode_spec(p@));
}

/// The frame of `p`.
pub fn encode(p: &Packet) -> (r: Vec<u8>)
    requires
        p@.wf(),
    ensures
        r@ == encode_spec(p@),
{
    let mut out: Vec<u8> = Vec::new();
    encode_into(&mut out, p);
    assert(out@ =~= encode_spec(p@));
    out
}

// ---------------------------------------------------------------- decoder

proof fn lemma_parse_tokens_stuck(s: Seq<u8>, p: int, j: nat, k: nat)
    requires
        j <= k,
        parse_tokens(s, p, j) is None,
    ensures
        parse_tokens(s, p, k) is None,
    decreases k - j,
{
    if j < k {
        lemma_parse_tokens_stuck(s, p, j, (k - 1) as nat);
    }
}

fn copy_range(buf: &[u8], a: usize, b: usize) -> (r: Vec<u8>)
    requires
        a <= b <= buf@.len(),
    ensures
        r@ == buf@.subrange(a as int, b as int),
{
    let mut r: Vec<u8> = Vec::new();
    let mut i: usize = a;
    while i < b
        invariant
            a <= i <= b <= buf@.len(),
            r@ == buf@.subrange(a as int, i as int),
        decreases b - i,
    {
        r.push(buf[i]);
        i += 1;
        assert(r@ =~= buf@.subrange(a as int, i as int));
    }
    r
}

fn read_u16(buf: &[u8], p: usize) -> (r: Option<(u16, usize)>)
    ensures
        match r {
            Some((n, e)) => parse_u16(buf@, p as int) == Some((n, e as int)),
            None => parse_u16(buf@, p as int) is None,
        },
{
    if buf.len() >= 2 && p <= buf.len() - 2 {
        Some((read_be16_at(buf, p), p + 2))
    } else {
        None
    }
}

fn read_token(buf: &[u8], p: usize) -> (r: Option<(Vec<u8>, usize)>)
    ensures
        match r {
            Some((t, e)) => parse_token(buf@, p as int) == Some((t@, e as int)),
            None => parse_token(buf@, p as int) is None,
        },
{
    if buf.len() >= 4 && p <= buf.len() - 4 {
        let n = read_be32_at(buf, p) as usize;
        if n <= buf.len() - (p + 4) {
            let t = copy_range(buf, p + 4, p + 4 + n);
            Some((t, p + 4 + n))
        } else {
            None
        }
    } else {
        None
    }
}

fn read_tokens(buf: &[u8], p: usize, k: usize) -> (r: Option<(Vec<Vec<u8>>, usize)>)
    ensures
        match r {
            Some((ts, e)) => parse_tokens(buf@, p as int, k as nat) == Some(
                (tokens_view(ts), e as int),
            ),
            None => parse_tokens(buf@, p as int, k as nat) is None,
        },
{
    let mut ts: Vec<Vec<u8>> = Vec::new();
    let mut q = p;
    let mut i: usize = 0;
    assert(tokens_view(ts) =~= seq![]);
    while i < k
        invariant
            i <= k,
            parse_tokens(buf@, p as int, i as nat) == Some((tokens_view(ts), q as int)),
        decreases k - i,
    {
        match read_token(buf, q) {
            Some((t, e)) => {
                let ghost before = tokens_view(ts);
                ts.push(t);
                assert(tokens_view(ts) =~= before.push(t@));
                q = e;
                i += 1;
            },
            None => {
                proof {
                    lemma_parse_tokens_stuck(buf@, p as int, (i + 1) as nat, k as nat);
                }
                return None;
            },
        }
    }
    Some((ts, q))
}

fn read_counted(buf: &[u8], p: usize, per: usize) -> (r: Option<(Vec<Vec<u8>>, usize)>)
    requires
        per == 1 || per == 2,
    ensures
        match r {
            Some((ts, e)) => parse_counted(buf@, p as int, per as nat) == Some(
                (tokens_view(ts), e as int),
            ),
            None => parse_counted(buf@, p as int, per as nat) is None,
        },
{
    match read_u16(buf, p) {
        Some((c, q)) => read_tokens(buf, q, per * (c as usize)),
        None => None,
    }
}

fn is_list_tag_exec(tag: u8) -> (r: bool)
    ensures
        r == is_list_tag(tag),
{
    tag == CMD_WRITE || tag == CMD_READ || tag == CMD_DELETE || tag == RESP_TOKENS || tag
        == RESP_PAIRS
}

fn is_token_tag_exec(tag: u8) -> (r: bool)
    ensures
        r == is_token_tag(tag),
{
    tag == CMD_USE || tag == CMD_DETACH || tag == RESP_TOKEN || tag == RESP_OK || tag == RESP_ERROR
}

fn list_packet_exec(tag: u8, ts: Vec<Vec<u8>>) -> (r: Packet)
    ensures
        r@ == list_packet(tag, tokens_view(ts)),
{
    if tag == CMD_WRITE {
        Packet::CmdWrite(ts)
    } else if tag == CMD_READ {
        Packet::CmdRead(ts)
    } else if tag == CMD_DELETE {
        Packet::CmdDelete(ts)
    } else if tag == RESP_TOKENS {
        Packet::RespTokens(ts)
    } else {
        Packet::RespPairs(ts)
    }
}

fn token_packet_exec(tag: u8, t: Vec<u8>) -> (r: Result<Packet, PacketError>)
    ensures
        match r {
            Ok(pk) => token_packet(tag, t@) == Ok::<PacketModel, PacketError>(pk@),
            Err(e) => token_packet(tag, t@) == Err::<PacketModel, PacketError>(e),
        },
{
    if tag == RESP_OK || tag == RESP_ERROR {
        match string_from_utf8(t) {
            Some(msg) => {
                if tag == RESP_OK {
                    Ok(Packet::RespOk(msg))
                } else {
                    Ok(Packet::RespError(msg))
                }
            },
            None => Err(PacketError::TextEncoding),
        }
    } else if tag == CMD_USE {
        Ok(Packet::CmdUse(t))
    } else if tag == CMD_DETACH {
        Ok(Packet::CmdDetach(t))
    } else {
        Ok(Packet::RespToken(t))
    }
}

fn keyed_packet_exec(tag: u8, n: u16, t: Vec<u8>) -> (r: Packet)
    ensures
        r@ == keyed_packet(tag, n, t@),
{
    if tag == CMD_RANGE_FROM_ASC {
        Packet::CmdRangeFromAsc(n, t)
    } else if tag == CMD_RANGE_FROM_ASC_EX {
        Packet::CmdRangeFromAscEx(n, t)
    } else if tag == CMD_RANGE_FROM_DESC {
        Packet::CmdRangeFromDesc(n, t)
    } else {
        Packet::CmdRangeFromDescEx(n, t)
    }
}

/// Reads one frame at `p` of `buf`: the packet and where its frame ends, or
/// why no frame can be read there (see [`parse_at`]).
pub fn decode_at(buf: &[u8], p: usize) -> (r: Result<(Packet, usize), PacketError>)
    ensures
        match r {
            Ok((pk, e)) => parse_at(buf@, p as int) == Ok::<(PacketModel, int), PacketError>(
                (pk@, e as int),
            ),
            Err(err) => parse_at(buf@, p as int) == Err::<(PacketModel, int), PacketError>(err),
        },
{
    if p >= buf.len() {
        return Err(PacketError::UnexpectedEof);
    }
    let tag = buf[p];
    let q = p + 1;
    if is_list_tag_exec(tag) {
        let per: usize = if tag == CMD_WRITE || tag == RESP_PAIRS {
            2
        } else {
            1
        };
        match read_counted(buf, q, per) {
            Some((ts, e)) => Ok((list_packet_exec(tag, ts), e)),
            None => Err(PacketError::UnexpectedEof),
        }
    } else if is_token_tag_exec(tag) {
        match read_token(buf, q) {
            Some((t, e)) => match token_packet_exec(tag, t) {
                Ok(pk) => Ok((pk, e)),
                Err(err) => Err(err),
            },
            None => Err(PacketError::UnexpectedEof),
        }
    } else if tag == CMD_CURRENT_DB {
        Ok((Packet::CmdCurrentDB(), q))
    } else if tag == CMD_LIST_DB {
        Ok((Packet::CmdListDb(), q))
    } else if tag == CMD_RANGE_BEGIN || tag == CMD_RANGE_END {
        match read_u16(buf, q) {
            Some((n, e)) => {
                if tag == CMD_RANGE_BEGIN {
                    Ok((Packet::CmdRangeBegin(n), e))
                } else {
                    Ok((Packet::CmdRangeEnd(n), e))
                }
            },
            None => Err(PacketError::UnexpectedEof),
        }
    } else if tag == CMD_RANGE_FROM_ASC || tag == CMD_RANGE_FROM_ASC_EX || tag
        == CMD_RANGE_FROM_DESC || tag == CMD_RANGE_FROM_DESC_EX {
        match read_u16(buf, q) {
            Some((n, q2)) => match read_token(buf, q2) {
                Some((t, e)) => Ok((keyed_packet_exec(tag, n, t), e)),
                None => Err(PacketError::UnexpectedEof),
            },
            None => Err(PacketError::UnexpectedEof),
        }
    } else {
        Err(PacketError::MalformedProtocol(tag))
    }
}

/// Reads the frame at the start of `bytes`: the packet and the length of its
/// frame, or why no frame can be read there.
///
/// What it reads is a well-formed packet and the bytes it consumed are that
/// packet's frame (see [`lemma_parse_sound`]); a frame that [`encode`] wrote
/// reads back as the packet it was written from (see [`lemma_decode_encode`]).
pub fn decode(bytes: &[u8]) -> (r: Result<(Packet, usize), PacketError>)
    ensures
        match r {
            Ok((pk, n)) => {
                &&& parse_at(bytes@, 0) == Ok::<(PacketModel, int), PacketError>((pk@, n as int))
                &&& pk@.wf()
                &&& 0 < n <= bytes@.len()
                &&& bytes@.subrange(0, n as int) == encode_spec(pk@)
            },
            Err(err) => parse_at(bytes@, 0) == Err::<(PacketModel, int), PacketError>(err),
        },
{
    let r = decode_at(bytes, 0);
    proof {
        if r is Ok {
            lemma_parse_sound(bytes@, 0);
        }
    }
    r
}

} // verus!
