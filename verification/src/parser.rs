//! Parsing of FastCGI records.
//!
//! The spec functions here define what every byte sequence parses to; the
//! executable parser returns exactly that, and the round-trip law at the
//! bottom connects them to the encoding in `fastcgi`.

use vstd::prelude::*;

use crate::fastcgi::{
    be16, be16_val, be32, be32_val, content_model_bytes, header_bytes, len_prefix, pair_bytes,
    pairs_bytes, pairs_view, padding_of, record_model_bytes, role_number, wf_record_model, zeros,
    ContentModel, NameValuePair, Record, RecordModel, Role, Content, BeginRequest, UnknownType,
    AbortRequest, EndRequest, ABORT_REQUEST, BEGIN_REQUEST, DATA, END_REQUEST, GET_VALUES,
    GET_VALUES_RESULT, PARAMS, STDERR, STDIN, STDOUT, UNKNOWN_TYPE,
};

verus! {

/// The ways an inbound record can be rejected outright.
#[derive(Debug, PartialEq, Eq, Structural, Clone, Copy)]
pub enum ParseError {
    UnknownRole(u16),
    UnknownType(u8),
}

/// The number that stands for a parse error when one must travel as a
/// plain 32-bit value: roles are marked by bit 17.
pub open spec fn parse_error_number(e: ParseError) -> u32 {
    match e {
        ParseError::UnknownRole(role) => (role + 0x20000) as u32,
        ParseError::UnknownType(kind) => kind as u32,
    }
}

impl ParseError {
    pub fn to_u32(self) -> (r: u32)
        ensures
            r == parse_error_number(self),
    {
        match self {
            ParseError::UnknownRole(role) => role as u32 + 0x20000,
            ParseError::UnknownType(kind) => kind as u32,
        }
    }

    pub fn from_u32(repr: u32) -> (r: ParseError)
        ensures
            r == (if repr & 0x20000 != 0 {
                ParseError::UnknownRole((repr % 0x10000) as u16)
            } else {
                ParseError::UnknownType((repr % 0x100) as u8)
            }),
    {
        if repr & 0x20000 != 0 {
            ParseError::UnknownRole((repr % 0x10000) as u16)
        } else {
            ParseError::UnknownType((repr % 0x100) as u8)
        }
    }
}

/// What parsing one record yields, at the model level.
pub enum ParseModel {
    Done { consumed: int, record: RecordModel },
    Incomplete,
    Failed(ParseError),
}

/// What parsing one record's content yields, at the model level.
pub enum ContentParse {
    Done(ContentModel),
    Incomplete,
    Failed(ParseError),
}

/// What parsing one record yields: the record and how many bytes it took,
/// a request for more input, or a rejection.
#[derive(Debug, PartialEq, Eq, Clone)]
pub enum RecordParse {
    Done { consumed: usize, record: Record },
    Incomplete,
    Failed(ParseError),
}

impl View for RecordParse {
    type V = ParseModel;

    open spec fn view(&self) -> ParseModel {
        match self {
            RecordParse::Done { consumed, record } => ParseModel::Done {
                consumed: *consumed as int,
                record: record@,
            },
            RecordParse::Incomplete => ParseModel::Incomplete,
            RecordParse::Failed(e) => ParseModel::Failed(*e),
        }
    }
}

/// The role a protocol number names.
pub open spec fn role_of_number(tag: u16) -> Role
    recommends
        1 <= tag <= 3,
{
    if tag == 1 {
        Role::Responder
    } else if tag == 2 {
        Role::Authorizer
    } else {
        Role::Filter
    }
}

/// A length prefix read from the front of `c`: one byte when its high bit
/// is clear, else four big-endian bytes masked to 31 bits. `None` asks for
/// more input.
pub open spec fn parse_len(c: Seq<u8>) -> Option<(int, int)> {
    if c.len() < 1 {
        None
    } else if c[0] < 128 {
        Some((1int, c[0] as int))
    } else if c.len() < 4 {
        None
    } else {
        Some((4int, (be32_val(c[0], c[1], c[2], c[3]) & 0x7fffffff) as int))
    }
}

/// One name-value pair read from the front of `c`: the bytes it took and
/// the name and value. `None` asks for more input.
pub open spec fn parse_pair(c: Seq<u8>) -> Option<(int, (Seq<u8>, Seq<u8>))> {
    match parse_len(c) {
        None => None,
        Some((n1, nlen)) => match parse_len(c.skip(n1)) {
            None => None,
            Some((n2, vlen)) => {
                let h = n1 + n2;
                if c.len() < h + nlen + vlen {
                    None
                } else {
                    Some(
                        (
                            h + nlen + vlen,
                            (c.subrange(h, h + nlen), c.subrange(h + nlen, h + nlen + vlen)),
                        ),
                    )
                }
            },
        },
    }
}

/// All the name-value pairs of a record's content, read until the content
/// is exhausted. `None` when the content ends inside a pair.
pub open spec fn parse_pairs(c: Seq<u8>) -> Option<Seq<(Seq<u8>, Seq<u8>)>>
    decreases c.len(),
{
    if c.len() == 0 {
        Some(Seq::empty())
    } else {
        match parse_pair(c) {
            None => None,
            Some((n, p)) => {
                if n < 1 || n > c.len() {
                    None
                } else {
                    match parse_pairs(c.skip(n)) {
                        None => None,
                        Some(ps) => Some(seq![p] + ps),
                    }
                }
            },
        }
    }
}

/// What a record's content parses to, given its type byte.
pub open spec fn parse_content(kind: u8, c: Seq<u8>) -> ContentParse {
    if kind == BEGIN_REQUEST {
        if c.len() < 2 {
            ContentParse::Incomplete
        } else {
            let tag = be16_val(c[0], c[1]);
            if tag < 1 || tag > 3 {
                ContentParse::Failed(ParseError::UnknownRole(tag))
            } else if c.len() < 8 {
                ContentParse::Incomplete
            } else {
                ContentParse::Done(
                    ContentModel::BeginRequest { role: role_of_number(tag), flags: c[2] },
                )
            }
        }
    } else if kind == ABORT_REQUEST {
        ContentParse::Done(ContentModel::AbortRequest)
    } else if kind == END_REQUEST {
        if c.len() < 8 {
            ContentParse::Incomplete
        } else {
            ContentParse::Done(
                ContentModel::EndRequest {
                    app_status: be32_val(c[0], c[1], c[2], c[3]),
                    protocol_status: c[4],
                },
            )
        }
    } else if kind == PARAMS {
        match parse_pairs(c) {
            Some(ps) => ContentParse::Done(ContentModel::Params(ps)),
            None => ContentParse::Incomplete,
        }
    } else if kind == STDIN {
        ContentParse::Done(ContentModel::Stdin(c))
    } else if kind == STDOUT {
        ContentParse::Done(ContentModel::Stdout(c))
    } else if kind == STDERR {
        ContentParse::Done(ContentModel::Stderr(c))
    } else if kind == DATA {
        ContentParse::Done(ContentModel::Data(c))
    } else if kind == GET_VALUES {
        match parse_pairs(c) {
            Some(ps) => ContentParse::Done(ContentModel::GetValues(ps)),
            None => ContentParse::Incomplete,
        }
    } else if kind == GET_VALUES_RESULT {
        match parse_pairs(c) {
            Some(ps) => ContentParse::Done(ContentModel::GetValuesResult(ps)),
            None => ContentParse::Incomplete,
        }
    } else if kind == UNKNOWN_TYPE {
        if c.len() < 8 {
            ContentParse::Incomplete
        } else {
            ContentParse::Done(ContentModel::UnknownType(c[0]))
        }
    } else {
        ContentParse::Failed(ParseError::UnknownType(kind))
    }
}

/// What a byte sequence parses to: incomplete until the whole record with
/// its padding is present, then the record its header and content denote.
pub open spec fn parse_record_model(input: Seq<u8>) -> ParseModel {
    if input.len() < 8 {
        ParseModel::Incomplete
    } else {
        let kind = input[1];
        let id = be16_val(input[2], input[3]);
        let clen = be16_val(input[4], input[5]) as int;
        let plen = input[6] as int;
        if input.len() < 8 + clen + plen {
            ParseModel::Incomplete
        } else {
            match parse_content(kind, input.subrange(8, 8 + clen)) {
                ContentParse::Done(c) => ParseModel::Done {
                    consumed: 8 + clen + plen,
                    record: RecordModel { id: id, content: c },
                },
                ContentParse::Incomplete => ParseModel::Incomplete,
                ContentParse::Failed(e) => ParseModel::Failed(e),
            }
        }
    }
}

/// Copies `len` bytes of the input, starting at `start`.
pub(crate) fn take_range(input: &[u8], start: usize, len: usize) -> (v: Vec<u8>)
    requires
        start + len <= input@.len(),
    ensures
        v@ == input@.subrange(start as int, start as int + len as int),
{
    let total = input.len();
    let mut v: Vec<u8> = Vec::new();
    let mut j: usize = 0;
    while j < len
        invariant
            j <= len,
            total == input@.len(),
            start + len <= total,
            v@ == input@.subrange(start as int, start as int + j as int),
        decreases len - j,
    {
        proof {
            assert(input@.subrange(start as int, start as int + j as int).push(
                input@[start + j],
            ) =~= input@.subrange(start as int, start as int + j + 1));
        }
        v.push(input[start + j]);
        j = j + 1;
    }
    v
}

/// Reads two bytes in big-endian order.
fn read_be16(input: &[u8], i: usize) -> (x: u16)
    requires
        i + 2 <= input@.len(),
    ensures
        x == be16_val(input@[i as int], input@[i + 1]),
{
    (input[i] as u16) * 256 + (input[i + 1] as u16)
}

/// Reads four bytes in big-endian order.
fn read_be32(input: &[u8], i: usize) -> (x: u32)
    requires
        i + 4 <= input@.len(),
    ensures
        x == be32_val(input@[i as int], input@[i + 1], input@[i + 2], input@[i + 3]),
{
    (input[i] as u32) * 0x1000000 + (input[i + 1] as u32) * 0x10000 + (input[i + 2] as u32) * 256
        + (input[i + 3] as u32)
}

/// Reads the name-value pairs of the content at `input[start .. start + len]`.
#[verifier::rlimit(100)]
fn parse_pairs_from(input: &[u8], start: usize, len: usize) -> (r: Option<Vec<NameValuePair>>)
    requires
        start + len <= input@.len(),
    ensures
        ({
            let c = input@.subrange(start as int, start as int + len as int);
            match r {
                Some(v) => parse_pairs(c) == Some(pairs_view(v@)),
                None => parse_pairs(c) is None,
            }
        }),
{
    let ghost c = input@.subrange(start as int, start as int + len as int);
    let total = input.len();
    let mut pairs: Vec<NameValuePair> = Vec::new();
    let mut off: usize = 0;
    proof {
        assert(c.skip(0) =~= c);
        if let Some(ps) = parse_pairs(c) {
            assert(pairs_view(pairs@) + ps =~= ps);
        }
    }
    while off < len
        invariant
            off <= len,
            total == input@.len(),
            start + len <= total,
            c == input@.subrange(start as int, start as int + len as int),
            match parse_pairs(c.skip(off as int)) {
                Some(ps) => parse_pairs(c) == Some(pairs_view(pairs@) + ps),
                None => parse_pairs(c) is None,
            },
        decreases len - off,
    {
        let ghost rest = c.skip(off as int);
        proof {
            assert(rest.len() == len - off);
            assert forall|k: int| 0 <= k < rest.len() implies rest[k] == input@[start + off + k] by {
                assert(rest[k] == c[off + k]);
            }
        }

        // name length
        let b0 = input[start + off];
        let (nc1, nlen): (usize, usize) = if b0 < 128 {
            (1, b0 as usize)
        } else {
            if len - off < 4 {
                return None;
            }
            (4, (read_be32(input, start + off) & 0x7fffffff) as usize)
        };
        proof {
            assert(parse_len(rest) == Some((nc1 as int, nlen as int)));
        }

        // value length
        if len - off < nc1 + 1 {
            proof {
                assert(rest.skip(nc1 as int).len() < 1);
            }
            return None;
        }
        let b1 = input[start + off + nc1];
        proof {
            assert(rest.skip(nc1 as int)[0] == rest[nc1 as int]);
        }
        let (nc2, vlen): (usize, usize) = if b1 < 128 {
            (1, b1 as usize)
        } else {
            if len - off - nc1 < 4 {
                proof {
                    assert(rest.skip(nc1 as int).len() < 4);
                }
                return None;
            }
            (4, (read_be32(input, start + off + nc1) & 0x7fffffff) as usize)
        };
        proof {
            assert forall|k: int| 0 <= k < rest.len() - nc1 implies rest.skip(nc1 as int)[k]
                == input@[start + off + nc1 + k] by {
                assert(rest.skip(nc1 as int)[k] == rest[nc1 + k]);
            }
            assert(parse_len(rest.skip(nc1 as int)) == Some((nc2 as int, vlen as int)));
        }

        let h = nc1 + nc2;
        if (nlen as u64) + (vlen as u64) > (len - off - h) as u64 {
            return None;
        }
        let name = take_range(input, start + off + h, nlen);
        let value = take_range(input, start + off + h + nlen, vlen);
        let ghost consumed = (h + nlen + vlen) as int;
        proof {
            assert(rest.subrange(h as int, h + nlen) =~= name@);
            assert(rest.subrange(h + nlen, consumed) =~= value@);
            assert(parse_pair(rest) == Some((consumed, (name@, value@))));
            assert(rest.skip(consumed) =~= c.skip(off + consumed));
            let np = NameValuePair { name: name, value: value };
            assert(pairs_view(pairs@.push(np)) =~= pairs_view(pairs@).push((name@, value@)));
            if let Some(ps2) = parse_pairs(c.skip(off + consumed)) {
                assert(parse_pairs(rest) == Some(seq![(name@, value@)] + ps2));
                assert(pairs_view(pairs@) + (seq![(name@, value@)] + ps2) =~= pairs_view(
                    pairs@,
                ).push((name@, value@)) + ps2);
            }
        }
        pairs.push(NameValuePair { name, value });
        off = off + h + nlen + vlen;
    }
    proof {
        assert(c.skip(off as int) =~= Seq::<u8>::empty());
        if let Some(ps) = parse_pairs(c.skip(off as int)) {
            assert(pairs_view(pairs@) + ps =~= pairs_view(pairs@));
        }
    }
    Some(pairs)
}

/// Parses one record from the front of the input.
pub fn record(input: &[u8]) -> (r: RecordParse)
    ensures
        r@ == parse_record_model(input@),
{
    if input.len() < 8 {
        return RecordParse::Incomplete;
    }
    let kind = input[1];
    let id = read_be16(input, 2);
    let content_length = read_be16(input, 4) as usize;
    let padding_length = input[6] as usize;
    if input.len() < 8 + content_length + padding_length {
        return RecordParse::Incomplete;
    }
    let consumed = 8 + content_length + padding_length;
    let ghost c = input@.subrange(8, 8 + content_length as int);
    proof {
        assert(c.len() == content_length);
        assert forall|k: int| 0 <= k < c.len() implies c[k] == input@[8 + k] by {}
    }

    if kind == BEGIN_REQUEST {
        if content_length < 2 {
            return RecordParse::Incomplete;
        }
        let tag = read_be16(input, 8);
        if tag < 1 || tag > 3 {
            return RecordParse::Failed(ParseError::UnknownRole(tag));
        }
        if content_length < 8 {
            return RecordParse::Incomplete;
        }
        let role = if tag == 1 {
            Role::Responder
        } else if tag == 2 {
            Role::Authorizer
        } else {
            Role::Filter
        };
        let flags = input[10];
        RecordParse::Done {
            consumed,
            record: Record { id, content: Content::BeginRequest(BeginRequest { role, flags }) },
        }
    } else if kind == ABORT_REQUEST {
        RecordParse::Done { consumed, record: Record { id, content: Content::AbortRequest(AbortRequest) } }
    } else if kind == END_REQUEST {
        if content_length < 8 {
            return RecordParse::Incomplete;
        }
        let app_status = read_be32(input, 8);
        let protocol_status = input[12];
        RecordParse::Done {
            consumed,
            record: Record {
                id,
                content: Content::EndRequest(EndRequest { app_status, protocol_status }),
            },
        }
    } else if kind == PARAMS {
        match parse_pairs_from(input, 8, content_length) {
            Some(ps) => RecordParse::Done {
                consumed,
                record: Record { id, content: Content::Params(ps) },
            },
            None => RecordParse::Incomplete,
        }
    } else if kind == STDIN {
        let data = take_range(input, 8, content_length);
        RecordParse::Done { consumed, record: Record { id, content: Content::Stdin(data) } }
    } else if kind == STDOUT {
        let data = take_range(input, 8, content_length);
        RecordParse::Done { consumed, record: Record { id, content: Content::Stdout(data) } }
    } else if kind == STDERR {
        let data = take_range(input, 8, content_length);
        RecordParse::Done { consumed, record: Record { id, content: Content::Stderr(data) } }
    } else if kind == DATA {
        let data = take_range(input, 8, content_length);
        RecordParse::Done { consumed, record: Record { id, content: Content::Data(data) } }
    } else if kind == GET_VALUES {
        match parse_pairs_from(input, 8, content_length) {
            Some(ps) => RecordParse::Done {
                consumed,
                record: Record { id, content: Content::GetValues(ps) },
            },
            None => RecordParse::Incomplete,
        }
    } else if kind == GET_VALUES_RESULT {
        match parse_pairs_from(input, 8, content_length) {
            Some(ps) => RecordParse::Done {
                consumed,
                record: Record { id, content: Content::GetValuesResult(ps) },
            },
            None => RecordParse::Incomplete,
        }
    } else if kind == UNKNOWN_TYPE {
        if content_length < 8 {
            return RecordParse::Incomplete;
        }
        RecordParse::Done {
            consumed,
            record: Record { id, content: Content::UnknownType(UnknownType(input[8])) },
        }
    } else {
        RecordParse::Failed(ParseError::UnknownType(kind))
    }
}

proof fn lemma_be16_round(x: u16)
    ensures
        be16(x).len() == 2,
        be16_val(be16(x)[0], be16(x)[1]) == x,
{
}

proof fn lemma_be32_round(x: u32)
    ensures
        be32(x).len() == 4,
        be32_val(be32(x)[0], be32(x)[1], be32(x)[2], be32(x)[3]) == x,
{
    let b0 = (x / 0x1000000) as u8;
    let b1 = ((x / 0x10000) % 256) as u8;
    let b2 = ((x / 256) % 256) as u8;
    let b3 = (x % 256) as u8;
    assert(b0 * 0x1000000 + b1 * 0x10000 + b2 * 256 + b3 == x) by (nonlinear_arith)
        requires
            b0 == x / 0x1000000,
            b1 == (x / 0x10000) % 256,
            b2 == (x / 256) % 256,
            b3 == x % 256,
    ;
}

/// A length of at most 31 bits survives the high-bit marking and the mask.
proof fn lemma_len_prefix_round(l: int)
    requires
        0 <= l <= 0x7fffffff,
    ensures
        l <= 127 ==> len_prefix(l) == seq![l as u8],
        l > 127 ==> {
            let b = len_prefix(l);
            b.len() == 4 && b[0] >= 128 && (be32_val(b[0], b[1], b[2], b[3]) & 0x7fffffff) == l
        },
{
    if l > 127 {
        let y = (l + 0x80000000) as u32;
        lemma_be32_round(y);
        assert(y / 0x1000000 >= 128);
        assert(y & 0x7fffffff == y % 0x80000000) by (bit_vector);
        assert(y % 0x80000000 == l) by (nonlinear_arith)
            requires
                y == l + 0x80000000 && 127 < l <= 0x7fffffff,
        ;
    }
}

/// Within a bounded pair list every name and value is bounded too.
proof fn lemma_pairs_bounded(ps: Seq<(Seq<u8>, Seq<u8>)>, bound: int)
    requires
        pairs_bytes(ps).len() <= bound,
    ensures
        forall|i: int|
            0 <= i < ps.len() ==> (#[trigger] ps[i]).0.len() <= bound && ps[i].1.len() <= bound,
    decreases ps.len(),
{
    if ps.len() > 0 {
        lemma_pairs_bounded(ps.skip(1), bound);
        assert forall|i: int|
            0 <= i < ps.len() implies (#[trigger] ps[i]).0.len() <= bound && ps[i].1.len()
            <= bound by {
            if i >= 1 {
                assert(ps[i] == ps.skip(1)[i - 1]);
            }
        }
    }
}

/// Parsing the encoding of one pair gives that pair back, whatever follows.
proof fn lemma_parse_pair_round(p: (Seq<u8>, Seq<u8>), rest: Seq<u8>)
    requires
        p.0.len() <= 0x7fffffff,
        p.1.len() <= 0x7fffffff,
    ensures
        parse_pair(pair_bytes(p) + rest) == Some((pair_bytes(p).len() as int, p)),
{
    let nlen = p.0.len() as int;
    let vlen = p.1.len() as int;
    let b = pair_bytes(p) + rest;
    lemma_len_prefix_round(nlen);
    lemma_len_prefix_round(vlen);
    let n1 = len_prefix(nlen).len() as int;
    let n2 = len_prefix(vlen).len() as int;
    assert forall|k: int| 0 <= k < n1 implies b[k] == len_prefix(nlen)[k] by {}
    assert(parse_len(b) == Some((n1, nlen)));
    let b2 = b.skip(n1);
    assert(b2 =~= len_prefix(vlen) + (p.0 + p.1 + rest));
    assert forall|k: int| 0 <= k < n2 implies b2[k] == len_prefix(vlen)[k] by {}
    assert(parse_len(b2) == Some((n2, vlen)));
    let h = n1 + n2;
    assert(b.len() >= h + nlen + vlen);
    assert(b.subrange(h, h + nlen) =~= p.0);
    assert(b.subrange(h + nlen, h + nlen + vlen) =~= p.1);
    assert(pair_bytes(p).len() == h + nlen + vlen);
}

/// Parsing the encoding of a pair list gives the list back.
proof fn lemma_parse_pairs_round(ps: Seq<(Seq<u8>, Seq<u8>)>)
    requires
        forall|i: int|
            0 <= i < ps.len() ==> (#[trigger] ps[i]).0.len() <= 0x7fffffff && ps[i].1.len()
                <= 0x7fffffff,
    ensures
        parse_pairs(pairs_bytes(ps)) == Some(ps),
    decreases ps.len(),
{
    if ps.len() == 0 {
        assert(pairs_bytes(ps).len() == 0);
        assert(Seq::<(Seq<u8>, Seq<u8>)>::empty() =~= ps);
    } else {
        let c = pairs_bytes(ps);
        let p = ps[0];
        let rest = pairs_bytes(ps.skip(1));
        assert(c == pair_bytes(p) + rest);
        lemma_parse_pair_round(p, rest);
        let n = pair_bytes(p).len() as int;
        assert(n >= 2);
        assert(c.len() == n + rest.len());
        assert(c.skip(n) =~= rest);
        assert(forall|i: int| 0 <= i < ps.skip(1).len() ==> #[trigger] ps.skip(1)[i] == ps[i + 1]);
        lemma_parse_pairs_round(ps.skip(1));
        assert(seq![p] + ps.skip(1) =~= ps);
    }
}

/// The round-trip law: a well-formed record, serialized and then parsed —
/// with anything at all following it in the input — yields the same record
/// again, consuming exactly the serialized bytes: the eight-byte header,
/// the content, and the padding.
pub proof fn lemma_record_round_trip(r: RecordModel, extra: Seq<u8>)
    requires
        wf_record_model(r),
    ensures
        parse_record_model(record_model_bytes(r) + extra) == (ParseModel::Done {
            consumed: record_model_bytes(r).len() as int,
            record: r,
        }),
{
    let c = content_model_bytes(r.content);
    let clen = c.len() as int;
    let kind = crate::fastcgi::model_kind(r.content);
    let plen = padding_of(clen);
    let hdr = header_bytes(kind, r.id, c.len() as u16);
    let input = record_model_bytes(r) + extra;
    lemma_be16_round(r.id);
    lemma_be16_round(c.len() as u16);
    assert(hdr.len() == 8);
    assert(input.len() == 8 + clen + plen + extra.len());
    assert forall|k: int| 0 <= k < 8 implies input[k] == hdr[k] by {}
    assert(input[1] == kind);
    assert(be16_val(input[2], input[3]) == r.id);
    assert(be16_val(input[4], input[5]) == clen);
    assert(input[6] == plen as u8);
    let csub = input.subrange(8, 8 + clen);
    assert(csub =~= c);
    match r.content {
        ContentModel::BeginRequest { role, flags } => {
            lemma_be16_round(role_number(role));
            assert(c.len() == 8);
            assert(c[0] == be16(role_number(role))[0]);
            assert(c[1] == be16(role_number(role))[1]);
            assert(be16_val(c[0], c[1]) == role_number(role));
            assert(c[2] == flags);
            assert(role_of_number(role_number(role)) == role);
            assert(parse_content(kind, csub) == ContentParse::Done(r.content));
        },
        ContentModel::AbortRequest => {
            assert(parse_content(kind, csub) == ContentParse::Done(r.content));
        },
        ContentModel::EndRequest { app_status, protocol_status } => {
            lemma_be32_round(app_status);
            assert(c.len() == 8);
            assert(c[0] == be32(app_status)[0] && c[1] == be32(app_status)[1] && c[2] == be32(
                app_status,
            )[2] && c[3] == be32(app_status)[3]);
            assert(be32_val(c[0], c[1], c[2], c[3]) == app_status);
            assert(c[4] == protocol_status);
            assert(parse_content(kind, csub) == ContentParse::Done(r.content));
        },
        ContentModel::Params(ps) => {
            lemma_pairs_bounded(ps, 0xffff);
            lemma_parse_pairs_round(ps);
            assert(parse_content(kind, csub) == ContentParse::Done(r.content));
        },
        ContentModel::GetValues(ps) => {
            lemma_pairs_bounded(ps, 0xffff);
            lemma_parse_pairs_round(ps);
            assert(parse_content(kind, csub) == ContentParse::Done(r.content));
        },
        ContentModel::GetValuesResult(ps) => {
            lemma_pairs_bounded(ps, 0xffff);
            lemma_parse_pairs_round(ps);
            assert(parse_content(kind, csub) == ContentParse::Done(r.content));
        },
        ContentModel::Stdin(d) => {
            assert(parse_content(kind, csub) == ContentParse::Done(ContentModel::Stdin(csub)));
            assert(csub == d);
        },
        ContentModel::Data(d) => {
            assert(parse_content(kind, csub) == ContentParse::Done(ContentModel::Data(csub)));
            assert(csub == d);
        },
        ContentModel::Stdout(d) => {
            assert(parse_content(kind, csub) == ContentParse::Done(ContentModel::Stdout(csub)));
            assert(csub == d);
        },
        ContentModel::Stderr(d) => {
            assert(parse_content(kind, csub) == ContentParse::Done(ContentModel::Stderr(csub)));
            assert(csub == d);
        },
        ContentModel::UnknownType(k) => {
            assert(c.len() == 8);
            assert(c[0] == k);
            assert(parse_content(kind, csub) == ContentParse::Done(r.content));
        },
    }
    assert(record_model_bytes(r).len() == 8 + clen + plen);
}

} // verus!
