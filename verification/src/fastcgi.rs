//! FastCGI 1.1 records and their wire encoding.
//!
//! A record is an 8-byte header, its content and zero padding chosen so that
//! content and padding together are a multiple of eight bytes. The spec
//! functions here define that encoding byte for byte; the serializer and the
//! parser are both specified against them.

use vstd::prelude::*;

verus! {

pub const BEGIN_REQUEST: u8 = 1;

pub const ABORT_REQUEST: u8 = 2;

pub const END_REQUEST: u8 = 3;

pub const PARAMS: u8 = 4;

pub const STDIN: u8 = 5;

pub const STDOUT: u8 = 6;

pub const STDERR: u8 = 7;

pub const DATA: u8 = 8;

pub const GET_VALUES: u8 = 9;

pub const GET_VALUES_RESULT: u8 = 10;

pub const UNKNOWN_TYPE: u8 = 11;

/// `BeginRequest` flag bit: keep the connection open after the request.
pub const KEEP_CONN: u8 = 1;

pub const REQUEST_COMPLETE: u8 = 0;

pub const CANT_MPX_CONN: u8 = 1;

pub const OVERLOADED: u8 = 2;

pub const UNKNOWN_ROLE: u8 = 3;

/// One FastCGI protocol frame.
#[derive(Debug, PartialEq, Eq, Clone)]
pub struct Record {
    pub id: u16,
    pub content: Content,
}

/// The content of a record, tagged by the protocol's type byte.
#[derive(Debug, PartialEq, Eq, Clone)]
pub enum Content {
    GetValues(Vec<NameValuePair>),
    GetValuesResult(Vec<NameValuePair>),
    UnknownType(UnknownType),
    BeginRequest(BeginRequest),
    Params(Vec<NameValuePair>),
    Stdin(Vec<u8>),
    Data(Vec<u8>),
    Stdout(Vec<u8>),
    Stderr(Vec<u8>),
    AbortRequest(AbortRequest),
    EndRequest(EndRequest),
}

/// A name and a value, as carried by `Params`, `GetValues` and
/// `GetValuesResult` records.
#[derive(Debug, PartialEq, Eq, Clone)]
pub struct NameValuePair {
    pub name: Vec<u8>,
    pub value: Vec<u8>,
}

#[derive(Debug, PartialEq, Eq, Clone)]
pub struct BeginRequest {
    pub role: Role,
    pub flags: u8,
}

/// The type byte of a record the peer did not understand.
#[derive(Debug, PartialEq, Eq, Clone)]
pub struct UnknownType(pub u8);

#[derive(Debug, PartialEq, Eq, Clone, Copy)]
pub struct AbortRequest;

#[derive(Debug, PartialEq, Eq, Clone)]
pub struct EndRequest {
    pub app_status: u32,
    pub protocol_status: u8,
}

#[derive(Debug, PartialEq, Eq, Clone, Copy)]
pub enum Role {
    Responder,
    Authorizer,
    Filter,
}

/// The mathematical model of a record: contents as sequences.
pub struct RecordModel {
    pub id: u16,
    pub content: ContentModel,
}

/// The mathematical model of record content.
pub enum ContentModel {
    GetValues(Seq<(Seq<u8>, Seq<u8>)>),
    GetValuesResult(Seq<(Seq<u8>, Seq<u8>)>),
    UnknownType(u8),
    BeginRequest { role: Role, flags: u8 },
    Params(Seq<(Seq<u8>, Seq<u8>)>),
    Stdin(Seq<u8>),
    Data(Seq<u8>),
    Stdout(Seq<u8>),
    Stderr(Seq<u8>),
    AbortRequest,
    EndRequest { app_status: u32, protocol_status: u8 },
}

impl View for NameValuePair {
    type V = (Seq<u8>, Seq<u8>);

    open spec fn view(&self) -> (Seq<u8>, Seq<u8>) {
        (self.name@, self.value@)
    }
}

/// The views of a list of name-value pairs, in order.
pub open spec fn pairs_view(ps: Seq<NameValuePair>) -> Seq<(Seq<u8>, Seq<u8>)> {
    ps.map_values(|p: NameValuePair| p@)
}

impl View for Content {
    type V = ContentModel;

    open spec fn view(&self) -> ContentModel {
        match self {
            Content::GetValues(ps) => ContentModel::GetValues(pairs_view(ps@)),
            Content::GetValuesResult(ps) => ContentModel::GetValuesResult(pairs_view(ps@)),
            Content::UnknownType(u) => ContentModel::UnknownType(u.0),
            Content::BeginRequest(b) => ContentModel::BeginRequest { role: b.role, flags: b.flags },
            Content::Params(ps) => ContentModel::Params(pairs_view(ps@)),
            Content::Stdin(d) => ContentModel::Stdin(d@),
            Content::Data(d) => ContentModel::Data(d@),
            Content::Stdout(d) => ContentModel::Stdout(d@),
            Content::Stderr(d) => ContentModel::Stderr(d@),
            Content::AbortRequest(_) => ContentModel::AbortRequest,
            Content::EndRequest(e) => ContentModel::EndRequest {
                app_status: e.app_status,
                protocol_status: e.protocol_status,
            },
        }
    }
}

impl View for Record {
    type V = RecordModel;

    open spec fn view(&self) -> RecordModel {
        RecordModel { id: self.id, content: self.content@ }
    }
}

/// The protocol's number for each role.
pub open spec fn role_number(r: Role) -> u16 {
    match r {
        Role::Responder => 1,
        Role::Authorizer => 2,
        Role::Filter => 3,
    }
}

impl Role {
    /// Returns the protocol's number for this role.
    pub fn to_protocol_number(self) -> (n: u16)
        ensures
            n == role_number(self),
    {
        match self {
            Role::Responder => 1,
            Role::Authorizer => 2,
            Role::Filter => 3,
        }
    }
}

/// The protocol's type byte for each kind of content.
pub open spec fn model_kind(c: ContentModel) -> u8 {
    match c {
        ContentModel::BeginRequest { .. } => BEGIN_REQUEST,
        ContentModel::AbortRequest => ABORT_REQUEST,
        ContentModel::EndRequest { .. } => END_REQUEST,
        ContentModel::Params(_) => PARAMS,
        ContentModel::Stdin(_) => STDIN,
        ContentModel::Stdout(_) => STDOUT,
        ContentModel::Stderr(_) => STDERR,
        ContentModel::Data(_) => DATA,
        ContentModel::GetValues(_) => GET_VALUES,
        ContentModel::GetValuesResult(_) => GET_VALUES_RESULT,
        ContentModel::UnknownType(_) => UNKNOWN_TYPE,
    }
}

impl Content {
    pub fn kind(&self) -> (k: u8)
        ensures
            k == model_kind(self@),
    {
        match *self {
            Content::GetValues(_) => GET_VALUES,
            Content::GetValuesResult(_) => GET_VALUES_RESULT,
            Content::UnknownType(_) => UNKNOWN_TYPE,
            Content::BeginRequest(_) => BEGIN_REQUEST,
            Content::Params(_) => PARAMS,
            Content::Stdin(_) => STDIN,
            Content::Data(_) => DATA,
            Content::Stdout(_) => STDOUT,
            Content::Stderr(_) => STDERR,
            Content::AbortRequest(_) => ABORT_REQUEST,
            Content::EndRequest(_) => END_REQUEST,
        }
    }
}

impl Record {
    #[inline]
    pub fn kind(&self) -> (k: u8)
        ensures
            k == model_kind(self@.content),
    {
        self.content.kind()
    }
}

/// The two bytes of a 16-bit number in big-endian order.
pub open spec fn be16(x: u16) -> Seq<u8> {
    seq![(x / 256) as u8, (x % 256) as u8]
}

/// The 16-bit number read from two bytes in big-endian order.
pub open spec fn be16_val(hi: u8, lo: u8) -> u16 {
    (hi * 256 + lo) as u16
}

/// The four bytes of a 32-bit number in big-endian order.
pub open spec fn be32(x: u32) -> Seq<u8> {
    seq![
        (x / 0x1000000) as u8,
        ((x / 0x10000) % 256) as u8,
        ((x / 256) % 256) as u8,
        (x % 256) as u8,
    ]
}

/// The 32-bit number read from four bytes in big-endian order.
pub open spec fn be32_val(b0: u8, b1: u8, b2: u8, b3: u8) -> u32 {
    (b0 * 0x1000000 + b1 * 0x10000 + b2 * 256 + b3) as u32
}

/// A run of zero bytes.
pub open spec fn zeros(n: int) -> Seq<u8> {
    Seq::new(n as nat, |i: int| 0u8)
}

/// How many padding bytes follow content of the given length: the least
/// number that brings content plus padding to a multiple of eight.
pub open spec fn padding_of(l: int) -> int {
    if l % 8 == 0 {
        0
    } else {
        8 - l % 8
    }
}

/// The 8-byte record header: version 1, the type byte, the request id and
/// the content length big-endian, the padding length, and a reserved zero.
pub open spec fn header_bytes(kind: u8, id: u16, clen: u16) -> Seq<u8> {
    seq![1u8, kind] + be16(id) + be16(clen) + seq![padding_of(clen as int) as u8, 0u8]
}

/// The length prefix of a name or value: one byte when at most 127,
/// otherwise four big-endian bytes with the first byte's high bit set.
pub open spec fn len_prefix(l: int) -> Seq<u8>
    recommends
        0 <= l <= 0x7fffffff,
{
    if l <= 127 {
        seq![l as u8]
    } else {
        be32((l + 0x80000000) as u32)
    }
}

/// The encoding of one name-value pair: both length prefixes, then the
/// name, then the value.
pub open spec fn pair_bytes(p: (Seq<u8>, Seq<u8>)) -> Seq<u8> {
    len_prefix(p.0.len() as int) + len_prefix(p.1.len() as int) + p.0 + p.1
}

/// The encoding of a list of name-value pairs, in order.
pub open spec fn pairs_bytes(ps: Seq<(Seq<u8>, Seq<u8>)>) -> Seq<u8>
    decreases ps.len(),
{
    if ps.len() == 0 {
        Seq::empty()
    } else {
        pair_bytes(ps[0]) + pairs_bytes(ps.skip(1))
    }
}

/// The content bytes of each kind of record.
pub open spec fn content_model_bytes(c: ContentModel) -> Seq<u8> {
    match c {
        ContentModel::BeginRequest { role, flags } => be16(role_number(role)) + seq![flags]
            + zeros(5),
        ContentModel::AbortRequest => Seq::empty(),
        ContentModel::EndRequest { app_status, protocol_status } => be32(app_status)
            + seq![protocol_status] + zeros(3),
        ContentModel::Params(ps) => pairs_bytes(ps),
        ContentModel::Stdin(d) => d,
        ContentModel::Data(d) => d,
        ContentModel::Stdout(d) => d,
        ContentModel::Stderr(d) => d,
        ContentModel::GetValues(ps) => pairs_bytes(ps),
        ContentModel::GetValuesResult(ps) => pairs_bytes(ps),
        ContentModel::UnknownType(k) => seq![k] + zeros(7),
    }
}

/// Appending one pair to a list appends its encoding to the list's encoding.
pub proof fn lemma_pairs_bytes_push(ps: Seq<(Seq<u8>, Seq<u8>)>, p: (Seq<u8>, Seq<u8>))
    ensures
        pairs_bytes(ps.push(p)) == pairs_bytes(ps) + pair_bytes(p),
    decreases ps.len(),
{
    if ps.len() == 0 {
        assert(ps.push(p)[0] == p);
        assert(ps.push(p).skip(1) =~= Seq::<(Seq<u8>, Seq<u8>)>::empty());
        assert(pairs_bytes(ps) + pair_bytes(p) =~= pair_bytes(p) + pairs_bytes(
            ps.push(p).skip(1),
        ));
    } else {
        assert(ps.push(p).skip(1) =~= ps.skip(1).push(p));
        lemma_pairs_bytes_push(ps.skip(1), p);
        assert(pair_bytes(ps[0]) + (pairs_bytes(ps.skip(1)) + pair_bytes(p)) =~= (pair_bytes(
            ps[0],
        ) + pairs_bytes(ps.skip(1))) + pair_bytes(p));
    }
}

/// The encoding of a list of pairs splits at any index.
pub proof fn lemma_pairs_bytes_split(ps: Seq<(Seq<u8>, Seq<u8>)>, k: int)
    requires
        0 <= k <= ps.len(),
    ensures
        pairs_bytes(ps) == pairs_bytes(ps.take(k)) + pairs_bytes(ps.skip(k)),
    decreases k,
{
    if k == 0 {
        assert(ps.take(0) =~= Seq::<(Seq<u8>, Seq<u8>)>::empty());
        assert(ps.skip(0) =~= ps);
        assert(pairs_bytes(ps.take(0)) + pairs_bytes(ps) =~= pairs_bytes(ps));
    } else {
        assert(ps[0] == ps.take(k)[0]);
        lemma_pairs_bytes_split(ps.skip(1), k - 1);
        assert(ps.take(k).skip(1) =~= ps.skip(1).take(k - 1));
        assert(ps.skip(k) =~= ps.skip(1).skip(k - 1));
        assert(pair_bytes(ps[0]) + (pairs_bytes(ps.skip(1).take(k - 1)) + pairs_bytes(
            ps.skip(k),
        )) =~= (pair_bytes(ps[0]) + pairs_bytes(ps.skip(1).take(k - 1))) + pairs_bytes(ps.skip(k)));
    }
}

/// A record is serializable when its content fits the two-byte length field.
pub open spec fn wf_record_model(r: RecordModel) -> bool {
    content_model_bytes(r.content).len() <= 0xffff
}

/// The full wire encoding of a record: header, content, and zero padding.
pub open spec fn record_model_bytes(r: RecordModel) -> Seq<u8>
    recommends
        wf_record_model(r),
{
    let c = content_model_bytes(r.content);
    header_bytes(model_kind(r.content), r.id, c.len() as u16) + c + zeros(
        padding_of(c.len() as int),
    )
}

/// Every serialized record's total length is a multiple of eight: the
/// padding rounds the content up to the next multiple, and the header
/// itself is eight bytes.
pub proof fn lemma_record_bytes_aligned(r: RecordModel)
    requires
        wf_record_model(r),
    ensures
        record_model_bytes(r).len() % 8 == 0,
{
    let c = content_model_bytes(r.content);
    let l = c.len() as int;
    assert(header_bytes(model_kind(r.content), r.id, c.len() as u16).len() == 8);
    assert(record_model_bytes(r).len() == 8 + l + padding_of(l));
    assert((8 + l + padding_of(l)) % 8 == 0) by {
        if l % 8 != 0 {
            assert((l + (8 - l % 8)) % 8 == 0) by (nonlinear_arith);
        }
    };
}

} // verus!
