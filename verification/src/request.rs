//! Reading the client's request head.
//!
//! The caller owns the socket and its buffer; it refills the buffer and
//! hands each state of it to `examine_buffer`, which decides whether the
//! head is complete, more bytes are wanted, or the request is rejected.
//! Two refills that produce the same length mean the peer went quiet, and
//! a head that outgrows the size bound is refused outright.

use vstd::prelude::*;

use crate::errors::Error;
use crate::headers::{insert_entry, Headers};

verus! {

/// The request header block must fit in this many bytes.
pub const MAX_HEAD_BYTES: usize = 8000;

/// An incoming request from the client: the parsed head plus what the
/// connection knows about its peer. The body stream stays with the caller.
#[derive(Debug)]
pub struct Request {
    method: String,
    path: Vec<u8>,
    headers: Headers,
    remote_addr: String,
    local_port: u16,
}

impl Request {
    /// The request path, normalized as `normalize_path` leaves it.
    pub closed spec fn path_view(&self) -> Seq<u8> {
        self.path@
    }

    /// The request method.
    pub closed spec fn method_view(&self) -> Seq<char> {
        self.method@
    }

    /// The header entries.
    pub closed spec fn headers_view(&self) -> Seq<(Seq<char>, Seq<u8>)> {
        self.headers.entries_view()
    }

    pub closed spec fn headers_wf(&self) -> bool {
        self.headers.wf()
    }

    /// The peer address, as text.
    pub closed spec fn remote_view(&self) -> Seq<char> {
        self.remote_addr@
    }

    /// The local listening port.
    pub closed spec fn port_view(&self) -> u16 {
        self.local_port
    }

    /// Builds a request from its parts.
    pub fn new(
        method: String,
        path: Vec<u8>,
        headers: Headers,
        remote_addr: String,
        local_port: u16,
    ) -> (r: Request)
        ensures
            r.method_view() == method@,
            r.path_view() == path@,
            r.headers_view() == headers.entries_view(),
            r.headers_wf() == headers.wf(),
            r.remote_view() == remote_addr@,
            r.port_view() == local_port,
    {
        Request { method, path, headers, remote_addr, local_port }
    }

    /// The normalized request path.
    pub fn request_uri(&self) -> (r: &Vec<u8>)
        ensures
            r@ == self.path_view(),
    {
        &self.path
    }

    /// The request method.
    #[inline]
    pub fn method(&self) -> (r: &String)
        ensures
            r@ == self.method_view(),
    {
        &self.method
    }

    /// The request headers.
    #[inline]
    pub fn headers(&self) -> (r: &Headers)
        ensures
            r.entries_view() == self.headers_view(),
            r.wf() == self.headers_wf(),
    {
        &self.headers
    }

    /// The peer address, as text.
    pub fn remote_addr(&self) -> (r: &String)
        ensures
            r@ == self.remote_view(),
    {
        &self.remote_addr
    }

    /// The local listening port.
    pub fn local_port(&self) -> (r: u16)
        ensures
            r == self.port_view(),
    {
        self.local_port
    }
}

/// What one look at the buffer decides.
pub enum ParseStep {
    /// The head is complete: it spanned `consumed` bytes of the buffer;
    /// everything after them already belongs to the body.
    Done { consumed: usize, method: String, path: String, headers: Headers },
    /// Nothing decided yet; refill and come back with `seen` as the last
    /// length.
    NeedMore { seen: usize },
    /// The request is refused with this error.
    Reject(Error),
}

/// What the request-head parser said about one buffer.
enum HeadParse {
    Complete { consumed: usize, method: String, path: String, headers: Vec<(String, Vec<u8>)> },
    Partial,
    Bad,
}

/// What the request-head parser makes of a buffer, at the model level:
/// the complete head's fields and byte count, a wish for more input, or a
/// rejection.
pub enum HeadModel {
    Complete {
        consumed: int,
        method: Seq<char>,
        path: Seq<char>,
        headers: Seq<(Seq<char>, Seq<u8>)>,
    },
    Partial,
    Bad,
}

/// What the request-head parser makes of a buffer. Its verdict depends on
/// the buffer's bytes alone; `parse_head` is the one place it is tied to
/// the parser.
pub uninterp spec fn head_of(b: Seq<u8>) -> HeadModel;

/// The views of the parser's raw header pairs, in order.
pub open spec fn raw_headers_view(s: Seq<(String, Vec<u8>)>) -> Seq<(Seq<char>, Seq<u8>)> {
    s.map_values(|e: (String, Vec<u8>)| (e.0@, e.1@))
}

/// Relies on httparse's `Request::parse`, whose result is a function of
/// the buffer alone: it returns the byte offset of the body once the head
/// is complete — never more than the buffer holds, with the method, path
/// and header slots filled in — `Partial` when more input is wanted, and
/// an error on malformed input (or on more headers than the slots hold).
#[verifier::external_body]
fn parse_head(buf: &[u8]) -> (r: HeadParse)
    ensures
        match (r, head_of(buf@)) {
            (
                HeadParse::Complete { consumed, method, path, headers },
                HeadModel::Complete { consumed: sc, method: sm, path: sp, headers: sh },
            ) => consumed == sc && sc <= buf@.len() && method@ == sm && path@ == sp
                && raw_headers_view(headers@) == sh,
            (HeadParse::Partial, HeadModel::Partial) => true,
            (HeadParse::Bad, HeadModel::Bad) => true,
            _ => false,
        },
{
    let mut slots = [httparse::EMPTY_HEADER; 100];
    let mut req = httparse::Request::new(&mut slots);
    match req.parse(buf) {
        Ok(httparse::Status::Complete(consumed)) => {
            let headers =
                req.headers.iter().map(|h| (String::from(h.name), h.value.to_vec())).collect();
            let method = String::from(req.method.unwrap_or(""));
            let path = String::from(req.path.unwrap_or(""));
            HeadParse::Complete { consumed, method, path, headers }
        },
        Ok(httparse::Status::Partial) => HeadParse::Partial,
        Err(_) => HeadParse::Bad,
    }
}

/// The header map built by inserting each parsed header in order, names
/// normalized and repeats folded, as `Headers::insert` does.
pub open spec fn fold_header_inserts(
    entries: Seq<(Seq<char>, Seq<u8>)>,
    hs: Seq<(Seq<char>, Seq<u8>)>,
) -> Seq<(Seq<char>, Seq<u8>)>
    decreases hs.len(),
{
    if hs.len() == 0 {
        entries
    } else {
        fold_header_inserts(insert_entry(entries, hs[0].0, hs[0].1), hs.skip(1))
    }
}

/// One round of the head-reading loop, on the buffer as the last refill
/// left it. A refill that added nothing means the peer stopped mid-head.
/// Otherwise the buffer's verdict decides: a complete head comes back
/// with its fields and the header map built from its headers; a partial
/// head asks for more input, unless the buffer already reached the size
/// bound, which refuses the request; a malformed head is a parse error.
pub fn examine_buffer(buffer: &[u8], last_len: usize) -> (r: ParseStep)
    ensures
        (buffer@.len() == last_len) <==> (r == ParseStep::Reject(Error::RequestIncomplete)),
        buffer@.len() != last_len ==> match head_of(buffer@) {
            HeadModel::Complete { consumed: sc, method: sm, path: sp, headers: sh } => (match r {
                ParseStep::Done { consumed, method, path, headers } => consumed == sc && sc
                    <= buffer@.len() && method@ == sm && path@ == sp && headers.wf()
                    && headers.entries_view() == fold_header_inserts(Seq::empty(), sh),
                _ => false,
            }),
            HeadModel::Partial => (if buffer@.len() >= MAX_HEAD_BYTES {
                r == ParseStep::Reject(Error::RequestLineTooLong)
            } else {
                match r {
                    ParseStep::NeedMore { seen } => seen == buffer@.len(),
                    _ => false,
                }
            }),
            HeadModel::Bad => r == ParseStep::Reject(Error::Parse),
        },
{
    if buffer.len() == last_len {
        return ParseStep::Reject(Error::RequestIncomplete);
    }
    match parse_head(buffer) {
        HeadParse::Complete { consumed, method, path, headers } => {
            let ghost hv = raw_headers_view(headers@);
            let ghost goal = fold_header_inserts(Seq::empty(), hv);
            let mut map = Headers::new();
            proof {
                assert(hv.skip(0) =~= hv);
            }
            let n = headers.len();
            let mut i: usize = 0;
            while i < n
                invariant
                    i <= n,
                    n == headers@.len(),
                    hv == raw_headers_view(headers@),
                    goal == fold_header_inserts(Seq::<(Seq<char>, Seq<u8>)>::empty(), hv),
                    map.wf(),
                    goal == fold_header_inserts(map.entries_view(), hv.skip(i as int)),
                decreases n - i,
            {
                proof {
                    assert(hv[i as int] == (headers@[i as int].0@, headers@[i as int].1@));
                    assert(hv.skip(i as int)[0] == hv[i as int]);
                    assert(hv.skip(i as int).skip(1) =~= hv.skip(i + 1));
                }
                let value = crate::parser::take_range(
                    headers[i].1.as_slice(),
                    0,
                    headers[i].1.len(),
                );
                proof {
                    assert(value@ =~= hv[i as int].1);
                }
                map.insert(headers[i].0.as_str(), value);
                i = i + 1;
            }
            proof {
                assert(hv.skip(n as int) =~= Seq::<(Seq<char>, Seq<u8>)>::empty());
            }
            ParseStep::Done { consumed, method, path, headers: map }
        },
        HeadParse::Partial => {
            if buffer.len() >= MAX_HEAD_BYTES {
                ParseStep::Reject(Error::RequestLineTooLong)
            } else {
                ParseStep::NeedMore { seen: buffer.len() }
            }
        },
        HeadParse::Bad => ParseStep::Reject(Error::Parse),
    }
}

} // verus!
