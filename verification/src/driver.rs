//! The decision logic of the FastCGI driver.
//!
//! Per request the driver assigns a request id, sends `BeginRequest` and
//! the CGI meta-variables, forwards the body, reads the responder's CGI
//! header block out of `Stdout` records, translates it onto the response,
//! and then streams the remaining `Stdout` bytes until `EndRequest`. The
//! functions here decide every step from plain values; the caller moves
//! the bytes over the upstream socket and runs the loops.

use vstd::prelude::*;
use vstd::string::StrSliceExecFns;
use vstd::utf8::{decode_utf8, encode_utf8, valid_utf8};

use crate::cgi::{
    doc_headers, headers_view, spec_doc_headers, DocumentHeaders, DocumentModel, HeaderModel,
    Parsed, ParsedModel,
};
use crate::errors::Error;
use crate::fastcgi::{record_model_bytes, ContentModel, Record, RecordModel, Role, KEEP_CONN};
use crate::headers::{chars_to_string, insert_entry, normalize_name, upper_char, find_key};
use crate::parser::take_range;
use crate::request::Request;
use crate::response::{dec_digits, push_dec, Fresh, Response};
use crate::serializer::{params, params_stream_bytes, params_wf, start_request, tuples_view};

verus! {

/// The next request id: the counter plus one, used as the 16-bit id, with
/// the counter kept within a byte.
pub fn next_request_id(prev: usize) -> (r: (u16, usize))
    requires
        prev <= 0xff,
    ensures
        r.0 == prev + 1,
        r.1 == (if prev + 1 <= 0xff {
            prev + 1
        } else {
            0
        }),
{
    let id = (prev + 1) as u16;
    let next = if prev + 1 <= 0xff {
        prev + 1
    } else {
        0
    };
    (id, next)
}

/// A meta-variable name's character after translation: hyphens become
/// underscores and letters upper-case.
pub open spec fn http_char(c: char) -> char {
    if c == '-' {
        '_'
    } else {
        upper_char(c)
    }
}

/// The `HTTP_` meta-variable name of a request header.
pub open spec fn http_var_name(name: Seq<char>) -> Seq<u8> {
    encode_utf8("HTTP_"@ + name.map_values(|c: char| http_char(c)))
}

/// Every request header as an `HTTP_` meta-variable, in order.
pub open spec fn http_pairs(entries: Seq<(Seq<char>, Seq<u8>)>) -> Seq<(Seq<u8>, Seq<u8>)> {
    entries.map_values(|e: (Seq<char>, Seq<u8>)| (http_var_name(e.0), e.1))
}

/// The first position at or after `i` holding a question mark, or the
/// length.
pub open spec fn find_qmark(s: Seq<u8>, i: int) -> int
    decreases s.len() - i,
{
    if i < 0 || i >= s.len() {
        s.len() as int
    } else if s[i] == 0x3f {
        i
    } else {
        find_qmark(s, i + 1)
    }
}

/// The query string: everything from the first `?` onward, or nothing.
pub open spec fn query_string_of(uri: Seq<u8>) -> Seq<u8> {
    let j = find_qmark(uri, 0);
    if j >= uri.len() {
        Seq::empty()
    } else {
        uri.skip(j)
    }
}

/// The request-uri joined under the webroot, any leading slash of the uri
/// stripped.
pub open spec fn translated_path(webroot: Seq<u8>, uri: Seq<u8>) -> Seq<u8> {
    webroot + seq![0x2fu8] + (if uri.len() > 0 && uri[0] == 0x2f {
        uri.skip(1)
    } else {
        uri
    })
}

/// The `Host` header's value, or nothing.
pub open spec fn server_name_of(entries: Seq<(Seq<char>, Seq<u8>)>) -> Seq<u8> {
    let f = find_key(entries, normalize_name("Host"@));
    if f < 0 {
        Seq::empty()
    } else {
        entries[f].1
    }
}

/// The CGI/1.1 meta-variable set of one request: the fixed twelve
/// variables, then one `HTTP_` variable per request header.
pub open spec fn spec_metavars(
    uri: Seq<u8>,
    method: Seq<char>,
    entries: Seq<(Seq<char>, Seq<u8>)>,
    remote: Seq<char>,
    port: u16,
    webroot: Seq<u8>,
) -> Seq<(Seq<u8>, Seq<u8>)> {
    seq![
        (encode_utf8("GATEWAY_INTERFACE"@), encode_utf8("CGI/1.1"@)),
        (encode_utf8("PATH_INFO"@), uri),
        (encode_utf8("PATH_TRANSLATED"@), translated_path(webroot, uri)),
        (encode_utf8("QUERY_STRING"@), query_string_of(uri)),
        (encode_utf8("REMOTE_ADDR"@), encode_utf8(remote)),
        (encode_utf8("REMOTE_HOST"@), encode_utf8(remote)),
        (encode_utf8("REQUEST_METHOD"@), encode_utf8(method)),
        (encode_utf8("SCRIPT_NAME"@), Seq::<u8>::empty()),
        (encode_utf8("SERVER_NAME"@), server_name_of(entries)),
        (encode_utf8("SERVER_PORT"@), dec_digits(port as int)),
        (encode_utf8("SERVER_PROTOCOL"@), encode_utf8("HTTP/1.1"@)),
        (
            encode_utf8("SERVER_SOFTWARE"@),
            encode_utf8("toy http-server 0.2 (hella unstable)"@),
        ),
    ] + http_pairs(entries)
}

fn http_char_exec(c: char) -> (r: char)
    ensures
        r == http_char(c),
{
    let u = c as u32;
    if u == 0x2d {
        '_'
    } else if 97 <= u && u <= 122 {
        ((u - 32) as u8) as char
    } else {
        c
    }
}

/// The `HTTP_` meta-variable name of one request header name.
fn http_name_exec(name: &String) -> (r: Vec<u8>)
    ensures
        r@ == http_var_name(name@),
{
    let n = name.as_str().unicode_len();
    let mut chars: Vec<char> = Vec::new();
    chars.push('H');
    chars.push('T');
    chars.push('T');
    chars.push('P');
    chars.push('_');
    let ghost mapped = name@.map_values(|c: char| http_char(c));
    proof {
        assert(chars@ =~= "HTTP_"@ + mapped.take(0)) by {
            reveal_strlit("HTTP_");
            assert(mapped.take(0) =~= Seq::<char>::empty());
        }
    }
    let mut i: usize = 0;
    while i < n
        invariant
            i <= n,
            n == name@.len(),
            mapped == name@.map_values(|c: char| http_char(c)),
            chars@ == "HTTP_"@ + mapped.take(i as int),
        decreases n - i,
    {
        let c = http_char_exec(name.as_str().get_char(i));
        proof {
            assert(mapped[i as int] == http_char(name@[i as int]));
            assert(mapped.take(i + 1) =~= mapped.take(i as int).push(mapped[i as int]));
            assert(("HTTP_"@ + mapped.take(i as int)).push(mapped[i as int]) =~= "HTTP_"@
                + mapped.take(i + 1));
        }
        chars.push(c);
        i = i + 1;
    }
    proof {
        assert(mapped.take(n as int) =~= mapped);
    }
    let s = chars_to_string(&chars);
    s.as_str().as_bytes_vec()
}

/// Builds the CGI meta-variable set of one request, ready for `params`.
pub fn build_metavars(req: &Request, webroot: &Vec<u8>) -> (r: Vec<(Vec<u8>, Vec<u8>)>)
    ensures
        tuples_view(r@) == spec_metavars(
            req.path_view(),
            req.method_view(),
            req.headers_view(),
            req.remote_view(),
            req.port_view(),
            webroot@,
        ),
{
    let ghost goal = spec_metavars(
        req.path_view(),
        req.method_view(),
        req.headers_view(),
        req.remote_view(),
        req.port_view(),
        webroot@,
    );
    let uri = req.request_uri();
    let mut vars: Vec<(Vec<u8>, Vec<u8>)> = Vec::new();

    vars.push(("GATEWAY_INTERFACE".as_bytes_vec(), "CGI/1.1".as_bytes_vec()));
    vars.push(("PATH_INFO".as_bytes_vec(), take_range(uri.as_slice(), 0, uri.len())));

    // PATH_TRANSLATED
    let mut translated = take_range(webroot.as_slice(), 0, webroot.len());
    translated.push(0x2f);
    if uri.len() > 0 && uri[0] == 0x2f {
        let mut rest = take_range(uri.as_slice(), 1, uri.len() - 1);
        proof {
            assert(rest@ =~= req.path_view().skip(1));
        }
        translated.append(&mut rest);
    } else {
        let mut rest = take_range(uri.as_slice(), 0, uri.len());
        translated.append(&mut rest);
    }
    proof {
        assert(translated@ =~= translated_path(webroot@, req.path_view()));
    }
    vars.push(("PATH_TRANSLATED".as_bytes_vec(), translated));

    // QUERY_STRING
    let un = uri.len();
    let mut q: usize = 0;
    while q < un && uri[q] != 0x3f
        invariant
            q <= un,
            un == req.path_view().len(),
            uri@ == req.path_view(),
            find_qmark(req.path_view(), 0) == find_qmark(req.path_view(), q as int),
        decreases un - q,
    {
        q = q + 1;
    }
    let query = take_range(uri.as_slice(), q, un - q);
    proof {
        assert(find_qmark(req.path_view(), q as int) == q || q == un);
        assert(query@ =~= query_string_of(req.path_view()));
    }
    vars.push(("QUERY_STRING".as_bytes_vec(), query));

    let remote1 = req.remote_addr().as_str().as_bytes_vec();
    let remote2 = req.remote_addr().as_str().as_bytes_vec();
    vars.push(("REMOTE_ADDR".as_bytes_vec(), remote1));
    vars.push(("REMOTE_HOST".as_bytes_vec(), remote2));
    vars.push(("REQUEST_METHOD".as_bytes_vec(), req.method().as_str().as_bytes_vec()));
    vars.push(("SCRIPT_NAME".as_bytes_vec(), Vec::new()));

    let host = match req.headers().get("Host") {
        Some(v) => take_range(v.as_slice(), 0, v.len()),
        None => Vec::new(),
    };
    proof {
        assert(host@ =~= server_name_of(req.headers_view()));
    }
    vars.push(("SERVER_NAME".as_bytes_vec(), host));

    let mut port_text: Vec<u8> = Vec::new();
    push_dec(&mut port_text, req.local_port() as u64);
    proof {
        assert(port_text@ =~= dec_digits(req.port_view() as int));
    }
    vars.push(("SERVER_PORT".as_bytes_vec(), port_text));
    vars.push(("SERVER_PROTOCOL".as_bytes_vec(), "HTTP/1.1".as_bytes_vec()));
    vars.push(
        (
            "SERVER_SOFTWARE".as_bytes_vec(),
            "toy http-server 0.2 (hella unstable)".as_bytes_vec(),
        ),
    );
    proof {
        assert(tuples_view(vars@) =~~= goal.take(12));
    }

    // one HTTP_ variable per request header
    let headers = req.headers();
    let hn = headers.len();
    let mut i: usize = 0;
    while i < hn
        invariant
            i <= hn,
            hn == req.headers_view().len(),
            headers.entries_view() == req.headers_view(),
            goal == spec_metavars(
                req.path_view(),
                req.method_view(),
                req.headers_view(),
                req.remote_view(),
                req.port_view(),
                webroot@,
            ),
            tuples_view(vars@) == goal.take(12 + i as int),
        decreases hn - i,
    {
        let name = headers.name_at(i);
        let value = headers.value_at(i);
        let var_name = http_name_exec(name);
        let var_value = take_range(value.as_slice(), 0, value.len());
        proof {
            let ghost e = req.headers_view()[i as int];
            assert(http_pairs(req.headers_view())[i as int] == (http_var_name(e.0), e.1));
            assert(goal[12 + i as int] == (http_var_name(e.0), e.1));
            assert(var_value@ =~= e.1);
            assert((var_name@, var_value@) == goal[12 + i as int]);
            assert(tuples_view(vars@.push((var_name, var_value))) =~~= tuples_view(vars@).push(
                (var_name@, var_value@),
            ));
            assert(goal.take(12 + i as int).push(goal[12 + i as int]) =~= goal.take(
                12 + i + 1,
            ));
        }
        vars.push((var_name, var_value));
        i = i + 1;
    }
    proof {
        assert(goal.take(12 + hn as int) =~= goal);
    }
    vars
}

/// Opens the logical request: one `BeginRequest` record for the Responder
/// role with `KEEP_CONN`, then the whole meta-variable stream. Nothing is
/// appended when the set cannot be serialized.
pub fn initialize_request(out: &mut Vec<u8>, request_number: u16, req: &Request, webroot: &Vec<
    u8,
>) -> (r: Result<(), Error>)
    ensures
        ({
            let vars = spec_metavars(
                req.path_view(),
                req.method_view(),
                req.headers_view(),
                req.remote_view(),
                req.port_view(),
                webroot@,
            );
            if params_wf(vars) {
                match r {
                    Ok(_) => final(out)@ == old(out)@ + record_model_bytes(
                        RecordModel {
                            id: request_number,
                            content: ContentModel::BeginRequest {
                                role: Role::Responder,
                                flags: KEEP_CONN,
                            },
                        },
                    ) + params_stream_bytes(request_number, vars),
                    Err(_) => false,
                }
            } else {
                match r {
                    Ok(_) => false,
                    Err(e) => e == Error::Serialization(
                        crate::errors::SerializationError::TooLong,
                    ) && final(out)@ == old(out)@,
                }
            }
        }),
{
    let metavars = build_metavars(req, webroot);
    let mut body: Vec<u8> = Vec::new();
    match params(&mut body, request_number, &metavars) {
        Ok(_) => {
            start_request(out, request_number);
            let mut body = body;
            out.append(&mut body);
            Ok(())
        },
        Err(e) => Err(e),
    }
}

/// What the driver does with one upstream record while it is reading the
/// responder's CGI header block.
#[derive(Debug)]
pub enum HeaderStep {
    /// The block is not complete yet; keep reading records.
    NeedMore,
    /// The block is complete: the parsed headers, and the bytes past the
    /// blank line, which are the first bytes of the response body.
    HeadersDone { doc: DocumentHeaders, residue: Vec<u8> },
    /// An error message from the responder, to be logged.
    Stderr(Vec<u8>),
    /// A record the driver cannot accept here: a foreign request id, an
    /// unexpected record type, or a CGI block that cannot parse.
    Violation,
}

/// The driver's buffer of responder output while the header block is
/// read.
pub struct HeaderPhase {
    buffer: Vec<u8>,
}

impl HeaderPhase {
    /// The responder output collected so far.
    pub closed spec fn buffered(&self) -> Seq<u8> {
        self.buffer@
    }

    pub fn new() -> (r: HeaderPhase)
        ensures
            r.buffered() == Seq::<u8>::empty(),
    {
        let r = HeaderPhase { buffer: Vec::new() };
        proof {
            assert(r.buffered() =~= Seq::<u8>::empty());
        }
        r
    }

    /// Takes one upstream record. `Stdout` bytes join the buffer, which
    /// is then tried as a CGI header block; `Stderr` is handed back for
    /// the log; anything else — including a record for another request —
    /// is a protocol violation.
    pub fn on_record(&mut self, rec: Record, request_id: u16) -> (r: HeaderStep)
        ensures
            rec@.id != request_id ==> r is Violation && final(self).buffered() == old(
                self,
            ).buffered(),
            rec@.id == request_id ==> match rec@.content {
                ContentModel::Stdout(d) => {
                    let nb = old(self).buffered() + d;
                    match spec_doc_headers(nb) {
                        ParsedModel::Done { rest, value } => (match r {
                            HeaderStep::HeadersDone { doc, residue } => doc@ == value && residue@
                                == nb.skip(rest),
                            _ => false,
                        }),
                        ParsedModel::Incomplete { .. } => r is NeedMore && final(self).buffered()
                            == nb,
                        ParsedModel::Failed => r is Violation,
                    }
                },
                ContentModel::Stderr(d) => (match r {
                    HeaderStep::Stderr(m) => m@ == d,
                    _ => false,
                }),
                _ => r is Violation,
            },
    {
        let Record { id, content } = rec;
        if id != request_id {
            return HeaderStep::Violation;
        }
        match content {
            crate::fastcgi::Content::Stdout(d) => {
                let mut d = d;
                self.buffer.append(&mut d);
                match doc_headers(self.buffer.as_slice()) {
                    Parsed::Done { rest, value } => {
                        let residue = take_range(
                            self.buffer.as_slice(),
                            rest,
                            self.buffer.len() - rest,
                        );
                        proof {
                            assert(residue@ =~= self.buffer@.skip(rest as int));
                        }
                        HeaderStep::HeadersDone { doc: value, residue }
                    },
                    Parsed::Incomplete { .. } => HeaderStep::NeedMore,
                    Parsed::Failed => HeaderStep::Violation,
                }
            },
            crate::fastcgi::Content::Stderr(d) => HeaderStep::Stderr(d),
            _ => HeaderStep::Violation,
        }
    }
}

/// What the driver does with one upstream record while the body streams.
#[derive(Debug)]
pub enum BodyStep {
    /// Responder output to write to the client.
    Forward(Vec<u8>),
    /// An error message from the responder, to be logged.
    Log(Vec<u8>),
    /// The request is over, with the responder's closing statuses.
    Finish { app_status: u32, protocol_status: u8 },
    /// A record the driver cannot accept here.
    Violation,
}

/// Classifies one upstream record of the body phase.
pub fn body_step(rec: Record, request_id: u16) -> (r: BodyStep)
    ensures
        rec@.id != request_id ==> r is Violation,
        rec@.id == request_id ==> match rec@.content {
            ContentModel::Stdout(d) => (match r {
                BodyStep::Forward(v) => v@ == d,
                _ => false,
            }),
            ContentModel::Stderr(d) => (match r {
                BodyStep::Log(v) => v@ == d,
                _ => false,
            }),
            ContentModel::EndRequest { app_status, protocol_status } => r == (BodyStep::Finish {
                app_status,
                protocol_status,
            }),
            _ => r is Violation,
        },
{
    let Record { id, content } = rec;
    if id != request_id {
        return BodyStep::Violation;
    }
    match content {
        crate::fastcgi::Content::Stdout(d) => BodyStep::Forward(d),
        crate::fastcgi::Content::Stderr(d) => BodyStep::Log(d),
        crate::fastcgi::Content::EndRequest(e) => BodyStep::Finish {
            app_status: e.app_status,
            protocol_status: e.protocol_status,
        },
        _ => BodyStep::Violation,
    }
}

/// Turns bytes into a string.
///
/// Relies on `String::from_utf8`: it succeeds exactly on valid UTF-8, and
/// the string it returns encodes back to the given bytes.
#[verifier::external_body]
fn utf8_string(v: Vec<u8>) -> (r: Option<String>)
    ensures
        match r {
            Some(s) => valid_utf8(v@) && encode_utf8(s@) == v@,
            None => !valid_utf8(v@),
        },
{
    match String::from_utf8(v) {
        Ok(s) => Some(s),
        Err(_) => None,
    }
}

/// The header entries after every header of the block is inserted; a name
/// that is not text fails.
pub open spec fn fold_doc_headers(
    entries: Seq<(Seq<char>, Seq<u8>)>,
    hs: Seq<HeaderModel>,
) -> Result<Seq<(Seq<char>, Seq<u8>)>, Error>
    decreases hs.len(),
{
    if hs.len() == 0 {
        Ok(entries)
    } else if !valid_utf8(hs[0].name) {
        Err(Error::FromUtf8)
    } else {
        fold_doc_headers(
            insert_entry(entries, decode_utf8(hs[0].name), hs[0].content),
            hs.skip(1),
        )
    }
}

/// How a CGI header block lands on a response: the content type becomes
/// `Content-Type`, the status line (if any) replaces the response status,
/// and every other header is copied over; a reason phrase or header name
/// that is not text fails.
pub open spec fn apply_doc_spec(
    entries: Seq<(Seq<char>, Seq<u8>)>,
    status: (u16, Seq<char>),
    doc: DocumentModel,
) -> Result<(Seq<(Seq<char>, Seq<u8>)>, (u16, Seq<char>)), Error> {
    let e1 = insert_entry(entries, "Content-Type"@, doc.content_type.content);
    let new_status = match doc.status {
        Some(st) => if valid_utf8(st.reason_phrase) {
            Ok((st.code, decode_utf8(st.reason_phrase)))
        } else {
            Err(Error::FromUtf8)
        },
        None => Ok(status),
    };
    match new_status {
        Err(e) => Err(e),
        Ok(st) => match fold_doc_headers(e1, doc.headers) {
            Err(e) => Err(e),
            Ok(e2) => Ok((e2, st)),
        },
    }
}

/// Translates a parsed CGI header block onto a fresh response, as
/// `apply_doc_spec` says.
pub fn apply_document_headers(res: &mut Response<Fresh>, doc: DocumentHeaders) -> (r: Result<
    (),
    Error,
>)
    requires
        old(res).headers_wf(),
    ensures
        final(res).headers_wf(),
        final(res).out_view() == old(res).out_view(),
        final(res).buffered() == old(res).buffered(),
        final(res).chunk_cap() == old(res).chunk_cap(),
        final(res).wf() == old(res).wf(),
        ({
            match (r, apply_doc_spec(old(res).headers_map(), old(res).status_view(), doc@)) {
                (Result::Ok(_), Result::Ok(applied)) => final(res).headers_map() == applied.0
                    && final(res).status_view() == applied.1,
                (Result::Err(e), Result::Err(se)) => e == se,
                _ => false,
            }
        }),
{
    let ct = take_range(doc.content_type.content.as_slice(), 0, doc.content_type.content.len());
    proof {
        assert(ct@ =~= doc@.content_type.content);
    }
    res.insert_header("Content-Type", ct);
    match &doc.status {
        Some(st) => {
            let reason_bytes = take_range(st.reason_phrase.as_slice(), 0, st.reason_phrase.len());
            proof {
                assert(reason_bytes@ =~= st.reason_phrase@);
            }
            match utf8_string(reason_bytes) {
                Some(reason) => {
                    proof {
                        vstd::utf8::encode_utf8_decode_utf8(reason@);
                    }
                    res.set_status(st.code, reason);
                },
                None => {
                    return Err(Error::FromUtf8);
                },
            }
        },
        None => {},
    }
    let ghost hv = headers_view(doc.headers@);
    let ghost goal = fold_doc_headers(res.headers_map(), hv);
    let n = doc.headers.len();
    let mut i: usize = 0;
    proof {
        assert(hv.skip(0) =~= hv);
    }
    let ghost status0 = res.status_view();
    let ghost out0 = res.out_view();
    let ghost buf0 = res.buffered();
    proof {
        assert(apply_doc_spec(old(res).headers_map(), old(res).status_view(), doc@) == (
        match goal {
            Ok(e2) => Ok::<(Seq<(Seq<char>, Seq<u8>)>, (u16, Seq<char>)), Error>((e2, status0)),
            Err(e) => Err(e),
        }));
    }
    while i < n
        invariant
            i <= n,
            n == doc.headers@.len(),
            hv == headers_view(doc.headers@),
            hv == doc@.headers,
            res.headers_wf(),
            res.status_view() == status0,
            res.out_view() == out0,
            res.buffered() == buf0,
            out0 == old(res).out_view(),
            buf0 == old(res).buffered(),
            res.chunk_cap() == old(res).chunk_cap(),
            res.wf() == old(res).wf(),
            goal == fold_doc_headers(res.headers_map(), hv.skip(i as int)),
            apply_doc_spec(old(res).headers_map(), old(res).status_view(), doc@) == (match goal {
                Ok(e2) => Ok::<(Seq<(Seq<char>, Seq<u8>)>, (u16, Seq<char>)), Error>(
                    (e2, status0),
                ),
                Err(e) => Err(e),
            }),
        decreases n - i,
    {
        proof {
            assert(hv[i as int] == doc.headers@[i as int]@);
            assert(hv.skip(i as int)[0] == hv[i as int]);
            assert(hv.skip(i as int).skip(1) =~= hv.skip(i + 1));
        }
        let name = take_range(doc.headers[i].name.as_slice(), 0, doc.headers[i].name.len());
        let value = take_range(
            doc.headers[i].content.as_slice(),
            0,
            doc.headers[i].content.len(),
        );
        proof {
            assert(name@ =~= hv[i as int].name);
            assert(value@ =~= hv[i as int].content);
        }
        match utf8_string(name) {
            Some(name_text) => {
                proof {
                    vstd::utf8::encode_utf8_decode_utf8(name_text@);
                    assert(decode_utf8(hv[i as int].name) == name_text@);
                }
                res.insert_header(name_text.as_str(), value);
            },
            None => {
                return Err(Error::FromUtf8);
            },
        }
        i = i + 1;
    }
    proof {
        assert(hv.skip(n as int) =~= Seq::<HeaderModel>::empty());
    }
    Ok(())
}

} // verus!
