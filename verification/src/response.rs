//! The response being constructed by a handler.
//!
//! The type parameter says where in its cycle a response is. While it is
//! `Fresh`, nothing has been produced for the client and the status and
//! headers can still change. `start` commits them: it emits the status
//! line and header block and hands back a `Streaming` response, whose
//! writes are buffered into chunks of the chunked transfer-encoding, and
//! which must be closed with `finish` to emit the terminating chunk.
//!
//! The response collects its output bytes; the caller drains them to the
//! client socket.

use core::marker::PhantomData;

use vstd::prelude::*;
use vstd::string::StrSliceExecFns;
use vstd::string::StringExecFns;
use vstd::string::StringSliceAdditionalSpecFns;
use vstd::utf8::encode_utf8;

use crate::headers::{insert_entry, normalize_name, Headers};

verus! {

/// A marker for `Response`, indicating nothing has been sent to the client.
pub struct Fresh;

/// A marker for `Response`, indicating headers have been sent and writes
/// will be sent in chunks.
pub struct Streaming;

/// The decimal digits of a number, most significant first.
pub open spec fn dec_digits(n: int) -> Seq<u8>
    recommends
        n >= 0,
    decreases n,
{
    if n < 10 {
        seq![(0x30 + if n >= 0 {
            n
        } else {
            0
        }) as u8]
    } else {
        dec_digits(n / 10).push((0x30 + n % 10) as u8)
    }
}

/// One lowercase hex digit.
pub open spec fn hex_digit(d: int) -> u8
    recommends
        0 <= d < 16,
{
    if d < 10 {
        (0x30 + d) as u8
    } else {
        (0x57 + d) as u8
    }
}

/// The lowercase hex digits of a number, most significant first.
pub open spec fn hex_digits(n: int) -> Seq<u8>
    recommends
        n >= 0,
    decreases n,
{
    if n < 16 {
        seq![hex_digit(if n >= 0 {
            n
        } else {
            0
        })]
    } else {
        hex_digits(n / 16).push(hex_digit(n % 16))
    }
}

/// A carriage return and a line feed.
pub open spec fn crlf() -> Seq<u8> {
    seq![0x0du8, 0x0au8]
}

/// The bytes of `"HTTP/1.1 "`.
pub open spec fn http11_prefix() -> Seq<u8> {
    seq![0x48u8, 0x54, 0x54, 0x50, 0x2f, 0x31, 0x2e, 0x31, 0x20]
}

/// The status line: `HTTP/1.1 {code} {reason}` and a line end.
pub open spec fn status_line_bytes(code: u16, reason: Seq<char>) -> Seq<u8> {
    http11_prefix() + dec_digits(code as int) + seq![0x20u8] + encode_utf8(reason) + crlf()
}

/// One emitted header line: `{name}: {value}` and a line end.
pub open spec fn header_line_bytes(name: Seq<char>, value: Seq<u8>) -> Seq<u8> {
    encode_utf8(name) + seq![0x3au8, 0x20u8] + value + crlf()
}

/// The emitted header lines, in insertion order.
pub open spec fn header_lines_bytes(entries: Seq<(Seq<char>, Seq<u8>)>) -> Seq<u8>
    decreases entries.len(),
{
    if entries.len() == 0 {
        Seq::empty()
    } else {
        header_line_bytes(entries[0].0, entries[0].1) + header_lines_bytes(entries.skip(1))
    }
}

/// Everything written before the body: status line, header lines, and the
/// blank line that separates them from the body.
pub open spec fn head_bytes(
    code: u16,
    reason: Seq<char>,
    entries: Seq<(Seq<char>, Seq<u8>)>,
) -> Seq<u8> {
    status_line_bytes(code, reason) + header_lines_bytes(entries) + crlf()
}

/// One frame of the chunked transfer-encoding: the payload length in hex,
/// a line end, the payload, a line end.
pub open spec fn chunk_frame(b: Seq<u8>) -> Seq<u8> {
    hex_digits(b.len() as int) + crlf() + b + crlf()
}

/// A flush emits nothing for an empty buffer, one chunk otherwise.
pub open spec fn chunk_or_empty(b: Seq<u8>) -> Seq<u8> {
    if b.len() == 0 {
        Seq::empty()
    } else {
        chunk_frame(b)
    }
}

/// The last chunk of a stream: a zero-length chunk and the empty trailer
/// line.
pub open spec fn stream_terminator() -> Seq<u8> {
    seq![0x30u8, 0x0d, 0x0a, 0x0d, 0x0a]
}

/// The bytes of `"Chunked"`.
pub open spec fn chunked_value() -> Seq<u8> {
    seq![0x43u8, 0x68, 0x75, 0x6e, 0x6b, 0x65, 0x64]
}

/// Appending one entry appends its header line.
pub proof fn lemma_header_lines_push(
    entries: Seq<(Seq<char>, Seq<u8>)>,
    e: (Seq<char>, Seq<u8>),
)
    ensures
        header_lines_bytes(entries.push(e)) == header_lines_bytes(entries) + header_line_bytes(
            e.0,
            e.1,
        ),
    decreases entries.len(),
{
    if entries.len() == 0 {
        assert(entries.push(e)[0] == e);
        assert(entries.push(e).skip(1) =~= Seq::<(Seq<char>, Seq<u8>)>::empty());
        assert(header_lines_bytes(entries) + header_line_bytes(e.0, e.1) =~= header_line_bytes(
            e.0,
            e.1,
        ) + header_lines_bytes(entries.push(e).skip(1)));
    } else {
        assert(entries.push(e).skip(1) =~= entries.skip(1).push(e));
        lemma_header_lines_push(entries.skip(1), e);
        assert(header_line_bytes(entries[0].0, entries[0].1) + (header_lines_bytes(
            entries.skip(1),
        ) + header_line_bytes(e.0, e.1)) =~= (header_line_bytes(entries[0].0, entries[0].1)
            + header_lines_bytes(entries.skip(1))) + header_line_bytes(e.0, e.1));
    }
}

/// Appends the decimal digits of a number.
pub fn push_dec(out: &mut Vec<u8>, x: u64)
    ensures
        final(out)@ == old(out)@ + dec_digits(x as int),
    decreases x,
{
    if x < 10 {
        out.push(0x30 + x as u8);
        proof {
            assert(out@ =~= old(out)@ + dec_digits(x as int));
        }
    } else {
        push_dec(out, x / 10);
        out.push(0x30 + (x % 10) as u8);
        proof {
            assert(out@ =~= old(out)@ + dec_digits(x as int));
        }
    }
}

/// Appends the lowercase hex digits of a number.
pub fn push_hex(out: &mut Vec<u8>, x: u64)
    ensures
        final(out)@ == old(out)@ + hex_digits(x as int),
    decreases x,
{
    if x < 16 {
        let d = x as u8;
        out.push(
            if d < 10 {
                0x30 + d
            } else {
                0x57 + d
            },
        );
        proof {
            assert(out@ =~= old(out)@ + hex_digits(x as int));
        }
    } else {
        push_hex(out, x / 16);
        let d = (x % 16) as u8;
        out.push(
            if d < 10 {
                0x30 + d
            } else {
                0x57 + d
            },
        );
        proof {
            assert(out@ =~= old(out)@ + hex_digits(x as int));
        }
    }
}

/// Appends a carriage return and a line feed.
fn push_crlf(out: &mut Vec<u8>)
    ensures
        final(out)@ == old(out)@ + crlf(),
{
    out.push(0x0d);
    out.push(0x0a);
    proof {
        assert(out@ =~= old(out)@ + crlf());
    }
}

/// The response being constructed by a handler; see the module text for
/// the fresh/streaming discipline.
pub struct Response<State> {
    out: Vec<u8>,
    buffer: Vec<u8>,
    cap: usize,
    status_code: u16,
    reason: String,
    headers: Headers,
    state: PhantomData<State>,
}

impl<State> Response<State> {
    /// The bytes produced for the client so far and not yet drained.
    pub closed spec fn out_view(&self) -> Seq<u8> {
        self.out@
    }

    /// The body bytes held back in the chunk buffer.
    pub closed spec fn buffered(&self) -> Seq<u8> {
        self.buffer@
    }

    /// The chunk buffer's capacity.
    pub closed spec fn chunk_cap(&self) -> int {
        self.cap as int
    }

    /// The status code and reason phrase.
    pub closed spec fn status_view(&self) -> (u16, Seq<char>) {
        (self.status_code, self.reason@)
    }

    /// The response headers as (name, value) entries in insertion order.
    pub closed spec fn headers_map(&self) -> Seq<(Seq<char>, Seq<u8>)> {
        self.headers.entries_view()
    }

    /// The chunk buffer never exceeds its capacity.
    pub open spec fn wf(&self) -> bool {
        self.buffered().len() <= self.chunk_cap()
    }

    /// The header map holds one entry per normalized name.
    pub closed spec fn headers_wf(&self) -> bool {
        self.headers.wf()
    }

    /// Writes the status line, the header lines, and the separating blank
    /// line.
    fn write_head(&mut self)
        ensures
            final(self).out_view() == old(self).out_view() + head_bytes(
                old(self).status_view().0,
                old(self).status_view().1,
                old(self).headers_map(),
            ),
            final(self).buffered() == old(self).buffered(),
            final(self).chunk_cap() == old(self).chunk_cap(),
            final(self).status_view() == old(self).status_view(),
            final(self).headers_map() == old(self).headers_map(),
            final(self).headers_wf() == old(self).headers_wf(),
            final(self).wf() == old(self).wf(),
    {
        let ghost out0 = self.out@;
        let ghost entries = self.headers.entries_view();

        // status line
        self.out.push(0x48);
        self.out.push(0x54);
        self.out.push(0x54);
        self.out.push(0x50);
        self.out.push(0x2f);
        self.out.push(0x31);
        self.out.push(0x2e);
        self.out.push(0x31);
        self.out.push(0x20);
        push_dec(&mut self.out, self.status_code as u64);
        self.out.push(0x20);
        let reason_bytes = self.reason.as_str().as_bytes();
        self.out.extend_from_slice(reason_bytes);
        push_crlf(&mut self.out);
        proof {
            assert(self.out@ =~= out0 + status_line_bytes(self.status_code, self.reason@));
        }

        // header lines
        let ghost out1 = self.out@;
        let n = self.headers.len();
        let mut i: usize = 0;
        proof {
            assert(entries.take(0) =~= Seq::<(Seq<char>, Seq<u8>)>::empty());
            assert(out1 + Seq::<u8>::empty() =~= out1);
        }
        while i < n
            invariant
                i <= n,
                n == entries.len(),
                entries == self.headers.entries_view(),
                self.headers == old(self).headers,
                self.status_code == old(self).status_code,
                self.reason == old(self).reason,
                self.buffer == old(self).buffer,
                self.cap == old(self).cap,
                out1 == out0 + status_line_bytes(old(self).status_code, old(self).reason@),
                out0 == old(self).out@,
                self.out@ == out1 + header_lines_bytes(entries.take(i as int)),
            decreases n - i,
        {
            let ghost before = self.out@;
            let name = self.headers.name_at(i);
            let name_bytes = name.as_str().as_bytes();
            self.out.extend_from_slice(name_bytes);
            self.out.push(0x3a);
            self.out.push(0x20);
            let value = self.headers.value_at(i);
            self.out.extend_from_slice(value.as_slice());
            push_crlf(&mut self.out);
            proof {
                assert(self.out@ =~= before + header_line_bytes(
                    entries[i as int].0,
                    entries[i as int].1,
                ));
                assert(entries.take(i + 1) =~= entries.take(i as int).push(entries[i as int]));
                lemma_header_lines_push(entries.take(i as int), entries[i as int]);
                assert(self.out@ =~= out1 + header_lines_bytes(entries.take(i + 1)));
            }
            i = i + 1;
        }
        proof {
            assert(entries.take(n as int) =~= entries);
        }

        push_crlf(&mut self.out);
        proof {
            assert(self.out@ =~= out0 + head_bytes(self.status_code, self.reason@, entries));
        }
    }
}

impl Response<Fresh> {
    /// A fresh response: status 200 "Ok", no headers, nothing produced.
    pub fn new() -> (r: Response<Fresh>)
        ensures
            r.wf(),
            r.headers_wf(),
            r.out_view() == Seq::<u8>::empty(),
            r.buffered() == Seq::<u8>::empty(),
            r.chunk_cap() == 0,
            r.status_view() == (200u16, "Ok"@),
            r.headers_map() == Seq::<(Seq<char>, Seq<u8>)>::empty(),
    {
        let r = Response {
            out: Vec::new(),
            buffer: Vec::new(),
            cap: 0,
            status_code: 200,
            reason: String::from_str("Ok"),
            headers: Headers::new(),
            state: PhantomData,
        };
        proof {
            assert(r.out_view() =~= Seq::<u8>::empty());
            assert(r.buffered() =~= Seq::<u8>::empty());
        }
        r
    }

    /// Replaces the status line's code and reason phrase.
    pub fn set_status(&mut self, code: u16, reason: String)
        ensures
            final(self).status_view() == (code, reason@),
            final(self).out_view() == old(self).out_view(),
            final(self).buffered() == old(self).buffered(),
            final(self).chunk_cap() == old(self).chunk_cap(),
            final(self).headers_map() == old(self).headers_map(),
            final(self).headers_wf() == old(self).headers_wf(),
            final(self).wf() == old(self).wf(),
    {
        self.status_code = code;
        self.reason = reason;
    }

    /// Inserts a response header; see `Headers::insert` for the folding of
    /// repeated names.
    pub fn insert_header(&mut self, key: &str, value: Vec<u8>)
        requires
            old(self).headers_wf(),
        ensures
            final(self).headers_wf(),
            final(self).headers_map() == insert_entry(old(self).headers_map(), key@, value@),
            final(self).out_view() == old(self).out_view(),
            final(self).buffered() == old(self).buffered(),
            final(self).chunk_cap() == old(self).chunk_cap(),
            final(self).status_view() == old(self).status_view(),
            final(self).wf() == old(self).wf(),
    {
        self.headers.insert(key, value);
    }

    /// One-shot body transfer: the status line, the headers, the blank
    /// line, and the whole body, with no transfer-encoding.
    pub fn of_stream(self, body: &[u8]) -> (r: Vec<u8>)
        ensures
            r@ == self.out_view() + head_bytes(
                self.status_view().0,
                self.status_view().1,
                self.headers_map(),
            ) + body@,
    {
        let mut this = self;
        this.write_head();
        this.out.extend_from_slice(body);
        this.out
    }

    /// The status line, the headers and the blank line alone: what goes
    /// out before a body the caller transfers itself.
    pub fn into_head(self) -> (r: Vec<u8>)
        ensures
            r@ == self.out_view() + head_bytes(
                self.status_view().0,
                self.status_view().1,
                self.headers_map(),
            ),
    {
        let mut this = self;
        this.write_head();
        this.out
    }

    /// Commits the response: forces `Transfer-Encoding: Chunked`, emits
    /// the head, and installs the chunk buffer. One-way: the streaming
    /// response it returns has no way back to header mutation.
    pub fn start(self) -> (r: Response<Streaming>)
        requires
            self.headers_wf(),
        ensures
            r.wf(),
            r.headers_wf(),
            r.headers_map() == insert_entry(
                self.headers_map(),
                "Transfer-Encoding"@,
                chunked_value(),
            ),
            r.out_view() == self.out_view() + head_bytes(
                self.status_view().0,
                self.status_view().1,
                insert_entry(self.headers_map(), "Transfer-Encoding"@, chunked_value()),
            ),
            r.buffered() == Seq::<u8>::empty(),
            r.chunk_cap() == 4096,
            r.status_view() == self.status_view(),
    {
        let mut this = self;
        let mut chunked: Vec<u8> = Vec::new();
        chunked.push(0x43);
        chunked.push(0x68);
        chunked.push(0x75);
        chunked.push(0x6e);
        chunked.push(0x6b);
        chunked.push(0x65);
        chunked.push(0x64);
        proof {
            assert(chunked@ =~= chunked_value());
        }
        this.headers.insert("Transfer-Encoding", chunked);
        this.write_head();
        let r = Response {
            out: this.out,
            buffer: Vec::new(),
            cap: 4096,
            status_code: this.status_code,
            reason: this.reason,
            headers: this.headers,
            state: PhantomData,
        };
        proof {
            assert(r.buffered() =~= Seq::<u8>::empty());
        }
        r
    }
}

impl Response<Streaming> {
    /// Writes a single chunk in the chunked transfer-encoding, clearing
    /// out the buffer; an empty buffer produces nothing.
    fn write_chunk(&mut self)
        ensures
            final(self).out_view() == old(self).out_view() + chunk_or_empty(old(self).buffered()),
            final(self).buffered() == Seq::<u8>::empty(),
            final(self).chunk_cap() == old(self).chunk_cap(),
            final(self).status_view() == old(self).status_view(),
            final(self).headers_map() == old(self).headers_map(),
            final(self).wf(),
    {
        if self.buffer.len() == 0 {
            proof {
                assert(self.buffer@ =~= Seq::<u8>::empty());
                assert(self.out@ =~= self.out@ + chunk_or_empty(self.buffer@));
            }
            return ;
        }
        let ghost out0 = self.out@;
        let ghost payload = self.buffer@;
        push_hex(&mut self.out, self.buffer.len() as u64);
        push_crlf(&mut self.out);
        self.out.append(&mut self.buffer);
        push_crlf(&mut self.out);
        proof {
            assert(self.out@ =~= out0 + chunk_frame(payload));
            assert(self.buffer@ =~= Seq::<u8>::empty());
        }
    }

    /// Buffers the bytes, emitting chunks as the buffer fills: a write
    /// that fits is only buffered; one larger than the whole buffer is
    /// flushed ahead of and then sent as one chunk of its own; otherwise
    /// the buffer is filled to capacity, flushed, and keeps the remainder.
    pub fn write(&mut self, buf: &[u8]) -> (r: usize)
        requires
            old(self).wf(),
        ensures
            r == buf@.len(),
            final(self).wf(),
            final(self).chunk_cap() == old(self).chunk_cap(),
            final(self).status_view() == old(self).status_view(),
            final(self).headers_map() == old(self).headers_map(),
            ({
                let cap = old(self).chunk_cap();
                let pending = old(self).buffered();
                if buf@.len() == 0 {
                    final(self).out_view() == old(self).out_view() && final(self).buffered()
                        == pending
                } else if buf@.len() <= cap - pending.len() {
                    final(self).out_view() == old(self).out_view() && final(self).buffered()
                        == pending + buf@
                } else if buf@.len() > cap {
                    final(self).out_view() == old(self).out_view() + chunk_or_empty(pending)
                        + chunk_frame(buf@) && final(self).buffered() == Seq::<u8>::empty()
                } else {
                    final(self).out_view() == old(self).out_view() + chunk_frame(
                        pending + buf@.take(cap - pending.len()),
                    ) && final(self).buffered() == buf@.skip(cap - pending.len())
                }
            }),
    {
        if buf.len() == 0 {
            return 0;
        }
        let remaining = self.cap - self.buffer.len();
        if buf.len() > remaining {
            if buf.len() > self.cap {
                self.write_chunk();
                let ghost out1 = self.out@;
                push_hex(&mut self.out, buf.len() as u64);
                push_crlf(&mut self.out);
                self.out.extend_from_slice(buf);
                push_crlf(&mut self.out);
                proof {
                    assert(self.out@ =~= out1 + chunk_frame(buf@));
                }
            } else {
                let ghost pending = self.buffer@;
                let fill = take_prefix(buf, remaining);
                let mut fill = fill;
                self.buffer.append(&mut fill);
                proof {
                    assert(self.buffer@ =~= pending + buf@.take(remaining as int));
                }
                self.write_chunk();
                let rest = take_suffix(buf, remaining);
                let mut rest = rest;
                self.buffer.append(&mut rest);
                proof {
                    assert(self.buffer@ =~= buf@.skip(remaining as int));
                }
            }
        } else {
            let mut more = take_prefix(buf, buf.len());
            let ghost pending = self.buffer@;
            proof {
                assert(buf@.take(buf@.len() as int) =~= buf@);
            }
            self.buffer.append(&mut more);
            proof {
                assert(self.buffer@ =~= pending + buf@);
            }
        }
        buf.len()
    }

    /// Emits whatever the buffer holds as one chunk; nothing for an empty
    /// buffer.
    pub fn flush(&mut self)
        ensures
            final(self).out_view() == old(self).out_view() + chunk_or_empty(old(self).buffered()),
            final(self).buffered() == Seq::<u8>::empty(),
            final(self).chunk_cap() == old(self).chunk_cap(),
            final(self).status_view() == old(self).status_view(),
            final(self).headers_map() == old(self).headers_map(),
            final(self).wf(),
    {
        self.write_chunk();
    }

    /// Hands out the bytes produced so far, leaving none pending; the
    /// chunk buffer is untouched.
    pub fn drain(&mut self) -> (r: Vec<u8>)
        ensures
            r@ == old(self).out_view(),
            final(self).out_view() == Seq::<u8>::empty(),
            final(self).buffered() == old(self).buffered(),
            final(self).chunk_cap() == old(self).chunk_cap(),
            final(self).status_view() == old(self).status_view(),
            final(self).headers_map() == old(self).headers_map(),
            final(self).wf() == old(self).wf(),
    {
        let mut taken: Vec<u8> = Vec::new();
        core::mem::swap(&mut taken, &mut self.out);
        proof {
            assert(self.out@ =~= Seq::<u8>::empty());
        }
        taken
    }

    /// Closes the stream: the last buffered chunk, if any, then the
    /// zero-length chunk and empty trailer line that terminate a chunked
    /// body. Returns everything not yet drained.
    pub fn finish(self) -> (r: Vec<u8>)
        ensures
            r@ == self.out_view() + chunk_or_empty(self.buffered()) + stream_terminator(),
    {
        let mut this = self;
        this.write_chunk();
        this.out.push(0x30);
        push_crlf(&mut this.out);
        push_crlf(&mut this.out);
        proof {
            assert(this.out@ =~= self.out_view() + chunk_or_empty(self.buffered())
                + stream_terminator());
        }
        this.out
    }
}

/// Whatever was buffered, a finished stream ends with the terminating
/// zero-length chunk and the empty trailer line.
pub proof fn lemma_finish_ends_with_terminator(produced: Seq<u8>, buffered: Seq<u8>)
    ensures
        ({
            let whole = produced + chunk_or_empty(buffered) + stream_terminator();
            whole.len() >= 5 && whole.subrange(whole.len() - 5, whole.len() as int)
                == stream_terminator()
        }),
{
    let whole = produced + chunk_or_empty(buffered) + stream_terminator();
    assert(whole.subrange(whole.len() - 5, whole.len() as int) =~= stream_terminator());
}

/// What an error page sends: the head with `Content-Type: text/html` and
/// a `Content-Length` computed from the body, then the body.
pub open spec fn error_page_bytes(
    out: Seq<u8>,
    entries: Seq<(Seq<char>, Seq<u8>)>,
    code: u16,
    reason: Seq<char>,
    body: Seq<u8>,
) -> Seq<u8> {
    out + head_bytes(
        code,
        reason,
        insert_entry(
            insert_entry(entries, "Content-Type"@, encode_utf8("text/html"@)),
            "Content-Length"@,
            dec_digits(body.len() as int),
        ),
    ) + body
}

/// Builds one canned error response: status, the two body headers, and
/// the body in one shot.
fn error_page(res: Response<Fresh>, code: u16, reason: String, body: Vec<u8>) -> (r: Vec<u8>)
    requires
        res.headers_wf(),
    ensures
        r@ == error_page_bytes(res.out_view(), res.headers_map(), code, reason@, body@),
{
    let mut res = res;
    res.set_status(code, reason);
    res.insert_header("Content-Type", "text/html".as_bytes_vec());
    let mut length: Vec<u8> = Vec::new();
    push_dec(&mut length, body.len() as u64);
    res.insert_header("Content-Length", length);
    res.of_stream(body.as_slice())
}

/// The body of the 500 page.
pub open spec fn page_500() -> Seq<u8> {
    encode_utf8(
        "<!doctype html><html><head><title>Error</title></head><body><h1>Internal Error</h1><p>Something went wrong on my side.</p><p>There's nothing you can do; maybe come back later.</p></body></html>"@,
    )
}

/// Responds 500 with the canned page.
pub fn error_500(res: Response<Fresh>) -> (r: Vec<u8>)
    requires
        res.headers_wf(),
    ensures
        r@ == error_page_bytes(
            res.out_view(),
            res.headers_map(),
            500,
            "Internal Error"@,
            page_500(),
        ),
{
    error_page(
        res,
        500,
        String::from_str("Internal Error"),
        "<!doctype html><html><head><title>Error</title></head><body><h1>Internal Error</h1><p>Something went wrong on my side.</p><p>There's nothing you can do; maybe come back later.</p></body></html>".as_bytes_vec(),
    )
}

/// The body of the 405 page.
pub open spec fn page_405() -> Seq<u8> {
    encode_utf8(
        "<!doctype html><html><head><title>Error</title></head><body><h1>Method Not Allowed</h1><p>This server only understands <code>GET</code> requests. Sorry about that.</p></body></html>"@,
    )
}

/// Responds 405 with the canned page.
pub fn error_405(res: Response<Fresh>) -> (r: Vec<u8>)
    requires
        res.headers_wf(),
    ensures
        r@ == error_page_bytes(
            res.out_view(),
            res.headers_map(),
            405,
            "Method not allowed"@,
            page_405(),
        ),
{
    error_page(
        res,
        405,
        String::from_str("Method not allowed"),
        "<!doctype html><html><head><title>Error</title></head><body><h1>Method Not Allowed</h1><p>This server only understands <code>GET</code> requests. Sorry about that.</p></body></html>".as_bytes_vec(),
    )
}

/// The body of the 404 page.
pub open spec fn page_404() -> Seq<u8> {
    encode_utf8(
        "<!doctype html><html><head><title>Error</title></head><body><h1>Not Found</h1><p>I couldn't find that file. Sorry.</p></body></html>"@,
    )
}

/// Responds 404 with the canned page.
pub fn error_404(res: Response<Fresh>) -> (r: Vec<u8>)
    requires
        res.headers_wf(),
    ensures
        r@ == error_page_bytes(res.out_view(), res.headers_map(), 404, "Not Found"@, page_404()),
{
    error_page(
        res,
        404,
        String::from_str("Not Found"),
        "<!doctype html><html><head><title>Error</title></head><body><h1>Not Found</h1><p>I couldn't find that file. Sorry.</p></body></html>".as_bytes_vec(),
    )
}

/// The body of the 403 page.
pub open spec fn page_403() -> Seq<u8> {
    encode_utf8(
        "<!doctype html><html><head><title>Error</title></head><body><h1>Forbidden</h1><p>You don't have permission to view that file. Sorry.</p></body></html>"@,
    )
}

/// Responds 403 with the canned page.
pub fn error_403(res: Response<Fresh>) -> (r: Vec<u8>)
    requires
        res.headers_wf(),
    ensures
        r@ == error_page_bytes(res.out_view(), res.headers_map(), 403, "Forbidden"@, page_403()),
{
    error_page(
        res,
        403,
        String::from_str("Forbidden"),
        "<!doctype html><html><head><title>Error</title></head><body><h1>Forbidden</h1><p>You don't have permission to view that file. Sorry.</p></body></html>".as_bytes_vec(),
    )
}

/// The body of the 400 page.
pub open spec fn page_400() -> Seq<u8> {
    encode_utf8(
        "<!doctype html><html><head><title>Error</title></head><body><h1>Bad Request</h1><p>Your request had some kind of bad syntax. Are you using netcat?</p></body></html>"@,
    )
}

/// Responds 400 with the canned page.
pub fn error_400(res: Response<Fresh>) -> (r: Vec<u8>)
    requires
        res.headers_wf(),
    ensures
        r@ == error_page_bytes(
            res.out_view(),
            res.headers_map(),
            400,
            "Bad Request"@,
            page_400(),
        ),
{
    error_page(
        res,
        400,
        String::from_str("Bad Request"),
        "<!doctype html><html><head><title>Error</title></head><body><h1>Bad Request</h1><p>Your request had some kind of bad syntax. Are you using netcat?</p></body></html>".as_bytes_vec(),
    )
}

/// Copies the first `k` bytes of a slice.
fn take_prefix(buf: &[u8], k: usize) -> (r: Vec<u8>)
    requires
        k <= buf@.len(),
    ensures
        r@ == buf@.take(k as int),
{
    let v = crate::parser::take_range(buf, 0, k);
    proof {
        assert(v@ =~= buf@.take(k as int));
    }
    v
}

/// Copies everything past the first `k` bytes of a slice.
fn take_suffix(buf: &[u8], k: usize) -> (r: Vec<u8>)
    requires
        k <= buf@.len(),
    ensures
        r@ == buf@.skip(k as int),
{
    let v = crate::parser::take_range(buf, k, buf.len() - k);
    proof {
        assert(v@ =~= buf@.skip(k as int));
    }
    v
}

} // verus!
