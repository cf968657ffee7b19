//! Process CGI/1.1 response messages.
//!
//! A responder's document starts with a header block: an optional status
//! line, a `Content-Type` line, and further header lines, closed by a blank
//! line. Lines end at the first CR or LF; the blank-line terminator may be
//! `LF LF`, `CR LF LF` or `CR LF CR LF`. The spec functions here define the
//! grammar; each executable parser returns exactly what they say.

use vstd::prelude::*;

use crate::parser::take_range;

verus! {

/// A status line.
#[derive(Debug, PartialEq, Eq)]
pub struct Status {
    pub code: u16,
    pub reason_phrase: Vec<u8>,
}

/// A location redirect.
#[derive(Debug, PartialEq, Eq)]
pub struct Location {
    url: Vec<u8>,
}

/// Other headers.
#[derive(Debug, PartialEq, Eq)]
pub struct Header {
    pub name: Vec<u8>,
    pub content: Vec<u8>,
}

/// The header portion of a document.
#[derive(Debug, PartialEq, Eq)]
pub struct DocumentHeaders {
    pub content_type: Header,
    pub status: Option<Status>,
    pub headers: Vec<Header>,
}

/// The mathematical model of a status line.
pub struct StatusModel {
    pub code: u16,
    pub reason_phrase: Seq<u8>,
}

/// The mathematical model of a header.
pub struct HeaderModel {
    pub name: Seq<u8>,
    pub content: Seq<u8>,
}

/// The mathematical model of a document's header block.
pub struct DocumentModel {
    pub content_type: HeaderModel,
    pub status: Option<StatusModel>,
    pub headers: Seq<HeaderModel>,
}

impl View for Status {
    type V = StatusModel;

    open spec fn view(&self) -> StatusModel {
        StatusModel { code: self.code, reason_phrase: self.reason_phrase@ }
    }
}

impl View for Location {
    type V = Seq<u8>;

    closed spec fn view(&self) -> Seq<u8> {
        self.url@
    }
}

impl View for Header {
    type V = HeaderModel;

    open spec fn view(&self) -> HeaderModel {
        HeaderModel { name: self.name@, content: self.content@ }
    }
}

/// The views of a list of headers, in order.
pub open spec fn headers_view(hs: Seq<Header>) -> Seq<HeaderModel> {
    hs.map_values(|h: Header| h@)
}

impl View for DocumentHeaders {
    type V = DocumentModel;

    open spec fn view(&self) -> DocumentModel {
        DocumentModel {
            content_type: self.content_type@,
            status: match self.status {
                Some(s) => Some(s@),
                None => None,
            },
            headers: headers_view(self.headers@),
        }
    }
}

/// What a parse attempt yields: the value and the index where the rest of
/// the input begins, a request for at least `needed` more bytes, or a
/// structural rejection.
#[derive(Debug, PartialEq, Eq)]
pub enum Parsed<T> {
    Done { rest: usize, value: T },
    Incomplete { needed: usize },
    Failed,
}

/// The model-level counterpart of [`Parsed`].
pub enum ParsedModel<T> {
    Done { rest: int, value: T },
    Incomplete { needed: int },
    Failed,
}

pub open spec fn is_digit(b: u8) -> bool {
    0x30 <= b <= 0x39
}

pub open spec fn cr_or_lf(b: u8) -> bool {
    b == 0x0d || b == 0x0a
}

/// Linear white space before a header value: space, tab or LF.
pub open spec fn lwsp(b: u8) -> bool {
    b == 0x20 || b == 0x09 || b == 0x0a
}

pub open spec fn is_colon(b: u8) -> bool {
    b == 0x3a
}

/// The first position at or after `i` holding a CR or LF, or the length.
pub open spec fn find_crlf(s: Seq<u8>, i: int) -> int
    decreases s.len() - i,
{
    if i < 0 || i >= s.len() {
        s.len() as int
    } else if cr_or_lf(s[i]) {
        i
    } else {
        find_crlf(s, i + 1)
    }
}

/// The first position at or after `i` holding a colon, or the length.
pub open spec fn find_colon(s: Seq<u8>, i: int) -> int
    decreases s.len() - i,
{
    if i < 0 || i >= s.len() {
        s.len() as int
    } else if is_colon(s[i]) {
        i
    } else {
        find_colon(s, i + 1)
    }
}

/// The first position at or after `i` holding no linear white space.
pub open spec fn skip_lwsp(s: Seq<u8>, i: int) -> int
    decreases s.len() - i,
{
    if i < 0 || i >= s.len() {
        s.len() as int
    } else if !lwsp(s[i]) {
        i
    } else {
        skip_lwsp(s, i + 1)
    }
}

/// The bytes of `"Status:"`.
pub open spec fn status_tag() -> Seq<u8> {
    seq![0x53u8, 0x74, 0x61, 0x74, 0x75, 0x73, 0x3a]
}

/// The bytes of `"Content-Type:"`.
pub open spec fn content_type_tag() -> Seq<u8> {
    seq![0x43u8, 0x6f, 0x6e, 0x74, 0x65, 0x6e, 0x74, 0x2d, 0x54, 0x79, 0x70, 0x65, 0x3a]
}

/// The bytes of `"Location:"`.
pub open spec fn location_tag() -> Seq<u8> {
    seq![0x4cu8, 0x6f, 0x63, 0x61, 0x74, 0x69, 0x6f, 0x6e, 0x3a]
}

/// Whether the input disagrees with the tag somewhere they overlap.
pub open spec fn tag_mismatch(s: Seq<u8>, tag: Seq<u8>) -> bool {
    exists|i: int| 0 <= i < s.len() && i < tag.len() && s[i] != tag[i]
}

/// A literal tag read from the front of `s`: the whole tag, more input
/// wanted, or a mismatch.
pub open spec fn spec_tag(s: Seq<u8>, tag: Seq<u8>) -> ParsedModel<()> {
    if tag_mismatch(s, tag) {
        ParsedModel::Failed
    } else if s.len() >= tag.len() {
        ParsedModel::Done { rest: tag.len() as int, value: () }
    } else {
        ParsedModel::Incomplete { needed: tag.len() - s.len() }
    }
}

/// A line terminator read from the front of `s`: CR LF or a bare LF.
pub open spec fn spec_eol(s: Seq<u8>) -> ParsedModel<()> {
    if s.len() == 0 {
        ParsedModel::Incomplete { needed: 1 }
    } else if s[0] == 0x0a {
        ParsedModel::Done { rest: 1, value: () }
    } else if s[0] == 0x0d {
        if s.len() < 2 {
            ParsedModel::Incomplete { needed: 1 }
        } else if s[1] == 0x0a {
            ParsedModel::Done { rest: 2, value: () }
        } else {
            ParsedModel::Failed
        }
    } else {
        ParsedModel::Failed
    }
}

/// The blank line that closes a header block: `LF LF`, `CR LF LF` or
/// `CR LF CR LF`.
pub open spec fn spec_double_newline(s: Seq<u8>) -> ParsedModel<()> {
    if s.len() < 2 {
        ParsedModel::Incomplete { needed: 2 - s.len() }
    } else if s[0] == 0x0a && s[1] == 0x0a {
        ParsedModel::Done { rest: 2, value: () }
    } else if s.len() < 3 {
        ParsedModel::Incomplete { needed: 3 - s.len() }
    } else if s[0] == 0x0d && s[1] == 0x0a && s[2] == 0x0a {
        ParsedModel::Done { rest: 3, value: () }
    } else if s.len() < 4 {
        ParsedModel::Incomplete { needed: 4 - s.len() }
    } else if s[0] == 0x0d && s[1] == 0x0a && s[2] == 0x0d && s[3] == 0x0a {
        ParsedModel::Done { rest: 4, value: () }
    } else {
        ParsedModel::Failed
    }
}

/// A status line read from the front of `s`: the tag, an optional space,
/// three digits, a space, and the reason phrase up to the line end.
pub open spec fn spec_status(s: Seq<u8>) -> ParsedModel<StatusModel> {
    match spec_tag(s, status_tag()) {
        ParsedModel::Failed => ParsedModel::Failed,
        ParsedModel::Incomplete { needed } => ParsedModel::Incomplete { needed },
        ParsedModel::Done { rest: t, .. } => {
            let i = if t < s.len() && s[t] == 0x20 {
                t + 1
            } else {
                t
            };
            if s.len() < i + 3 {
                ParsedModel::Incomplete { needed: i + 3 - s.len() }
            } else if !(is_digit(s[i]) && is_digit(s[i + 1]) && is_digit(s[i + 2])) {
                ParsedModel::Failed
            } else if s.len() < i + 4 {
                ParsedModel::Incomplete { needed: 1 }
            } else if s[i + 3] != 0x20 {
                ParsedModel::Failed
            } else {
                let code = (s[i] - 0x30) * 100 + (s[i + 1] - 0x30) * 10 + (s[i + 2] - 0x30);
                let j = find_crlf(s, i + 4);
                if j >= s.len() {
                    ParsedModel::Incomplete { needed: 1 }
                } else {
                    ParsedModel::Done {
                        rest: j,
                        value: StatusModel {
                            code: code as u16,
                            reason_phrase: s.subrange(i + 4, j),
                        },
                    }
                }
            }
        },
    }
}

/// A header line read from the front of `s`: the name up to a colon, the
/// colon, any linear white space, and the value up to the line end.
pub open spec fn spec_header(s: Seq<u8>) -> ParsedModel<HeaderModel> {
    let j = find_colon(s, 0);
    if j >= s.len() {
        ParsedModel::Incomplete { needed: 1 }
    } else {
        let k = skip_lwsp(s, j + 1);
        let m = find_crlf(s, k);
        if m >= s.len() {
            ParsedModel::Incomplete { needed: 1 }
        } else {
            ParsedModel::Done {
                rest: m,
                value: HeaderModel { name: s.subrange(0, j), content: s.subrange(k, m) },
            }
        }
    }
}

/// A `Content-Type` line read from the front of `s`.
pub open spec fn spec_content_type(s: Seq<u8>) -> ParsedModel<HeaderModel> {
    match spec_tag(s, content_type_tag()) {
        ParsedModel::Failed => ParsedModel::Failed,
        ParsedModel::Incomplete { needed } => ParsedModel::Incomplete { needed },
        ParsedModel::Done { rest: t, .. } => {
            let i = if t < s.len() && s[t] == 0x20 {
                t + 1
            } else {
                t
            };
            let j = find_crlf(s, i);
            if j >= s.len() {
                ParsedModel::Incomplete { needed: 1 }
            } else {
                ParsedModel::Done {
                    rest: j,
                    value: HeaderModel {
                        name: content_type_tag().take(12),
                        content: s.subrange(i, j),
                    },
                }
            }
        },
    }
}

/// A `Location` line read from the front of `s`: the URI up to the line end.
pub open spec fn spec_location(s: Seq<u8>) -> ParsedModel<Seq<u8>> {
    match spec_tag(s, location_tag()) {
        ParsedModel::Failed => ParsedModel::Failed,
        ParsedModel::Incomplete { needed } => ParsedModel::Incomplete { needed },
        ParsedModel::Done { rest: t, .. } => {
            let i = if t < s.len() && s[t] == 0x20 {
                t + 1
            } else {
                t
            };
            let j = find_crlf(s, i);
            if j >= s.len() {
                ParsedModel::Incomplete { needed: 1 }
            } else {
                ParsedModel::Done { rest: j, value: s.subrange(i, j) }
            }
        },
    }
}

/// The remaining header lines of a block, each followed by a line end,
/// closed by the blank line. An immediate line end means no more headers.
pub open spec fn spec_headers(s: Seq<u8>) -> ParsedModel<Seq<HeaderModel>>
    decreases s.len(),
{
    if s.len() == 0 {
        ParsedModel::Incomplete { needed: 1 }
    } else if s[0] == 0x0a {
        ParsedModel::Done { rest: 1, value: Seq::empty() }
    } else if s[0] == 0x0d {
        if s.len() < 2 {
            ParsedModel::Incomplete { needed: 1 }
        } else if s[1] == 0x0a {
            ParsedModel::Done { rest: 2, value: Seq::empty() }
        } else {
            ParsedModel::Failed
        }
    } else {
        match spec_header(s) {
            ParsedModel::Failed => ParsedModel::Failed,
            ParsedModel::Incomplete { needed } => ParsedModel::Incomplete { needed },
            ParsedModel::Done { rest: r, value: h } => {
                if r < 1 || r > s.len() {
                    ParsedModel::Failed
                } else {
                    match spec_double_newline(s.skip(r)) {
                        ParsedModel::Done { rest: r2, .. } => ParsedModel::Done {
                            rest: r + r2,
                            value: seq![h],
                        },
                        ParsedModel::Incomplete { needed } => ParsedModel::Incomplete { needed },
                        ParsedModel::Failed => match spec_eol(s.skip(r)) {
                            ParsedModel::Failed => ParsedModel::Failed,
                            ParsedModel::Incomplete { needed } => ParsedModel::Incomplete {
                                needed,
                            },
                            ParsedModel::Done { rest: r2, .. } => {
                                if r2 < 1 {
                                    ParsedModel::Failed
                                } else {
                                    match spec_headers(s.skip(r + r2)) {
                                        ParsedModel::Failed => ParsedModel::Failed,
                                        ParsedModel::Incomplete { needed } =>
                                            ParsedModel::Incomplete { needed },
                                        ParsedModel::Done { rest: r3, value: hs } =>
                                            ParsedModel::Done {
                                            rest: r + r2 + r3,
                                            value: seq![h] + hs,
                                        },
                                    }
                                }
                            },
                        },
                    }
                }
            },
        }
    }
}

/// A whole document-header block: an optional status line with its line
/// end, the `Content-Type` line with its line end, and the remaining
/// headers up to the blank line. The rest index is where the body begins.
pub open spec fn spec_doc_headers(s: Seq<u8>) -> ParsedModel<DocumentModel> {
    let has_status = !tag_mismatch(s, status_tag());
    if has_status && s.len() < status_tag().len() {
        ParsedModel::Incomplete { needed: status_tag().len() - s.len() }
    } else if has_status {
        match spec_status(s) {
            ParsedModel::Failed => ParsedModel::Failed,
            ParsedModel::Incomplete { needed } => ParsedModel::Incomplete { needed },
            ParsedModel::Done { rest: r, value: st } => {
                match spec_eol(s.skip(r)) {
                    ParsedModel::Failed => ParsedModel::Failed,
                    ParsedModel::Incomplete { needed } => ParsedModel::Incomplete { needed },
                    ParsedModel::Done { rest: r2, .. } => {
                        match spec_doc_tail(s, r + r2) {
                            ParsedModel::Failed => ParsedModel::Failed,
                            ParsedModel::Incomplete { needed } => ParsedModel::Incomplete {
                                needed,
                            },
                            ParsedModel::Done { rest, value } => ParsedModel::Done {
                                rest,
                                value: DocumentModel {
                                    content_type: value.content_type,
                                    status: Some(st),
                                    headers: value.headers,
                                },
                            },
                        }
                    },
                }
            },
        }
    } else {
        spec_doc_tail(s, 0)
    }
}

/// The part of a document block after the optional status line: the
/// `Content-Type` line, its line end, and the remaining headers.
pub open spec fn spec_doc_tail(s: Seq<u8>, p: int) -> ParsedModel<DocumentModel> {
    match spec_content_type(s.skip(p)) {
        ParsedModel::Failed => ParsedModel::Failed,
        ParsedModel::Incomplete { needed } => ParsedModel::Incomplete { needed },
        ParsedModel::Done { rest: rc, value: ct } => {
            match spec_eol(s.skip(p + rc)) {
                ParsedModel::Failed => ParsedModel::Failed,
                ParsedModel::Incomplete { needed } => ParsedModel::Incomplete { needed },
                ParsedModel::Done { rest: re, .. } => {
                    match spec_headers(s.skip(p + rc + re)) {
                        ParsedModel::Failed => ParsedModel::Failed,
                        ParsedModel::Incomplete { needed } => ParsedModel::Incomplete { needed },
                        ParsedModel::Done { rest: rh, value: hs } => ParsedModel::Done {
                            rest: p + rc + re + rh,
                            value: DocumentModel { content_type: ct, status: None, headers: hs },
                        },
                    }
                },
            }
        },
    }
}

/// Scanning for a line end commutes with dropping a prefix.
proof fn lemma_find_crlf_skip(s: Seq<u8>, p: int, i: int)
    requires
        0 <= p <= s.len(),
        0 <= i,
    ensures
        find_crlf(s.skip(p), i) == find_crlf(s, p + i) - p,
    decreases s.len() - p - i,
{
    if p + i < s.len() {
        assert(s.skip(p)[i] == s[p + i]);
        if !cr_or_lf(s[p + i]) {
            lemma_find_crlf_skip(s, p, i + 1);
        }
    }
}

/// Scanning for a colon commutes with dropping a prefix.
proof fn lemma_find_colon_skip(s: Seq<u8>, p: int, i: int)
    requires
        0 <= p <= s.len(),
        0 <= i,
    ensures
        find_colon(s.skip(p), i) == find_colon(s, p + i) - p,
    decreases s.len() - p - i,
{
    if p + i < s.len() {
        assert(s.skip(p)[i] == s[p + i]);
        if !is_colon(s[p + i]) {
            lemma_find_colon_skip(s, p, i + 1);
        }
    }
}

/// Skipping white space commutes with dropping a prefix.
proof fn lemma_skip_lwsp_skip(s: Seq<u8>, p: int, i: int)
    requires
        0 <= p <= s.len(),
        0 <= i,
    ensures
        skip_lwsp(s.skip(p), i) == skip_lwsp(s, p + i) - p,
    decreases s.len() - p - i,
{
    if p + i < s.len() {
        assert(s.skip(p)[i] == s[p + i]);
        if lwsp(s[p + i]) {
            lemma_skip_lwsp_skip(s, p, i + 1);
        }
    }
}

fn scan_crlf(input: &[u8], from: usize) -> (r: usize)
    requires
        from <= input@.len(),
    ensures
        r == find_crlf(input@, from as int),
        from <= r <= input@.len(),
{
    let n = input.len();
    let mut i = from;
    while i < n
        invariant
            from <= i <= n,
            n == input@.len(),
            find_crlf(input@, from as int) == find_crlf(input@, i as int),
        decreases n - i,
    {
        if input[i] == 0x0d || input[i] == 0x0a {
            return i;
        }
        i = i + 1;
    }
    n
}

fn scan_colon(input: &[u8], from: usize) -> (r: usize)
    requires
        from <= input@.len(),
    ensures
        r == find_colon(input@, from as int),
        from <= r <= input@.len(),
{
    let n = input.len();
    let mut i = from;
    while i < n
        invariant
            from <= i <= n,
            n == input@.len(),
            find_colon(input@, from as int) == find_colon(input@, i as int),
        decreases n - i,
    {
        if input[i] == 0x3a {
            return i;
        }
        i = i + 1;
    }
    n
}

fn scan_lwsp(input: &[u8], from: usize) -> (r: usize)
    requires
        from <= input@.len(),
    ensures
        r == skip_lwsp(input@, from as int),
        from <= r <= input@.len(),
{
    let n = input.len();
    let mut i = from;
    while i < n
        invariant
            from <= i <= n,
            n == input@.len(),
            skip_lwsp(input@, from as int) == skip_lwsp(input@, i as int),
        decreases n - i,
    {
        if !(input[i] == 0x20 || input[i] == 0x09 || input[i] == 0x0a) {
            return i;
        }
        i = i + 1;
    }
    n
}

fn status_tag_vec() -> (v: Vec<u8>)
    ensures
        v@ == status_tag(),
{
    let mut v: Vec<u8> = Vec::new();
    v.push(0x53);
    v.push(0x74);
    v.push(0x61);
    v.push(0x74);
    v.push(0x75);
    v.push(0x73);
    v.push(0x3a);
    proof {
        assert(v@ =~= status_tag());
    }
    v
}

fn content_type_tag_vec() -> (v: Vec<u8>)
    ensures
        v@ == content_type_tag(),
{
    let mut v: Vec<u8> = Vec::new();
    v.push(0x43);
    v.push(0x6f);
    v.push(0x6e);
    v.push(0x74);
    v.push(0x65);
    v.push(0x6e);
    v.push(0x74);
    v.push(0x2d);
    v.push(0x54);
    v.push(0x79);
    v.push(0x70);
    v.push(0x65);
    v.push(0x3a);
    proof {
        assert(v@ =~= content_type_tag());
    }
    v
}

fn location_tag_vec() -> (v: Vec<u8>)
    ensures
        v@ == location_tag(),
{
    let mut v: Vec<u8> = Vec::new();
    v.push(0x4c);
    v.push(0x6f);
    v.push(0x63);
    v.push(0x61);
    v.push(0x74);
    v.push(0x69);
    v.push(0x6f);
    v.push(0x6e);
    v.push(0x3a);
    proof {
        assert(v@ =~= location_tag());
    }
    v
}

/// Matches a literal tag at the given position.
fn tag_at(input: &[u8], pos: usize, tag: &Vec<u8>) -> (r: Parsed<()>)
    requires
        pos <= input@.len(),
    ensures
        ({
            let s = input@.skip(pos as int);
            match (r, spec_tag(s, tag@)) {
                (Parsed::Done { rest, .. }, ParsedModel::Done { rest: sr, .. }) => rest == sr,
                (
                    Parsed::Incomplete { needed },
                    ParsedModel::Incomplete { needed: sn },
                ) => needed == sn,
                (Parsed::Failed, ParsedModel::Failed) => true,
                _ => false,
            }
        }),
{
    let ghost s = input@.skip(pos as int);
    let n = input.len();
    let t = tag.len();
    let mut i: usize = 0;
    while i < t && pos + i < n
        invariant
            i <= t,
            pos + i <= n,
            n == input@.len(),
            t == tag@.len(),
            s == input@.skip(pos as int),
            forall|j: int| 0 <= j < i ==> #[trigger] s[j] == tag@[j],
        decreases t - i,
    {
        proof {
            assert(s[i as int] == input@[pos + i]);
        }
        if input[pos + i] != tag[i] {
            proof {
                assert(s[i as int] != tag@[i as int]);
            }
            return Parsed::Failed;
        }
        i = i + 1;
    }
    proof {
        assert(!tag_mismatch(s, tag@)) by {
            assert forall|j: int| 0 <= j < s.len() && j < tag@.len() implies #[trigger] s[j]
                == tag@[j] by {}
        }
    }
    if i == t {
        Parsed::Done { rest: t, value: () }
    } else {
        Parsed::Incomplete { needed: t - i }
    }
}

/// Matches a line end at the given position.
fn eol_at(input: &[u8], pos: usize) -> (r: Parsed<()>)
    requires
        pos <= input@.len(),
    ensures
        ({
            let s = input@.skip(pos as int);
            match (r, spec_eol(s)) {
                (Parsed::Done { rest, .. }, ParsedModel::Done { rest: sr, .. }) => rest == sr,
                (
                    Parsed::Incomplete { needed },
                    ParsedModel::Incomplete { needed: sn },
                ) => needed == sn,
                (Parsed::Failed, ParsedModel::Failed) => true,
                _ => false,
            }
        }),
{
    let n = input.len();
    proof {
        if pos < n {
            assert(input@.skip(pos as int)[0] == input@[pos as int]);
        }
        if pos + 1 < n {
            assert(input@.skip(pos as int)[1] == input@[pos + 1]);
        }
    }
    if pos >= n {
        Parsed::Incomplete { needed: 1 }
    } else if input[pos] == 0x0a {
        Parsed::Done { rest: 1, value: () }
    } else if input[pos] == 0x0d {
        if pos + 1 >= n {
            Parsed::Incomplete { needed: 1 }
        } else if input[pos + 1] == 0x0a {
            Parsed::Done { rest: 2, value: () }
        } else {
            Parsed::Failed
        }
    } else {
        Parsed::Failed
    }
}

/// Matches the block-closing blank line at the given position.
fn double_newline_at(input: &[u8], pos: usize) -> (r: Parsed<()>)
    requires
        pos <= input@.len(),
    ensures
        ({
            let s = input@.skip(pos as int);
            match (r, spec_double_newline(s)) {
                (Parsed::Done { rest, .. }, ParsedModel::Done { rest: sr, .. }) => rest == sr,
                (
                    Parsed::Incomplete { needed },
                    ParsedModel::Incomplete { needed: sn },
                ) => needed == sn,
                (Parsed::Failed, ParsedModel::Failed) => true,
                _ => false,
            }
        }),
{
    let n = input.len();
    let avail = n - pos;
    proof {
        let s = input@.skip(pos as int);
        assert(s.len() == avail);
        if pos < n {
            assert(s[0] == input@[pos as int]);
        }
        if pos + 1 < n {
            assert(s[1] == input@[pos + 1]);
        }
        if pos + 2 < n {
            assert(s[2] == input@[pos + 2]);
        }
        if pos + 3 < n {
            assert(s[3] == input@[pos + 3]);
        }
    }
    if avail < 2 {
        return Parsed::Incomplete { needed: 2 - avail };
    }
    if input[pos] == 0x0a && input[pos + 1] == 0x0a {
        return Parsed::Done { rest: 2, value: () };
    }
    if avail < 3 {
        return Parsed::Incomplete { needed: 3 - avail };
    }
    if input[pos] == 0x0d && input[pos + 1] == 0x0a && input[pos + 2] == 0x0a {
        return Parsed::Done { rest: 3, value: () };
    }
    if avail < 4 {
        return Parsed::Incomplete { needed: 4 - avail };
    }
    if input[pos] == 0x0d && input[pos + 1] == 0x0a && input[pos + 2] == 0x0d && input[pos + 3]
        == 0x0a {
        return Parsed::Done { rest: 4, value: () };
    }
    Parsed::Failed
}

/// Parses one header line at the given position.
fn header_at(input: &[u8], pos: usize) -> (r: Parsed<Header>)
    requires
        pos <= input@.len(),
    ensures
        ({
            let s = input@.skip(pos as int);
            match (r, spec_header(s)) {
                (
                    Parsed::Done { rest, value },
                    ParsedModel::Done { rest: sr, value: sv },
                ) => rest == sr && value@ == sv && 1 <= rest <= s.len(),
                (
                    Parsed::Incomplete { needed },
                    ParsedModel::Incomplete { needed: sn },
                ) => needed == sn,
                (Parsed::Failed, ParsedModel::Failed) => true,
                _ => false,
            }
        }),
{
    let ghost s = input@.skip(pos as int);
    let n = input.len();
    let j = scan_colon(input, pos);
    proof {
        lemma_find_colon_skip(input@, pos as int, 0);
    }
    if j >= n {
        return Parsed::Incomplete { needed: 1 };
    }
    let k = scan_lwsp(input, j + 1);
    let m = scan_crlf(input, k);
    proof {
        lemma_skip_lwsp_skip(input@, pos as int, j + 1 - pos);
        lemma_find_crlf_skip(input@, pos as int, k - pos as int);
    }
    if m >= n {
        return Parsed::Incomplete { needed: 1 };
    }
    let name = take_range(input, pos, j - pos);
    let content = take_range(input, k, m - k);
    proof {
        assert(name@ =~= s.subrange(0, j - pos as int));
        assert(content@ =~= s.subrange(k - pos as int, m - pos as int));
    }
    Parsed::Done { rest: m - pos, value: Header { name, content } }
}

/// Parses a header line at the front of the input: the name up to the
/// first colon, then the value up to the line end.
pub fn header(input: &[u8]) -> (r: Parsed<Header>)
    ensures
        ({
            match (r, spec_header(input@)) {
                (
                    Parsed::Done { rest, value },
                    ParsedModel::Done { rest: sr, value: sv },
                ) => rest == sr && value@ == sv,
                (
                    Parsed::Incomplete { needed },
                    ParsedModel::Incomplete { needed: sn },
                ) => needed == sn,
                (Parsed::Failed, ParsedModel::Failed) => true,
                _ => false,
            }
        }),
{
    proof {
        assert(input@.skip(0) =~= input@);
    }
    header_at(input, 0)
}

/// Parses a status line at the front of the input.
pub fn status(input: &[u8]) -> (r: Parsed<Status>)
    ensures
        ({
            match (r, spec_status(input@)) {
                (
                    Parsed::Done { rest, value },
                    ParsedModel::Done { rest: sr, value: sv },
                ) => rest == sr && value@ == sv,
                (
                    Parsed::Incomplete { needed },
                    ParsedModel::Incomplete { needed: sn },
                ) => needed == sn,
                (Parsed::Failed, ParsedModel::Failed) => true,
                _ => false,
            }
        }),
{
    proof {
        assert(input@.skip(0) =~= input@);
    }
    let n = input.len();
    let tag = status_tag_vec();
    let t = match tag_at(input, 0, &tag) {
        Parsed::Done { rest, .. } => rest,
        Parsed::Incomplete { needed } => {
            return Parsed::Incomplete { needed };
        },
        Parsed::Failed => {
            return Parsed::Failed;
        },
    };
    let i = if t < n && input[t] == 0x20 {
        t + 1
    } else {
        t
    };
    if n - i < 3 {
        return Parsed::Incomplete { needed: 3 - (n - i) };
    }
    let d0 = input[i];
    let d1 = input[i + 1];
    let d2 = input[i + 2];
    if !(0x30 <= d0 && d0 <= 0x39 && 0x30 <= d1 && d1 <= 0x39 && 0x30 <= d2 && d2 <= 0x39) {
        return Parsed::Failed;
    }
    if n - i < 4 {
        return Parsed::Incomplete { needed: 1 };
    }
    if input[i + 3] != 0x20 {
        return Parsed::Failed;
    }
    let code: u16 = (d0 - 0x30) as u16 * 100 + (d1 - 0x30) as u16 * 10 + (d2 - 0x30) as u16;
    let j = scan_crlf(input, i + 4);
    if j >= n {
        return Parsed::Incomplete { needed: 1 };
    }
    let reason_phrase = take_range(input, i + 4, j - (i + 4));
    proof {
        assert(reason_phrase@ =~= input@.subrange(i + 4, j as int));
    }
    Parsed::Done { rest: j, value: Status { code, reason_phrase } }
}

/// Parses a `Content-Type` line at the given position.
fn content_type_at(input: &[u8], pos: usize) -> (r: Parsed<Header>)
    requires
        pos <= input@.len(),
    ensures
        ({
            let s = input@.skip(pos as int);
            match (r, spec_content_type(s)) {
                (
                    Parsed::Done { rest, value },
                    ParsedModel::Done { rest: sr, value: sv },
                ) => rest == sr && value@ == sv && 1 <= rest <= s.len(),
                (
                    Parsed::Incomplete { needed },
                    ParsedModel::Incomplete { needed: sn },
                ) => needed == sn,
                (Parsed::Failed, ParsedModel::Failed) => true,
                _ => false,
            }
        }),
{
    let ghost s = input@.skip(pos as int);
    let n = input.len();
    let tag = content_type_tag_vec();
    let t = match tag_at(input, pos, &tag) {
        Parsed::Done { rest, .. } => rest,
        Parsed::Incomplete { needed } => {
            return Parsed::Incomplete { needed };
        },
        Parsed::Failed => {
            return Parsed::Failed;
        },
    };
    proof {
        if pos + t < n {
            assert(s[t as int] == input@[pos + t]);
        }
    }
    let i = if pos + t < n && input[pos + t] == 0x20 {
        t + 1
    } else {
        t
    };
    let j = scan_crlf(input, pos + i);
    proof {
        lemma_find_crlf_skip(input@, pos as int, i as int);
    }
    if j >= n {
        return Parsed::Incomplete { needed: 1 };
    }
    let mut name = content_type_tag_vec();
    name.pop();
    let content = take_range(input, pos + i, j - (pos + i));
    proof {
        assert(name@ =~= content_type_tag().take(12));
        assert(content@ =~= s.subrange(i as int, j - pos));
    }
    Parsed::Done { rest: j - pos, value: Header { name, content } }
}

/// Parses a `Content-Type` line at the front of the input.
pub fn content_type(input: &[u8]) -> (r: Parsed<Header>)
    ensures
        ({
            match (r, spec_content_type(input@)) {
                (
                    Parsed::Done { rest, value },
                    ParsedModel::Done { rest: sr, value: sv },
                ) => rest == sr && value@ == sv,
                (
                    Parsed::Incomplete { needed },
                    ParsedModel::Incomplete { needed: sn },
                ) => needed == sn,
                (Parsed::Failed, ParsedModel::Failed) => true,
                _ => false,
            }
        }),
{
    proof {
        assert(input@.skip(0) =~= input@);
    }
    content_type_at(input, 0)
}

/// Parses a `Location` line at the front of the input.
pub fn location(input: &[u8]) -> (r: Parsed<Location>)
    ensures
        ({
            match (r, spec_location(input@)) {
                (
                    Parsed::Done { rest, value },
                    ParsedModel::Done { rest: sr, value: sv },
                ) => rest == sr && value@ == sv,
                (
                    Parsed::Incomplete { needed },
                    ParsedModel::Incomplete { needed: sn },
                ) => needed == sn,
                (Parsed::Failed, ParsedModel::Failed) => true,
                _ => false,
            }
        }),
{
    proof {
        assert(input@.skip(0) =~= input@);
    }
    let n = input.len();
    let tag = location_tag_vec();
    let t = match tag_at(input, 0, &tag) {
        Parsed::Done { rest, .. } => rest,
        Parsed::Incomplete { needed } => {
            return Parsed::Incomplete { needed };
        },
        Parsed::Failed => {
            return Parsed::Failed;
        },
    };
    let i = if t < n && input[t] == 0x20 {
        t + 1
    } else {
        t
    };
    let j = scan_crlf(input, i);
    if j >= n {
        return Parsed::Incomplete { needed: 1 };
    }
    let url = take_range(input, i, j - i);
    proof {
        assert(url@ =~= input@.subrange(i as int, j as int));
    }
    Parsed::Done { rest: j, value: Location { url } }
}

/// Parses the remaining header lines at the given position, up to and
/// including the blank line.
fn headers_at(input: &[u8], pos: usize) -> (r: Parsed<Vec<Header>>)
    requires
        pos <= input@.len(),
    ensures
        ({
            let s = input@.skip(pos as int);
            match (r, spec_headers(s)) {
                (
                    Parsed::Done { rest, value },
                    ParsedModel::Done { rest: sr, value: sv },
                ) => rest == sr && headers_view(value@) == sv && rest <= s.len(),
                (
                    Parsed::Incomplete { needed },
                    ParsedModel::Incomplete { needed: sn },
                ) => needed == sn,
                (Parsed::Failed, ParsedModel::Failed) => true,
                _ => false,
            }
        }),
{
    let ghost base = pos as int;
    let n = input.len();
    let mut hdrs: Vec<Header> = Vec::new();
    let mut cur = pos;
    proof {
        assert(headers_view(hdrs@) =~= Seq::<HeaderModel>::empty());
        if let ParsedModel::Done { rest, value } = spec_headers(input@.skip(base)) {
            assert(headers_view(hdrs@) + value =~= value);
        }
    }
    loop
        invariant
            pos <= cur <= n,
            n == input@.len(),
            base == pos as int,
            match spec_headers(input@.skip(cur as int)) {
                ParsedModel::Done { rest, value } => spec_headers(input@.skip(base)) == (
                ParsedModel::Done {
                    rest: (cur - pos) + rest,
                    value: headers_view(hdrs@) + value,
                }),
                ParsedModel::Incomplete { needed } => spec_headers(input@.skip(base)) == (
                ParsedModel::Incomplete::<Seq<HeaderModel>> { needed }),
                ParsedModel::Failed => spec_headers(input@.skip(base))
                    == ParsedModel::Failed::<Seq<HeaderModel>>,
            },
        decreases n - cur,
    {
        let ghost s_cur = input@.skip(cur as int);
        proof {
            if cur < n {
                assert(s_cur[0] == input@[cur as int]);
            }
            if cur + 1 < n {
                assert(s_cur[1] == input@[cur + 1]);
            }
        }
        if cur >= n {
            return Parsed::Incomplete { needed: 1 };
        }
        if input[cur] == 0x0a {
            proof {
                assert(headers_view(hdrs@) + Seq::<HeaderModel>::empty() =~= headers_view(
                    hdrs@,
                ));
            }
            return Parsed::Done { rest: cur - pos + 1, value: hdrs };
        }
        if input[cur] == 0x0d {
            if cur + 1 >= n {
                return Parsed::Incomplete { needed: 1 };
            }
            if input[cur + 1] == 0x0a {
                proof {
                    assert(headers_view(hdrs@) + Seq::<HeaderModel>::empty() =~= headers_view(
                        hdrs@,
                    ));
                }
                return Parsed::Done { rest: cur - pos + 2, value: hdrs };
            }
            return Parsed::Failed;
        }
        let (hr, h) = match header_at(input, cur) {
            Parsed::Done { rest, value } => (rest, value),
            Parsed::Incomplete { needed } => {
                return Parsed::Incomplete { needed };
            },
            Parsed::Failed => {
                return Parsed::Failed;
            },
        };
        proof {
            assert(s_cur.skip(hr as int) =~= input@.skip(cur + hr));
        }
        match double_newline_at(input, cur + hr) {
            Parsed::Done { rest: r2, .. } => {
                proof {
                    let ghost hv = h@;
                    assert(headers_view(hdrs@.push(h)) =~= headers_view(hdrs@).push(hv));
                    assert(headers_view(hdrs@) + (seq![hv] + Seq::<HeaderModel>::empty())
                        =~= headers_view(hdrs@).push(hv));
                    assert(headers_view(hdrs@) + seq![hv] =~= headers_view(hdrs@).push(hv));
                }
                let mut hdrs = hdrs;
                hdrs.push(h);
                return Parsed::Done { rest: cur - pos + hr + r2, value: hdrs };
            },
            Parsed::Incomplete { needed } => {
                return Parsed::Incomplete { needed };
            },
            Parsed::Failed => {
                match eol_at(input, cur + hr) {
                    Parsed::Done { rest: r2, .. } => {
                        proof {
                            let hv = h@;
                            assert(s_cur.skip(hr + r2) =~= input@.skip(cur + hr + r2));
                            assert(headers_view(hdrs@.push(h)) =~= headers_view(hdrs@).push(hv));
                            if let ParsedModel::Done { rest, value } = spec_headers(
                                input@.skip(cur + hr + r2),
                            ) {
                                assert(headers_view(hdrs@) + (seq![hv] + value) =~= headers_view(
                                    hdrs@,
                                ).push(hv) + value);
                            }
                        }
                        hdrs.push(h);
                        cur = cur + hr + r2;
                    },
                    Parsed::Incomplete { needed } => {
                        return Parsed::Incomplete { needed };
                    },
                    Parsed::Failed => {
                        return Parsed::Failed;
                    },
                }
            },
        }
    }
}

/// Parses header lines at the front of the input, up to and including the
/// blank line that closes the block.
pub fn headers(input: &[u8]) -> (r: Parsed<Vec<Header>>)
    ensures
        ({
            match (r, spec_headers(input@)) {
                (
                    Parsed::Done { rest, value },
                    ParsedModel::Done { rest: sr, value: sv },
                ) => rest == sr && headers_view(value@) == sv,
                (
                    Parsed::Incomplete { needed },
                    ParsedModel::Incomplete { needed: sn },
                ) => needed == sn,
                (Parsed::Failed, ParsedModel::Failed) => true,
                _ => false,
            }
        }),
{
    proof {
        assert(input@.skip(0) =~= input@);
    }
    headers_at(input, 0)
}

/// Parses a whole document-header block at the front of the input. On
/// success the rest index is where the body's first byte stands.
pub fn doc_headers(input: &[u8]) -> (r: Parsed<DocumentHeaders>)
    ensures
        ({
            match (r, spec_doc_headers(input@)) {
                (
                    Parsed::Done { rest, value },
                    ParsedModel::Done { rest: sr, value: sv },
                ) => rest == sr && value@ == sv && rest <= input@.len(),
                (
                    Parsed::Incomplete { needed },
                    ParsedModel::Incomplete { needed: sn },
                ) => needed == sn,
                (Parsed::Failed, ParsedModel::Failed) => true,
                _ => false,
            }
        }),
{
    proof {
        assert(input@.skip(0) =~= input@);
    }
    let n = input.len();
    let tag = status_tag_vec();
    let (has_status, st_opt, p) = match tag_at(input, 0, &tag) {
        Parsed::Failed => (false, None, 0usize),
        Parsed::Incomplete { needed } => {
            return Parsed::Incomplete { needed };
        },
        Parsed::Done { .. } => {
            let (sr, st) = match status(input) {
                Parsed::Done { rest, value } => (rest, value),
                Parsed::Incomplete { needed } => {
                    return Parsed::Incomplete { needed };
                },
                Parsed::Failed => {
                    return Parsed::Failed;
                },
            };
            let r2 = match eol_at(input, sr) {
                Parsed::Done { rest, .. } => rest,
                Parsed::Incomplete { needed } => {
                    return Parsed::Incomplete { needed };
                },
                Parsed::Failed => {
                    return Parsed::Failed;
                },
            };
            (true, Some(st), sr + r2)
        },
    };
    let (rc, ct) = match content_type_at(input, p) {
        Parsed::Done { rest, value } => (rest, value),
        Parsed::Incomplete { needed } => {
            return Parsed::Incomplete { needed };
        },
        Parsed::Failed => {
            return Parsed::Failed;
        },
    };
    let re = match eol_at(input, p + rc) {
        Parsed::Done { rest, .. } => rest,
        Parsed::Incomplete { needed } => {
            return Parsed::Incomplete { needed };
        },
        Parsed::Failed => {
            return Parsed::Failed;
        },
    };
    proof {
        assert(input@.skip(p as int).skip(rc as int) =~= input@.skip(p + rc));
        assert(input@.skip(p as int).skip(rc + re) =~= input@.skip(p + rc + re));
    }
    let (rh, hs) = match headers_at(input, p + rc + re) {
        Parsed::Done { rest, value } => (rest, value),
        Parsed::Incomplete { needed } => {
            return Parsed::Incomplete { needed };
        },
        Parsed::Failed => {
            return Parsed::Failed;
        },
    };
    Parsed::Done {
        rest: p + rc + re + rh,
        value: DocumentHeaders { content_type: ct, status: st_opt, headers: hs },
    }
}

} // verus!
