//! Requests and the parser that reads one off the bytes of a connection.
use vstd::prelude::*;
use vstd::utf8::{decode_utf8, valid_utf8};
use crate::bytes::{copy_range, find_byte, lemma_find_byte_absent, lemma_find_byte_at, find_byte_exec, find_separator, find_separator_exec, lemma_find_byte_bounds, lemma_find_separator_bounds};
use crate::header::{header_named, Header, Headers};
use crate::method::{method_named, Method};

verus! {

/// A parsed request. A field that the request line or a header line holds
/// is taken as text, so its bytes must be UTF-8.
#[derive(Debug)]
pub struct Request {
    pub method: Method,
    pub path: String,
    pub protocol_version: String,
    pub headers: Headers,
    pub body: Option<Vec<u8>>,
}

/// What a request holds, as mathematical values.
pub struct RequestView {
    pub method: Method,
    pub path: Seq<char>,
    pub protocol_version: Seq<char>,
    pub headers: Seq<(Seq<char>, Seq<char>)>,
    pub body: Option<Seq<u8>>,
}

/// The values of an ordered header list.
pub open spec fn headers_view(hs: Seq<(String, String)>) -> Seq<(Seq<char>, Seq<char>)> {
    hs.map_values(|h: (String, String)| (h.0@, h.1@))
}

/// The value of an optional body.
pub open spec fn body_view(b: Option<Vec<u8>>) -> Option<Seq<u8>> {
    match b {
        Some(v) => Some(v@),
        None => None,
    }
}

impl View for Request {
    type V = RequestView;

    open spec fn view(&self) -> RequestView {
        RequestView {
            method: self.method,
            path: self.path@,
            protocol_version: self.protocol_version@,
            headers: headers_view(self.headers@),
            body: body_view(self.body),
        }
    }
}

/// The line that starts at `from`: the bytes up to the next line feed, with
/// the carriage return before that line feed removed.
pub open spec fn line_at(s: Seq<u8>, from: int) -> Seq<u8> {
    let e = find_byte(s, 10, from);
    let l = s.subrange(from, e);
    if e < s.len() && l.len() > 0 && l.last() == 13 {
        l.drop_last()
    } else {
        l
    }
}

/// Where the line after the one that starts at `from` begins.
pub open spec fn after_line(s: Seq<u8>, from: int) -> int {
    let e = find_byte(s, 10, from);
    if e < s.len() {
        e + 1
    } else {
        s.len() as int
    }
}

/// The header block from `from` on: the non-empty lines before the first empty
/// line (or the end of the input), and where the bytes after that empty line begin.
pub open spec fn head_from(s: Seq<u8>, from: int) -> (Seq<Seq<u8>>, int)
    decreases s.len() - from,
    via head_from_decreases
{
    if from < 0 || from >= s.len() {
        (Seq::empty(), s.len() as int)
    } else if line_at(s, from).len() == 0 {
        (Seq::empty(), after_line(s, from))
    } else {
        let rest = head_from(s, after_line(s, from));
        (seq![line_at(s, from)] + rest.0, rest.1)
    }
}

#[via_fn]
proof fn head_from_decreases(s: Seq<u8>, from: int) {
    if 0 <= from < s.len() {
        lemma_find_byte_bounds(s, 10, from);
    }
}

proof fn lemma_head_end_bounds(s: Seq<u8>, from: int)
    requires
        0 <= from <= s.len(),
    ensures
        from <= head_from(s, from).1 <= s.len(),
    decreases s.len() - from,
{
    if from < s.len() {
        lemma_find_byte_bounds(s, 10, from);
        if line_at(s, from).len() != 0 {
            lemma_head_end_bounds(s, after_line(s, from));
        }
    }
}

/// Reads the header block: its lines and where the bytes after it begin.
fn read_head(s: &[u8]) -> (r: (Vec<Vec<u8>>, usize))
    ensures
        r.0@.map_values(|l: Vec<u8>| l@) == head_from(s@, 0).0,
        r.1 == head_from(s@, 0).1,
{
    let mut lines: Vec<Vec<u8>> = Vec::new();
    let mut pos: usize = 0;
    loop
        invariant
            pos <= s@.len(),
            head_from(s@, 0).0 == lines@.map_values(|l: Vec<u8>| l@) + head_from(s@, pos as int).0,
            head_from(s@, 0).1 == head_from(s@, pos as int).1,
        decreases s@.len() - pos,
    {
        if pos >= s.len() {
            assert(lines@.map_values(|l: Vec<u8>| l@) + head_from(s@, pos as int).0 =~= lines@.map_values(|l: Vec<u8>| l@));
            return (lines, s.len());
        }
        let e = find_byte_exec(s, 10, pos);
        proof {
            lemma_find_byte_bounds(s@, 10, pos as int);
        }
        let mut line = copy_range(s, pos, e);
        if e < s.len() && line.len() > 0 && line[line.len() - 1] == 13 {
            line.pop();
        }
        assert(line@ =~= line_at(s@, pos as int));
        let next = if e < s.len() { e + 1 } else { s.len() };
        if line.len() == 0 {
            assert(lines@.map_values(|l: Vec<u8>| l@) + head_from(s@, pos as int).0 =~= lines@.map_values(|l: Vec<u8>| l@));
            return (lines, next);
        }
        let ghost before = lines@.map_values(|l: Vec<u8>| l@);
        lines.push(line);
        assert(lines@.map_values(|l: Vec<u8>| l@) =~= before.push(line_at(s@, pos as int)));
        assert(before + head_from(s@, pos as int).0 =~= lines@.map_values(|l: Vec<u8>| l@) + head_from(s@, next as int).0);
        pos = next;
    }
}

/// The first three space-separated tokens of a request line, if it has three.
pub open spec fn request_tokens(l: Seq<u8>) -> Option<(Seq<u8>, Seq<u8>, Seq<u8>)> {
    let i1 = find_byte(l, 32, 0);
    let i2 = find_byte(l, 32, i1 + 1);
    let i3 = find_byte(l, 32, i2 + 1);
    if i1 < l.len() && i2 < l.len() {
        Some((l.subrange(0, i1), l.subrange(i1 + 1, i2), l.subrange(i2 + 1, i3)))
    } else {
        None
    }
}

/// A header line split once, at its first `": "`, if it holds one.
pub open spec fn split_header_line(l: Seq<u8>) -> Option<(Seq<u8>, Seq<u8>)> {
    let i = find_separator(l, 0);
    if i < l.len() {
        Some((l.subrange(0, i), l.subrange(i + 2, l.len() as int)))
    } else {
        None
    }
}

/// The (name, value) byte pairs of the header lines that hold a `": "`; the
/// others are skipped.
pub open spec fn raw_headers(ls: Seq<Seq<u8>>) -> Seq<(Seq<u8>, Seq<u8>)>
    decreases ls.len(),
{
    if ls.len() == 0 {
        Seq::empty()
    } else {
        let prev = raw_headers(ls.drop_last());
        match split_header_line(ls.last()) {
            Some(h) => prev.push(h),
            None => prev,
        }
    }
}

/// Every name and value is UTF-8.
pub open spec fn all_text(hs: Seq<(Seq<u8>, Seq<u8>)>) -> bool {
    forall|i: int| 0 <= i < hs.len() ==> valid_utf8(#[trigger] hs[i].0) && valid_utf8(hs[i].1)
}

/// The header pairs as text.
pub open spec fn decode_headers(hs: Seq<(Seq<u8>, Seq<u8>)>) -> Seq<(Seq<char>, Seq<char>)> {
    hs.map_values(|h: (Seq<u8>, Seq<u8>)| (decode_utf8(h.0), decode_utf8(h.1)))
}

/// The value of the first header named Content-Length (in any case).
pub open spec fn content_length_value(hs: Seq<(Seq<char>, Seq<char>)>) -> Option<Seq<char>>
    decreases hs.len(),
{
    if hs.len() == 0 {
        None
    } else if header_named(hs[0].0) == Some(Header::ContentLength) {
        Some(hs[0].1)
    } else {
        content_length_value(hs.drop_first())
    }
}

pub open spec fn is_digit(c: char) -> bool {
    '0' <= c && c <= '9'
}

/// The number that a string of decimal digits denotes.
pub open spec fn digits_value(d: Seq<char>) -> nat
    decreases d.len(),
{
    if d.len() == 0 {
        0
    } else {
        digits_value(d.drop_last()) * 10 + ((d.last() as u32) - 48) as nat
    }
}

/// The digits of a length: the text after an optional leading `+`.
pub open spec fn length_digits(v: Seq<char>) -> Seq<char> {
    if v.len() > 0 && v[0] == '+' {
        v.drop_first()
    } else {
        v
    }
}

/// A length written in decimal, with an optional leading `+`, that fits in a `usize`.
pub open spec fn parse_length(v: Seq<char>) -> Option<nat> {
    let d = length_digits(v);
    if d.len() > 0 && (forall|i: int| 0 <= i < d.len() ==> is_digit(#[trigger] d[i]))
        && digits_value(d) <= usize::MAX {
        Some(digits_value(d))
    } else {
        None
    }
}

/// The body: the `n` bytes after the header block, where the first
/// Content-Length header gives `n` and that many bytes are there.
pub open spec fn body_of(s: Seq<u8>, end: int, hs: Seq<(Seq<char>, Seq<char>)>) -> Option<Seq<u8>> {
    match content_length_value(hs) {
        Some(v) => match parse_length(v) {
            Some(n) => if end + n <= s.len() {
                Some(s.subrange(end, end + n))
            } else {
                None
            },
            None => None,
        },
        None => None,
    }
}

/// The request that the bytes `s` of a connection carry, if they carry one.
pub open spec fn parse(s: Seq<u8>) -> Option<RequestView> {
    let head = head_from(s, 0);
    let lines = head.0;
    if lines.len() == 0 {
        None
    } else {
        match request_tokens(lines[0]) {
            None => None,
            Some(t) => {
                let raw = raw_headers(lines.drop_first());
                if valid_utf8(t.0) && method_named(decode_utf8(t.0)).is_some() && valid_utf8(t.1)
                    && valid_utf8(t.2) && all_text(raw) {
                    let hs = decode_headers(raw);
                    Some(
                        RequestView {
                            method: method_named(decode_utf8(t.0)).unwrap(),
                            path: decode_utf8(t.1),
                            protocol_version: decode_utf8(t.2),
                            headers: hs,
                            body: body_of(s, head.1, hs),
                        },
                    )
                } else {
                    None
                }
            },
        }
    }
}

/// Relies on `String::from_utf8`: it succeeds exactly on valid UTF-8, and the
/// string then holds the decoded characters.
#[verifier::external_body]
fn utf8_string(v: Vec<u8>) -> (r: Option<String>)
    ensures
        r.is_some() == valid_utf8(v@),
        r matches Some(t) ==> t@ == decode_utf8(v@),
{
    String::from_utf8(v).ok()
}

proof fn lemma_digits_prefix(d: Seq<char>, k: int)
    requires
        0 <= k <= d.len(),
    ensures
        digits_value(d.take(k)) <= digits_value(d),
    decreases d.len(),
{
    if k == d.len() {
        assert(d.take(k) =~= d);
    } else {
        assert(d.take(k) =~= d.drop_last().take(k));
        lemma_digits_prefix(d.drop_last(), k);
    }
}

/// The length that `v` writes, if it is one (see [`parse_length`]).
pub fn parse_length_exec(v: &str) -> (r: Option<usize>)
    ensures
        match r {
            Some(n) => parse_length(v@) == Some(n as nat),
            None => parse_length(v@).is_none(),
        },
{
    let n = v.unicode_len();
    let mut start: usize = 0;
    if n > 0 && v.get_char(0) == '+' {
        start = 1;
    }
    let ghost d = length_digits(v@);
    assert(d =~= v@.subrange(start as int, n as int));
    if start >= n {
        return None;
    }
    let mut acc: usize = 0;
    let mut i: usize = start;
    assert(v@.subrange(start as int, i as int) =~= Seq::<char>::empty());
    while i < n
        invariant
            start <= i <= n,
            n == v@.len(),
            d == v@.subrange(start as int, n as int),
            d == length_digits(v@),
            forall|j: int| start <= j < i ==> is_digit(#[trigger] v@[j]),
            acc as nat == digits_value(v@.subrange(start as int, i as int)),
        decreases n - i,
    {
        let c = v.get_char(i);
        if !('0' <= c && c <= '9') {
            assert(d[i - start] == v@[i as int]);
            assert(!is_digit(d[i - start]));
            assert(parse_length(v@).is_none());
            return None;
        }
        let dig: usize = ((c as u32) - 48) as usize;
        let ghost next = v@.subrange(start as int, i + 1);
        assert(next.drop_last() =~= v@.subrange(start as int, i as int));
        assert(digits_value(next) == acc * 10 + dig);
        let step = match acc.checked_mul(10) {
            Some(m) => m.checked_add(dig),
            None => None,
        };
        match step {
            Some(a) => {
                acc = a;
            },
            None => {
                proof {
                    assert(next =~= d.take(i + 1 - start));
                    lemma_digits_prefix(d, i + 1 - start);
                    assert(digits_value(d) > usize::MAX);
                    assert(parse_length(v@).is_none());
                }
                return None;
            },
        }
        i = i + 1;
    }
    assert forall|j: int| 0 <= j < d.len() implies is_digit(#[trigger] d[j]) by {
        assert(d[j] == v@[j + start]);
    }
    assert(v@.subrange(start as int, n as int) =~= d);
    Some(acc)
}

proof fn lemma_all_text_push(hs: Seq<(Seq<u8>, Seq<u8>)>, p: (Seq<u8>, Seq<u8>))
    ensures
        all_text(hs.push(p)) == (all_text(hs) && valid_utf8(p.0) && valid_utf8(p.1)),
{
    let now = hs.push(p);
    if all_text(now) {
        assert forall|j: int| 0 <= j < hs.len() implies valid_utf8(#[trigger] hs[j].0) && valid_utf8(hs[j].1) by {
            assert(now[j] == hs[j]);
        }
        assert(now[hs.len() as int] == p);
    }
    if all_text(hs) && valid_utf8(p.0) && valid_utf8(p.1) {
        assert forall|j: int| 0 <= j < now.len() implies valid_utf8(#[trigger] now[j].0) && valid_utf8(now[j].1) by {
            if j < hs.len() {
                assert(now[j] == hs[j]);
            }
        }
    }
}

/// Splits a header line once, at its first `": "` (see [`split_header_line`]).
fn split_header_line_exec(l: &[u8]) -> (r: Option<(Vec<u8>, Vec<u8>)>)
    ensures
        match r {
            Some(p) => split_header_line(l@) == Some((p.0@, p.1@)),
            None => split_header_line(l@).is_none(),
        },
{
    let i = find_separator_exec(l, 0);
    proof {
        lemma_find_separator_bounds(l@, 0);
    }
    if i >= l.len() {
        return None;
    }
    Some((copy_range(l, 0, i), copy_range(l, i + 2, l.len())))
}

/// The value of the first Content-Length header (see [`content_length_value`]).
fn content_length_exec(hs: &Headers) -> (r: Option<&String>)
    ensures
        match r {
            Some(v) => content_length_value(headers_view(hs@)) == Some(v@),
            None => content_length_value(headers_view(hs@)).is_none(),
        },
{
    let mut i: usize = 0;
    assert(headers_view(hs@).skip(0) =~= headers_view(hs@));
    while i < hs.len()
        invariant
            i <= hs@.len(),
            content_length_value(headers_view(hs@)) == content_length_value(headers_view(hs@).skip(i as int)),
        decreases hs@.len() - i,
    {
        assert(headers_view(hs@).skip(i as int).drop_first() =~= headers_view(hs@).skip(i + 1));
        match Header::from_wire_name(hs[i].0.as_str()) {
            Some(Header::ContentLength) => {
                return Some(&hs[i].1);
            },
            _ => {},
        }
        i = i + 1;
    }
    None
}

impl Request {
    /// The length that the first Content-Length header gives, if it gives one.
    pub fn content_length(&self) -> (r: Option<usize>)
        ensures
            match content_length_value(headers_view(self.headers@)) {
                Some(v) => match parse_length(v) {
                    Some(n) => r == Some(n as usize),
                    None => r.is_none(),
                },
                None => r.is_none(),
            },
    {
        match content_length_exec(&self.headers) {
            Some(v) => parse_length_exec(v.as_str()),
            None => None,
        }
    }
}

/// Reads one request off the bytes `input` of a connection: the request line,
/// the header lines up to the first empty line, and, where a Content-Length
/// header asks for `n` bytes and they are there, a body of those `n` bytes.
pub fn parse_request(input: &[u8]) -> (r: Option<Request>)
    ensures
        match r {
            Some(q) => parse(input@) == Some(q@),
            None => parse(input@).is_none(),
        },
{
    let (lines, end) = read_head(input);
    let ghost lv = lines@.map_values(|l: Vec<u8>| l@);
    proof {
        lemma_head_end_bounds(input@, 0);
    }
    if lines.len() == 0 {
        return None;
    }
    assert(lv[0] == lines@[0]@);
    let first = lines[0].as_slice();
    let i1 = find_byte_exec(first, 32, 0);
    proof {
        lemma_find_byte_bounds(first@, 32, 0);
    }
    if i1 >= first.len() {
        return None;
    }
    let i2 = find_byte_exec(first, 32, i1 + 1);
    proof {
        lemma_find_byte_bounds(first@, 32, i1 + 1);
    }
    if i2 >= first.len() {
        return None;
    }
    let i3 = find_byte_exec(first, 32, i2 + 1);
    proof {
        lemma_find_byte_bounds(first@, 32, i2 + 1);
    }
    let method_text = match utf8_string(copy_range(first, 0, i1)) {
        Some(t) => t,
        None => return None,
    };
    let method = match Method::parse(method_text.as_str()) {
        Some(m) => m,
        None => return None,
    };
    let path = match utf8_string(copy_range(first, i1 + 1, i2)) {
        Some(t) => t,
        None => return None,
    };
    let protocol_version = match utf8_string(copy_range(first, i2 + 1, i3)) {
        Some(t) => t,
        None => return None,
    };
    let mut headers: Headers = Vec::new();
    let mut text = true;
    let mut k: usize = 1;
    assert(lv.subrange(1, 1) =~= Seq::<Seq<u8>>::empty());
    while k < lines.len()
        invariant
            1 <= k <= lines@.len(),
            lv == lines@.map_values(|l: Vec<u8>| l@),
            text == all_text(raw_headers(lv.subrange(1, k as int))),
            text ==> headers_view(headers@) == decode_headers(raw_headers(lv.subrange(1, k as int))),
        decreases lines@.len() - k,
    {
        let ghost prev = raw_headers(lv.subrange(1, k as int));
        assert(lv.subrange(1, k + 1).drop_last() =~= lv.subrange(1, k as int));
        assert(lv.subrange(1, k + 1).last() == lines@[k as int]@);
        match split_header_line_exec(lines[k].as_slice()) {
            Some(pair) => {
                let ghost raw_pair = (pair.0@, pair.1@);
                let ghost now = prev.push(raw_pair);
                assert(raw_headers(lv.subrange(1, k + 1)) == now);
                proof {
                    lemma_all_text_push(prev, raw_pair);
                }
                let name = utf8_string(pair.0);
                let value = utf8_string(pair.1);
                match (name, value) {
                    (Some(n), Some(v)) => {
                        if text {
                            let ghost before = headers@;
                            headers.push((n, v));
                            assert(headers_view(headers@) =~= headers_view(before).push((n@, v@)));
                            assert(decode_headers(now) =~= decode_headers(prev).push(
                                (decode_utf8(raw_pair.0), decode_utf8(raw_pair.1)),
                            ));
                        }
                    },
                    _ => {
                        text = false;
                    },
                }
            },
            None => {
                assert(raw_headers(lv.subrange(1, k + 1)) == prev);
            },
        }
        k = k + 1;
    }
    assert(lv.subrange(1, lv.len() as int) =~= lv.drop_first());
    if !text {
        return None;
    }
    let body = match content_length_exec(&headers) {
        Some(v) => match parse_length_exec(v.as_str()) {
            Some(n) => if n <= input.len() - end {
                Some(copy_range(input, end, end + n))
            } else {
                None
            },
            None => None,
        },
        None => None,
    };
    let req = Request { method, path, protocol_version, headers, body };
    assert(req@ == parse(input@).unwrap());
    Some(req)
}

/// The bytes of a request that has a request line and nothing else:
/// `<method> <path> <version>`, CR LF, and the empty line.
pub open spec fn bare_request(method: Seq<u8>, path: Seq<u8>, version: Seq<u8>) -> Seq<u8> {
    method + seq![32u8] + path + seq![32u8] + version + seq![13u8, 10u8, 13u8, 10u8]
}

/// A token of a request line: text without spaces or line feeds.
pub open spec fn is_token(t: Seq<u8>) -> bool {
    valid_utf8(t) && forall|j: int| 0 <= j < t.len() ==> #[trigger] t[j] != 32 && t[j] != 10
}

/// A request with no header lines and no body parses to exactly its method,
/// path and protocol version, with an empty header list and no body.
pub proof fn lemma_bare_request_parses(method: Seq<u8>, path: Seq<u8>, version: Seq<u8>, m: Method)
    requires
        is_token(method),
        is_token(path),
        is_token(version),
        method.len() > 0,
        method_named(decode_utf8(method)) == Some(m),
    ensures
        parse(bare_request(method, path, version)) == Some(
            RequestView {
                method: m,
                path: decode_utf8(path),
                protocol_version: decode_utf8(version),
                headers: Seq::empty(),
                body: None,
            },
        ),
{
    let s = bare_request(method, path, version);
    let a = method.len() as int;
    let b = a + 1 + path.len();
    let n = b + 1 + version.len();
    let l = s.subrange(0, n);
    assert(s.len() == n + 4);
    assert forall|j: int| 0 <= j < n implies s[j] != 10 && (s[j] == 32 <==> (j == a || j == b)) by {
        if j < a {
            assert(s[j] == method[j]);
        } else if a < j < b {
            assert(s[j] == path[j - a - 1]);
        } else if b < j {
            assert(s[j] == version[j - b - 1]);
        }
    }
    assert(s[n] == 13);
    assert(s[n + 1] == 10);
    assert(s[n + 2] == 13);
    assert(s[n + 3] == 10);
    lemma_find_byte_at(s, 10, 0, n + 1);
    assert(line_at(s, 0) =~= l);
    assert(after_line(s, 0) == n + 2);
    lemma_find_byte_at(s, 10, n + 2, n + 3);
    assert(line_at(s, n + 2).len() == 0);
    assert(head_from(s, n + 2) == (Seq::<Seq<u8>>::empty(), n + 4));
    assert(head_from(s, 0).0 =~= seq![l]);
    assert(head_from(s, 0).1 == n + 4);
    lemma_find_byte_at(l, 32, 0, a);
    lemma_find_byte_at(l, 32, a + 1, b);
    lemma_find_byte_absent(l, 32, b + 1);
    assert(l.subrange(0, a) =~= method);
    assert(l.subrange(a + 1, b) =~= path);
    assert(l.subrange(b + 1, n) =~= version);
    assert(seq![l].drop_first() =~= Seq::<Seq<u8>>::empty());
    assert(decode_headers(Seq::empty()) =~= Seq::<(Seq<char>, Seq<char>)>::empty());
}

} // verus!
