//! Responses and their wire form.
use vstd::prelude::*;
use crate::header::Headers;
use crate::request::headers_view;
use crate::status::Status;

verus! {

/// A response to be written: a status, a header list sent in order, and an
/// optional body. The caller supplies a Content-Length header that agrees
/// with the body; the response does not add one.
pub struct Response<'a> {
    pub status: &'a Status,
    pub body: Option<&'a str>,
    pub headers: &'a Headers,
}

/// The header lines: `<name>: <value>` and CR LF for each pair, in order.
pub open spec fn header_lines(hs: Seq<(Seq<char>, Seq<char>)>) -> Seq<char>
    decreases hs.len(),
{
    if hs.len() == 0 {
        Seq::empty()
    } else {
        header_lines(hs.drop_last()) + hs.last().0 + ": "@ + hs.last().1 + "\r\n"@
    }
}

/// The wire form of a response: the status line and CR LF, the header lines,
/// then, only where there is a body, an empty line and the body.
pub open spec fn wire_form(status: Status, hs: Seq<(Seq<char>, Seq<char>)>, body: Option<Seq<char>>) -> Seq<char> {
    let head = status.status_line() + "\r\n"@ + header_lines(hs);
    match body {
        Some(b) => head + "\r\n"@ + b,
        None => head,
    }
}

impl<'a> Response<'a> {
    pub fn new(status: &'a Status, body: Option<&'a str>, headers: &'a Headers) -> (r: Response<'a>)
        ensures
            r.status == status,
            r.body == body,
            r.headers == headers,
    {
        Response { body, headers, status }
    }

    /// The body's characters, if there is a body.
    pub open spec fn body_chars(&self) -> Option<Seq<char>> {
        match self.body {
            Some(b) => Some(b@),
            None => None,
        }
    }

    /// The exact text to write on the connection.
    pub fn to_string(&self) -> (r: String)
        ensures
            r@ == wire_form(*self.status, headers_view(self.headers@), self.body_chars()),
    {
        let mut out = self.status.response_string();
        out.append("\r\n");
        let ghost start = out@;
        let hs = self.headers;
        let mut i: usize = 0;
        assert(headers_view(hs@).take(0) =~= Seq::<(Seq<char>, Seq<char>)>::empty());
        while i < hs.len()
            invariant
                i <= hs@.len(),
                out@ == start + header_lines(headers_view(hs@).take(i as int)),
            decreases hs@.len() - i,
        {
            let ghost before = out@;
            out.append(hs[i].0.as_str());
            out.append(": ");
            out.append(hs[i].1.as_str());
            out.append("\r\n");
            assert(headers_view(hs@).take(i + 1).drop_last() =~= headers_view(hs@).take(i as int));
            i = i + 1;
            assert(out@ =~= start + header_lines(headers_view(hs@).take(i as int)));
        }
        assert(headers_view(hs@).take(i as int) =~= headers_view(hs@));
        match self.body {
            Some(b) => {
                out.append("\r\n");
                out.append(b);
            },
            None => {},
        }
        out
    }
}

} // verus!
