//! Response statuses: numeric codes and reason phrases.
use vstd::prelude::*;
use crate::text::{decimal, push_decimal, split_caps, split_caps_exec, string_from_chars, upper, upper_in_place};

verus! {

/// The statuses this server answers with.
#[derive(Debug, Clone, Copy, PartialEq, Eq, Structural)]
pub enum Status {
    Okay,
    Created,
    Accepted,
    BadRequest,
    NotFound,
    InternalServerError,
}

/// The text that starts every status line.
pub open spec fn protocol_prefix() -> Seq<char> {
    seq!['H', 'T', 'T', 'P', '/', '1', '.', '1', ' ']
}

impl Status {
    /// The numeric status code.
    pub open spec fn code(self) -> i32 {
        match self {
            Status::Okay => 200,
            Status::Created => 201,
            Status::Accepted => 202,
            Status::BadRequest => 400,
            Status::NotFound => 404,
            Status::InternalServerError => 500,
        }
    }

    /// The status's name, from which its reason phrase is derived.
    pub open spec fn name(self) -> Seq<char> {
        match self {
            Status::Okay => "Ok"@,
            Status::Created => "Created"@,
            Status::Accepted => "Accepted"@,
            Status::BadRequest => "BadRequest"@,
            Status::NotFound => "NotFound"@,
            Status::InternalServerError => "InternalServerError"@,
        }
    }

    /// The reason phrase: the name split into words at its capitals, in upper case.
    pub open spec fn reason(self) -> Seq<char> {
        upper(split_caps(self.name(), ' '))
    }

    /// `HTTP/1.1 <code> <REASON>`.
    pub open spec fn status_line(self) -> Seq<char> {
        protocol_prefix() + decimal(self.code() as nat) + seq![' '] + self.reason()
    }

    pub fn status_code(&self) -> (r: i32)
        ensures
            r == self.code(),
    {
        match self {
            Status::Okay => 200,
            Status::Created => 201,
            Status::Accepted => 202,
            Status::BadRequest => 400,
            Status::NotFound => 404,
            Status::InternalServerError => 500,
        }
    }

    pub fn variant_name(&self) -> (r: &'static str)
        ensures
            r@ == self.name(),
    {
        match self {
            Status::Okay => "Ok",
            Status::Created => "Created",
            Status::Accepted => "Accepted",
            Status::BadRequest => "BadRequest",
            Status::NotFound => "NotFound",
            Status::InternalServerError => "InternalServerError",
        }
    }

    /// Appends the characters of the reason phrase.
    pub fn push_reason(&self, out: &mut Vec<char>)
        ensures
            final(out)@ == old(out)@ + self.reason(),
    {
        let mut words = split_caps_exec(self.variant_name(), ' ');
        upper_in_place(&mut words);
        let mut i: usize = 0;
        let ghost start = out@;
        while i < words.len()
            invariant
                i <= words@.len(),
                words@ == self.reason(),
                out@ == start + words@.take(i as int),
            decreases words@.len() - i,
        {
            out.push(words[i]);
            i = i + 1;
            assert(out@ =~= start + words@.take(i as int));
        }
        assert(words@.take(i as int) =~= words@);
    }

    /// The reason phrase, e.g. `INTERNAL SERVER ERROR`.
    pub fn reason_phrase(&self) -> (r: String)
        ensures
            r@ == self.reason(),
    {
        let mut out: Vec<char> = Vec::new();
        self.push_reason(&mut out);
        assert(out@ =~= self.reason());
        string_from_chars(&out)
    }

    /// Appends the status line, without its line terminator.
    pub fn push_status_line(&self, out: &mut Vec<char>)
        ensures
            final(out)@ == old(out)@ + self.status_line(),
    {
        let ghost start = out@;
        out.push('H');
        out.push('T');
        out.push('T');
        out.push('P');
        out.push('/');
        out.push('1');
        out.push('.');
        out.push('1');
        out.push(' ');
        assert(out@ =~= start + protocol_prefix());
        let code = self.status_code();
        push_decimal(out, code as usize);
        out.push(' ');
        self.push_reason(out);
        assert(out@ =~= start + self.status_line());
    }

    /// The status line `HTTP/1.1 <code> <REASON>`, without its line terminator.
    pub fn response_string(&self) -> (r: String)
        ensures
            r@ == self.status_line(),
    {
        let mut out: Vec<char> = Vec::new();
        self.push_status_line(&mut out);
        assert(out@ =~= self.status_line());
        string_from_chars(&out)
    }
}

} // verus!
