//! Request methods.
use vstd::prelude::*;
use crate::text::{same_text, upper_case, upper_of};

verus! {

/// The request methods this server recognises.
#[derive(Debug, Clone, Copy, PartialEq, Eq, Structural)]
pub enum Method {
    GET,
    HEAD,
    POST,
    PUT,
    DELETE,
    CONNECT,
    OPTIONS,
    TRACE,
    PATCH,
}

/// Every method, in declaration order.
pub open spec fn all_methods() -> Seq<Method> {
    seq![Method::GET, Method::HEAD, Method::POST, Method::PUT, Method::DELETE, Method::CONNECT, Method::OPTIONS, Method::TRACE, Method::PATCH]
}

/// The first of `ms` whose name is `s`.
pub open spec fn first_method(ms: Seq<Method>, s: Seq<char>) -> Option<Method>
    decreases ms.len(),
{
    if ms.len() == 0 {
        None
    } else if ms[0].name() == s {
        Some(ms[0])
    } else {
        first_method(ms.drop_first(), s)
    }
}

/// The method whose upper-case name is exactly `u`.
pub open spec fn method_of_upper(u: Seq<char>) -> Option<Method> {
    first_method(all_methods(), u)
}

/// The method named `s` in any case: the one whose name is the upper-case
/// form of `s`.
pub open spec fn method_named(s: Seq<char>) -> Option<Method> {
    method_of_upper(upper_of(s))
}

impl Method {
    /// The method's name in upper case.
    pub open spec fn name(self) -> Seq<char> {
        match self {
            Method::GET => "GET"@,
            Method::HEAD => "HEAD"@,
            Method::POST => "POST"@,
            Method::PUT => "PUT"@,
            Method::DELETE => "DELETE"@,
            Method::CONNECT => "CONNECT"@,
            Method::OPTIONS => "OPTIONS"@,
            Method::TRACE => "TRACE"@,
            Method::PATCH => "PATCH"@,
        }
    }

    /// The method's name in upper case, e.g. `GET`.
    pub fn as_str(&self) -> (r: &'static str)
        ensures
            r@ == self.name(),
    {
        match self {
            Method::GET => "GET",
            Method::HEAD => "HEAD",
            Method::POST => "POST",
            Method::PUT => "PUT",
            Method::DELETE => "DELETE",
            Method::CONNECT => "CONNECT",
            Method::OPTIONS => "OPTIONS",
            Method::TRACE => "TRACE",
            Method::PATCH => "PATCH",
        }
    }

    /// The method whose upper-case name is exactly `u`.
    pub fn from_upper(u: &str) -> (r: Option<Method>)
        ensures
            r == method_of_upper(u@),
    {
        let ms: Vec<Method> = vec![
            Method::GET,
            Method::HEAD,
            Method::POST,
            Method::PUT,
            Method::DELETE,
            Method::CONNECT,
            Method::OPTIONS,
            Method::TRACE,
            Method::PATCH,
        ];
        assert(ms@ =~= all_methods());
        assert(ms@.skip(0) =~= ms@);
        let mut i: usize = 0;
        while i < ms.len()
            invariant
                i <= ms@.len(),
                ms@ == all_methods(),
                method_of_upper(u@) == first_method(ms@.skip(i as int), u@),
            decreases ms@.len() - i,
        {
            assert(ms@.skip(i as int).drop_first() =~= ms@.skip(i + 1));
            if same_text(ms[i].as_str(), u) {
                return Some(ms[i]);
            }
            i = i + 1;
        }
        None
    }

    /// The method named `input` in any case.
    pub fn parse(input: &str) -> (r: Option<Method>)
        ensures
            r == method_named(input@),
    {
        let upper = upper_case(input);
        Method::from_upper(upper.as_str())
    }
}

impl core::str::FromStr for Method {
    type Err = ();

    fn from_str(input: &str) -> (r: Result<Method, ()>)
        ensures
            r == (match method_named(input@) {
                Some(m) => Ok(m),
                None => Err(()),
            }),
    {
        match Method::parse(input) {
            Some(m) => Ok(m),
            None => Err(()),
        }
    }
}

} // verus!
