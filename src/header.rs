//! Well-known header names and header pairs.
use vstd::prelude::*;
use crate::text::{eq_ignore_case, lower, split_caps, split_caps_exec, string_from_chars};

verus! {

/// A header as a (name, value) pair of strings.
pub type HeaderPair = (String, String);

/// An ordered header list; duplicates are kept.
pub type Headers = Vec<HeaderPair>;

/// The header names this server knows by name.
#[derive(Debug, Clone, Copy, PartialEq, Eq, Structural)]
pub enum Header {
    ContentType,
    ContentLength,
    Accept,
    AcceptCharset,
    AcceptEncoding,
    AcceptLanguage,
    Authorization,
    CacheControl,
    Connection,
    Cookie,
    Host,
    Referer,
    Server,
    Date,
    AccessControlAllowOrigin,
}

/// Every known header, in declaration order.
pub open spec fn all_headers() -> Seq<Header> {
    seq![Header::ContentType, Header::ContentLength, Header::Accept, Header::AcceptCharset, Header::AcceptEncoding, Header::AcceptLanguage, Header::Authorization, Header::CacheControl, Header::Connection, Header::Cookie, Header::Host, Header::Referer, Header::Server, Header::Date, Header::AccessControlAllowOrigin]
}

/// The first of `hs` whose wire name equals `s` ignoring ASCII case.
pub open spec fn first_named(hs: Seq<Header>, s: Seq<char>) -> Option<Header>
    decreases hs.len(),
{
    if hs.len() == 0 {
        None
    } else if lower(hs[0].wire_name()) == lower(s) {
        Some(hs[0])
    } else {
        first_named(hs.drop_first(), s)
    }
}

/// The known header whose wire name equals `s` ignoring ASCII case.
pub open spec fn header_named(s: Seq<char>) -> Option<Header> {
    first_named(all_headers(), s)
}

impl Header {
    /// The variant's name.
    pub open spec fn name(self) -> Seq<char> {
        match self {
            Header::ContentType => "ContentType"@,
            Header::ContentLength => "ContentLength"@,
            Header::Accept => "Accept"@,
            Header::AcceptCharset => "AcceptCharset"@,
            Header::AcceptEncoding => "AcceptEncoding"@,
            Header::AcceptLanguage => "AcceptLanguage"@,
            Header::Authorization => "Authorization"@,
            Header::CacheControl => "CacheControl"@,
            Header::Connection => "Connection"@,
            Header::Cookie => "Cookie"@,
            Header::Host => "Host"@,
            Header::Referer => "Referer"@,
            Header::Server => "Server"@,
            Header::Date => "Date"@,
            Header::AccessControlAllowOrigin => "AccessControlAllowOrigin"@,
        }
    }

    /// The name sent on the wire: a hyphen before each inner capital.
    pub open spec fn wire_name(self) -> Seq<char> {
        split_caps(self.name(), '-')
    }

    pub fn variant_name(&self) -> (r: &'static str)
        ensures
            r@ == self.name(),
    {
        match self {
            Header::ContentType => "ContentType",
            Header::ContentLength => "ContentLength",
            Header::Accept => "Accept",
            Header::AcceptCharset => "AcceptCharset",
            Header::AcceptEncoding => "AcceptEncoding",
            Header::AcceptLanguage => "AcceptLanguage",
            Header::Authorization => "Authorization",
            Header::CacheControl => "CacheControl",
            Header::Connection => "Connection",
            Header::Cookie => "Cookie",
            Header::Host => "Host",
            Header::Referer => "Referer",
            Header::Server => "Server",
            Header::Date => "Date",
            Header::AccessControlAllowOrigin => "AccessControlAllowOrigin",
        }
    }

    /// The wire name, e.g. `Content-Type`.
    pub fn to_str(&self) -> (r: String)
        ensures
            r@ == self.wire_name(),
    {
        let chars = split_caps_exec(self.variant_name(), '-');
        string_from_chars(&chars)
    }

    /// The header pair `(wire name, value)`.
    pub fn new(&self, value: &str) -> (r: HeaderPair)
        ensures
            r.0@ == self.wire_name(),
            r.1@ == value@,
    {
        (self.to_str(), value.to_owned())
    }
}

impl Header {
    /// The known header whose wire name equals `s` ignoring ASCII case.
    pub fn from_wire_name(s: &str) -> (r: Option<Header>)
        ensures
            r == header_named(s@),
    {
        let hs: Vec<Header> = vec![Header::ContentType, Header::ContentLength, Header::Accept, Header::AcceptCharset, Header::AcceptEncoding, Header::AcceptLanguage, Header::Authorization, Header::CacheControl, Header::Connection, Header::Cookie, Header::Host, Header::Referer, Header::Server, Header::Date, Header::AccessControlAllowOrigin];
        assert(hs@ =~= all_headers());
        assert(hs@.skip(0) =~= hs@);
        let mut i: usize = 0;
        while i < hs.len()
            invariant
                i <= hs@.len(),
                hs@ == all_headers(),
                header_named(s@) == first_named(hs@.skip(i as int), s@),
            decreases hs@.len() - i,
        {
            assert(hs@.skip(i as int).drop_first() =~= hs@.skip(i + 1));
            let name = hs[i].to_str();
            if eq_ignore_case(name.as_str(), s) {
                return Some(hs[i]);
            }
            i = i + 1;
        }
        None
    }
}

/// The lower-case wire name of each known header, written out.
spec fn lower_wire_literal(h: Header) -> Seq<char> {
    match h {
        Header::ContentType => seq!['c', 'o', 'n', 't', 'e', 'n', 't', '-', 't', 'y', 'p', 'e'],
        Header::ContentLength => seq!['c', 'o', 'n', 't', 'e', 'n', 't', '-', 'l', 'e', 'n', 'g', 't', 'h'],
        Header::Accept => seq!['a', 'c', 'c', 'e', 'p', 't'],
        Header::AcceptCharset => seq!['a', 'c', 'c', 'e', 'p', 't', '-', 'c', 'h', 'a', 'r', 's', 'e', 't'],
        Header::AcceptEncoding => seq!['a', 'c', 'c', 'e', 'p', 't', '-', 'e', 'n', 'c', 'o', 'd', 'i', 'n', 'g'],
        Header::AcceptLanguage => seq!['a', 'c', 'c', 'e', 'p', 't', '-', 'l', 'a', 'n', 'g', 'u', 'a', 'g', 'e'],
        Header::Authorization => seq!['a', 'u', 't', 'h', 'o', 'r', 'i', 'z', 'a', 't', 'i', 'o', 'n'],
        Header::CacheControl => seq!['c', 'a', 'c', 'h', 'e', '-', 'c', 'o', 'n', 't', 'r', 'o', 'l'],
        Header::Connection => seq!['c', 'o', 'n', 'n', 'e', 'c', 't', 'i', 'o', 'n'],
        Header::Cookie => seq!['c', 'o', 'o', 'k', 'i', 'e'],
        Header::Host => seq!['h', 'o', 's', 't'],
        Header::Referer => seq!['r', 'e', 'f', 'e', 'r', 'e', 'r'],
        Header::Server => seq!['s', 'e', 'r', 'v', 'e', 'r'],
        Header::Date => seq!['d', 'a', 't', 'e'],
        Header::AccessControlAllowOrigin => seq!['a', 'c', 'c', 'e', 's', 's', '-', 'c', 'o', 'n', 't', 'r', 'o', 'l', '-', 'a', 'l', 'l', 'o', 'w', '-', 'o', 'r', 'i', 'g', 'i', 'n'],
    }
}

#[verifier::rlimit(100)]
#[verifier::spinoff_prover]
proof fn lemma_lower_wire_literal(h: Header)
    ensures
        lower(h.wire_name()) == lower_wire_literal(h),
{
    match h {
        Header::ContentType => {
            assert(h.wire_name() =~= seq!['C', 'o', 'n', 't', 'e', 'n', 't', '-', 'T', 'y', 'p', 'e']) by {
                reveal_strlit("ContentType");
                reveal_with_fuel(split_caps, 12);
            }
            assert(lower(h.wire_name()) =~= lower_wire_literal(h));
        },
        Header::ContentLength => {
            assert(h.wire_name() =~= seq!['C', 'o', 'n', 't', 'e', 'n', 't', '-', 'L', 'e', 'n', 'g', 't', 'h']) by {
                reveal_strlit("ContentLength");
                reveal_with_fuel(split_caps, 14);
            }
            assert(lower(h.wire_name()) =~= lower_wire_literal(h));
        },
        Header::Accept => {
            assert(h.wire_name() =~= seq!['A', 'c', 'c', 'e', 'p', 't']) by {
                reveal_strlit("Accept");
                reveal_with_fuel(split_caps, 7);
            }
            assert(lower(h.wire_name()) =~= lower_wire_literal(h));
        },
        Header::AcceptCharset => {
            assert(h.wire_name() =~= seq!['A', 'c', 'c', 'e', 'p', 't', '-', 'C', 'h', 'a', 'r', 's', 'e', 't']) by {
                reveal_strlit("AcceptCharset");
                reveal_with_fuel(split_caps, 14);
            }
            assert(lower(h.wire_name()) =~= lower_wire_literal(h));
        },
        Header::AcceptEncoding => {
            assert(h.wire_name() =~= seq!['A', 'c', 'c', 'e', 'p', 't', '-', 'E', 'n', 'c', 'o', 'd', 'i', 'n', 'g']) by {
                reveal_strlit("AcceptEncoding");
                reveal_with_fuel(split_caps, 15);
            }
            assert(lower(h.wire_name()) =~= lower_wire_literal(h));
        },
        Header::AcceptLanguage => {
            assert(h.wire_name() =~= seq!['A', 'c', 'c', 'e', 'p', 't', '-', 'L', 'a', 'n', 'g', 'u', 'a', 'g', 'e']) by {
                reveal_strlit("AcceptLanguage");
                reveal_with_fuel(split_caps, 15);
            }
            assert(lower(h.wire_name()) =~= lower_wire_literal(h));
        },
        Header::Authorization => {
            assert(h.wire_name() =~= seq!['A', 'u', 't', 'h', 'o', 'r', 'i', 'z', 'a', 't', 'i', 'o', 'n']) by {
                reveal_strlit("Authorization");
                reveal_with_fuel(split_caps, 14);
            }
            assert(lower(h.wire_name()) =~= lower_wire_literal(h));
        },
        Header::CacheControl => {
            assert(h.wire_name() =~= seq!['C', 'a', 'c', 'h', 'e', '-', 'C', 'o', 'n', 't', 'r', 'o', 'l']) by {
                reveal_strlit("CacheControl");
                reveal_with_fuel(split_caps, 13);
            }
            assert(lower(h.wire_name()) =~= lower_wire_literal(h));
        },
        Header::Connection => {
            assert(h.wire_name() =~= seq!['C', 'o', 'n', 'n', 'e', 'c', 't', 'i', 'o', 'n']) by {
                reveal_strlit("Connection");
                reveal_with_fuel(split_caps, 11);
            }
            assert(lower(h.wire_name()) =~= lower_wire_literal(h));
        },
        Header::Cookie => {
            assert(h.wire_name() =~= seq!['C', 'o', 'o', 'k', 'i', 'e']) by {
                reveal_strlit("Cookie");
                reveal_with_fuel(split_caps, 7);
            }
            assert(lower(h.wire_name()) =~= lower_wire_literal(h));
        },
        Header::Host => {
            assert(h.wire_name() =~= seq!['H', 'o', 's', 't']) by {
                reveal_strlit("Host");
                reveal_with_fuel(split_caps, 5);
            }
            assert(lower(h.wire_name()) =~= lower_wire_literal(h));
        },
        Header::Referer => {
            assert(h.wire_name() =~= seq!['R', 'e', 'f', 'e', 'r', 'e', 'r']) by {
                reveal_strlit("Referer");
                reveal_with_fuel(split_caps, 8);
            }
            assert(lower(h.wire_name()) =~= lower_wire_literal(h));
        },
        Header::Server => {
            assert(h.wire_name() =~= seq!['S', 'e', 'r', 'v', 'e', 'r']) by {
                reveal_strlit("Server");
                reveal_with_fuel(split_caps, 7);
            }
            assert(lower(h.wire_name()) =~= lower_wire_literal(h));
        },
        Header::Date => {
            assert(h.wire_name() =~= seq!['D', 'a', 't', 'e']) by {
                reveal_strlit("Date");
                reveal_with_fuel(split_caps, 5);
            }
            assert(lower(h.wire_name()) =~= lower_wire_literal(h));
        },
        Header::AccessControlAllowOrigin => {
            assert(h.wire_name() =~= seq!['A', 'c', 'c', 'e', 's', 's', '-', 'C', 'o', 'n', 't', 'r', 'o', 'l', '-', 'A', 'l', 'l', 'o', 'w', '-', 'O', 'r', 'i', 'g', 'i', 'n']) by {
                reveal_strlit("AccessControlAllowOrigin");
                reveal_with_fuel(split_caps, 25);
            }
            assert(lower(h.wire_name()) =~= lower_wire_literal(h));
        },
    }
}

proof fn lemma_lower_wire_distinct(g: Header, h: Header)
    requires
        g != h,
    ensures
        lower(g.wire_name()) != lower(h.wire_name()),
{
    lemma_lower_wire_literal(g);
    lemma_lower_wire_literal(h);
    let a = lower_wire_literal(g);
    let b = lower_wire_literal(h);
    if a.len() == b.len() {
        assert(a[0] != b[0] || a[7] != b[7]);
    }
}

proof fn lemma_first_named_at(hs: Seq<Header>, s: Seq<char>, k: int)
    requires
        0 <= k < hs.len(),
        lower(hs[k].wire_name()) == lower(s),
        forall|j: int| 0 <= j < k ==> lower(#[trigger] hs[j].wire_name()) != lower(s),
    ensures
        first_named(hs, s) == Some(hs[k]),
    decreases k,
{
    if k > 0 {
        assert(lower(hs[0].wire_name()) != lower(s));
        let rest = hs.drop_first();
        assert forall|j: int| 0 <= j < k - 1 implies lower(#[trigger] rest[j].wire_name()) != lower(s) by {
            assert(rest[j] == hs[j + 1]);
        }
        lemma_first_named_at(rest, s, k - 1);
    }
}

/// A header's wire name, matched back without regard to case, gives that
/// header again; so distinct headers have distinct wire names.
pub proof fn lemma_wire_name_round_trip(h: Header)
    ensures
        header_named(h.wire_name()) == Some(h),
        forall|g: Header| #[trigger] g.wire_name() == h.wire_name() ==> g == h,
{
    let hs = all_headers();
    let k = choose|k: int| 0 <= k < hs.len() && hs[k] == h;
    assert forall|j: int| 0 <= j < k implies lower(#[trigger] hs[j].wire_name()) != lower(h.wire_name()) by {
        lemma_lower_wire_distinct(hs[j], h);
    }
    lemma_first_named_at(hs, h.wire_name(), k);
    assert forall|g: Header| #[trigger] g.wire_name() == h.wire_name() implies g == h by {
        if g != h {
            lemma_lower_wire_distinct(g, h);
        }
    }
}

} // verus!
