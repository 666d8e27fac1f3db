//! Scanning and slicing byte sequences.
use vstd::prelude::*;

verus! {

/// The first index at or after `from` that holds `b`, or the length if none does.
pub open spec fn find_byte(s: Seq<u8>, b: u8, from: int) -> int
    decreases s.len() - from,
{
    if from >= s.len() {
        s.len() as int
    } else if s[from] == b {
        from
    } else {
        find_byte(s, b, from + 1)
    }
}

pub proof fn lemma_find_byte_bounds(s: Seq<u8>, b: u8, from: int)
    requires
        0 <= from <= s.len(),
    ensures
        from <= find_byte(s, b, from) <= s.len(),
        find_byte(s, b, from) < s.len() ==> s[find_byte(s, b, from)] == b,
    decreases s.len() - from,
{
    if from < s.len() && s[from] != b {
        lemma_find_byte_bounds(s, b, from + 1);
    }
}

/// The first index at or after `from` where `": "` begins, or the length if
/// there is none.
pub open spec fn find_separator(s: Seq<u8>, from: int) -> int
    decreases s.len() - from,
{
    if from + 1 >= s.len() {
        s.len() as int
    } else if s[from] == 58 && s[from + 1] == 32 {
        from
    } else {
        find_separator(s, from + 1)
    }
}

pub proof fn lemma_find_separator_bounds(s: Seq<u8>, from: int)
    requires
        0 <= from,
    ensures
        find_separator(s, from) == s.len() || from <= find_separator(s, from) < s.len() - 1,
    decreases s.len() - from,
{
    if from + 1 < s.len() && !(s[from] == 58 && s[from + 1] == 32) {
        lemma_find_separator_bounds(s, from + 1);
    }
}

/// `find_byte` stops at the first `b`.
pub proof fn lemma_find_byte_at(s: Seq<u8>, b: u8, from: int, k: int)
    requires
        0 <= from <= k < s.len(),
        s[k] == b,
        forall|j: int| from <= j < k ==> s[j] != b,
    ensures
        find_byte(s, b, from) == k,
    decreases k - from,
{
    if from < k {
        lemma_find_byte_at(s, b, from + 1, k);
    }
}

/// `find_byte` gives the length where no `b` follows.
pub proof fn lemma_find_byte_absent(s: Seq<u8>, b: u8, from: int)
    requires
        0 <= from <= s.len(),
        forall|j: int| from <= j < s.len() ==> s[j] != b,
    ensures
        find_byte(s, b, from) == s.len(),
    decreases s.len() - from,
{
    if from < s.len() {
        lemma_find_byte_absent(s, b, from + 1);
    }
}

pub fn find_byte_exec(s: &[u8], b: u8, from: usize) -> (r: usize)
    requires
        from <= s@.len(),
    ensures
        r == find_byte(s@, b, from as int),
{
    let mut i = from;
    while i < s.len()
        invariant
            from <= i <= s@.len(),
            find_byte(s@, b, from as int) == find_byte(s@, b, i as int),
        decreases s@.len() - i,
    {
        if s[i] == b {
            return i;
        }
        i = i + 1;
    }
    i
}

pub fn find_separator_exec(s: &[u8], from: usize) -> (r: usize)
    requires
        from <= s@.len(),
    ensures
        r == find_separator(s@, from as int),
{
    let mut i = from;
    while s.len() - i > 1
        invariant
            from <= i <= s@.len(),
            find_separator(s@, from as int) == find_separator(s@, i as int),
        decreases s@.len() - i,
    {
        if s[i] == 58 && s[i + 1] == 32 {
            return i;
        }
        i = i + 1;
    }
    s.len()
}

/// A copy of `s[a..b]`.
pub fn copy_range(s: &[u8], a: usize, b: usize) -> (r: Vec<u8>)
    requires
        a <= b <= s@.len(),
    ensures
        r@ == s@.subrange(a as int, b as int),
{
    let mut out: Vec<u8> = Vec::new();
    let mut i = a;
    while i < b
        invariant
            a <= i <= b,
            b <= s@.len(),
            out@ == s@.subrange(a as int, i as int),
        decreases b - i,
    {
        out.push(s[i]);
        i = i + 1;
        assert(out@ =~= s@.subrange(a as int, i as int));
    }
    out
}

} // verus!
