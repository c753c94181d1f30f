//! Character-level helpers: a string as a vector of characters, and tests on
//! a range of it for a prefix, a suffix, or equality.

use vstd::prelude::*;

verus! {

/// `pat` stands at the start of `s`.
pub open spec fn has_prefix(s: Seq<char>, pat: Seq<char>) -> bool {
    pat.len() <= s.len() && s.subrange(0, pat.len() as int) == pat
}

/// `pat` stands at the end of `s`.
pub open spec fn has_suffix(s: Seq<char>, pat: Seq<char>) -> bool {
    pat.len() <= s.len() && s.subrange(s.len() - pat.len(), s.len() as int) == pat
}

/// The characters of a string, in order.
pub fn to_chars(s: &str) -> (out: Vec<char>)
    ensures
        out@ == s@,
{
    let mut out: Vec<char> = Vec::new();
    for c in it: s.chars()
        invariant
            it.seq() == s@,
            out@ == s@.subrange(0, it.index() as int),
    {
        out.push(c);
        assert(out@ =~= s@.subrange(0, it.index() + 1));
    }
    assert(out@ =~= s@);
    out
}

/// Whether the characters of `v` between `from` and `to` are exactly `pat`.
pub fn range_equals(v: &Vec<char>, from: usize, to: usize, pat: &Vec<char>) -> (r: bool)
    requires
        from <= to <= v.len(),
    ensures
        r == (v@.subrange(from as int, to as int) == pat@),
{
    if to - from != pat.len() {
        return false;
    }
    let mut i: usize = 0;
    while i < pat.len()
        invariant
            from <= to <= v.len(),
            to - from == pat.len(),
            i <= pat.len(),
            forall|k: int| 0 <= k < i ==> v@[from + k] == pat@[k],
        decreases pat.len() - i,
    {
        if v[from + i] != pat[i] {
            assert(v@.subrange(from as int, to as int)[i as int] != pat@[i as int]);
            return false;
        }
        i += 1;
    }
    assert(v@.subrange(from as int, to as int) =~= pat@);
    true
}

/// Whether the characters of `v` between `from` and `to` begin with `pat`.
pub fn range_starts_with(v: &Vec<char>, from: usize, to: usize, pat: &Vec<char>) -> (r: bool)
    requires
        from <= to <= v.len(),
    ensures
        r == has_prefix(v@.subrange(from as int, to as int), pat@),
{
    if to - from < pat.len() {
        return false;
    }
    let r = range_equals(v, from, from + pat.len(), pat);
    assert(v@.subrange(from as int, to as int).subrange(0, pat.len() as int)
        =~= v@.subrange(from as int, from + pat.len()));
    r
}

/// Whether the characters of `v` between `from` and `to` end with `pat`.
pub fn range_ends_with(v: &Vec<char>, from: usize, to: usize, pat: &Vec<char>) -> (r: bool)
    requires
        from <= to <= v.len(),
    ensures
        r == has_suffix(v@.subrange(from as int, to as int), pat@),
{
    if to - from < pat.len() {
        return false;
    }
    let r = range_equals(v, to - pat.len(), to, pat);
    assert(v@.subrange(from as int, to as int).subrange(to - from - pat.len(), to - from)
        =~= v@.subrange(to - pat.len(), to as int));
    r
}

} // verus!
