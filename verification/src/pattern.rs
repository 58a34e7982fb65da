use vstd::prelude::*;

verus! {

/// What it means for a path pattern to match a request path: `*` matches
/// everything, a pattern ending in `*` matches any path that starts with the
/// part before the `*`, and any other pattern matches only the identical path.
pub open spec fn spec_matches(pattern: Seq<char>, path: Seq<char>) -> bool {
    if pattern == seq!['*'] {
        true
    } else if pattern.len() > 0 && pattern.last() == '*' {
        let prefix = pattern.subrange(0, pattern.len() - 1);
        path.len() >= prefix.len() && path.subrange(0, prefix.len() as int) == prefix
    } else {
        path == pattern
    }
}

/// True iff the first `n` characters of `a` and `b` agree.
fn prefix_eq(a: &str, b: &str, n: usize) -> (r: bool)
    requires
        n <= a@.len(),
        n <= b@.len(),
    ensures
        r == (a@.subrange(0, n as int) == b@.subrange(0, n as int)),
{
    let mut i: usize = 0;
    while i < n
        invariant
            i <= n,
            n <= a@.len(),
            n <= b@.len(),
            forall|j: int| 0 <= j < i ==> a@[j] == b@[j],
        decreases n - i,
    {
        if a.get_char(i) != b.get_char(i) {
            assert(a@.subrange(0, n as int)[i as int] != b@.subrange(0, n as int)[i as int]);
            return false;
        }
        i += 1;
    }
    assert(a@.subrange(0, n as int) =~= b@.subrange(0, n as int));
    true
}

/// Evaluates a routing pattern against a request path.
pub fn matches_pattern(pattern: &str, path: &str) -> (r: bool)
    ensures
        r == spec_matches(pattern@, path@),
{
    let plen = pattern.unicode_len();
    if plen == 1 && pattern.get_char(0) == '*' {
        assert(pattern@ =~= seq!['*']);
        true
    } else if plen > 0 && pattern.get_char(plen - 1) == '*' {
        assert(pattern@ != seq!['*']);
        let pathlen = path.unicode_len();
        if pathlen >= plen - 1 {
            prefix_eq(path, pattern, plen - 1)
        } else {
            false
        }
    } else {
        assert(pattern@ != seq!['*']) by {
            if pattern@ == seq!['*'] {
                assert(pattern@.len() == 1 && pattern@.last() == '*');
            }
        }
        let pathlen = path.unicode_len();
        if pathlen != plen {
            false
        } else {
            let r = prefix_eq(path, pattern, plen);
            assert(path@.subrange(0, plen as int) =~= path@);
            assert(pattern@.subrange(0, plen as int) =~= pattern@);
            r
        }
    }
}



} // verus!
