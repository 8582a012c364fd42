//! Paths as they are shown: relative to a base directory where they lie
//! below it.

use crate::text::chars_of;
use vstd::prelude::*;

verus! {

/// `path` as named from `base`. Where `base` leads to `path` (it is a prefix
/// that ends at a separator, or at the end of `path`), what follows it,
/// without the separator; in every other case `path` itself.
pub open spec fn relative_to(path: Seq<char>, base: Seq<char>) -> Seq<char> {
    if base.len() > 0 && base.is_prefix_of(path) {
        let rest = path.skip(base.len() as int);
        if rest.len() == 0 {
            rest
        } else if rest[0] == '/' {
            rest.skip(1)
        } else if base.last() == '/' {
            rest
        } else {
            path
        }
    } else {
        path
    }
}

/// The length of the longest common prefix of `a` and `b`.
fn common_prefix_len(a: &Vec<char>, b: &Vec<char>) -> (k: usize)
    ensures
        k <= a.len(),
        k <= b.len(),
        a@.take(k as int) == b@.take(k as int),
        k < a.len() && k < b.len() ==> a[k as int] != b[k as int],
{
    let mut k: usize = 0;
    while k < a.len() && k < b.len() && a[k] == b[k]
        invariant
            k <= a.len(),
            k <= b.len(),
            a@.take(k as int) =~= b@.take(k as int),
        decreases a.len() - k,
    {
        k += 1;
        assert(a@.take(k as int) =~= a@.take(k - 1).push(a[k - 1]));
        assert(b@.take(k as int) =~= b@.take(k - 1).push(b[k - 1]));
    }
    k
}

/// The string of the characters of `v` from index `from` on.
fn string_from(v: &Vec<char>, from: usize) -> (s: String)
    requires
        from <= v.len(),
    ensures
        s@ == v@.skip(from as int),
{
    let mut s = String::new();
    let mut i: usize = from;
    while i < v.len()
        invariant
            from <= i <= v.len(),
            s@ == v@.subrange(from as int, i as int),
        decreases v.len() - i,
    {
        s.push(v[i]);
        i += 1;
        assert(v@.subrange(from as int, i as int) =~= v@.subrange(from as int, i - 1).push(
            v[i - 1],
        ));
    }
    assert(v@.subrange(from as int, v.len() as int) =~= v@.skip(from as int));
    s
}

/// The name under which `path` is shown when `base` is the directory the
/// session started in.
pub fn display_path(path: &str, base: &str) -> (shown: String)
    ensures
        shown@ == relative_to(path@, base@),
{
    let p = chars_of(path);
    let b = chars_of(base);
    let n = b.len();
    if n == 0 || common_prefix_len(&p, &b) < n {
        proof {
            if n > 0 && base@.is_prefix_of(path@) {
                assert(p@.take(n as int) =~= b@.take(n as int));
            }
        }
        return path.to_owned();
    }
    assert(b@.take(n as int) =~= b@);
    assert(base@.is_prefix_of(path@));
    if p.len() == n {
        string_from(&p, n)
    } else if p[n] == '/' {
        assert(p@.skip(n as int).skip(1) =~= p@.skip(n + 1));
        string_from(&p, n + 1)
    } else if b[n - 1] == '/' {
        string_from(&p, n)
    } else {
        path.to_owned()
    }
}

} // verus!
