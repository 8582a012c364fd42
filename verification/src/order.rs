//! The order in which a directory's entries are listed.

use crate::text::path_seq;
use vstd::prelude::*;
use vstd::relations::{sorted_by, total_ordering};
use vstd::seq_lib::{lemma_sorted_unique, to_multiset_insert, to_multiset_len};
use vstd::std_specs::iter::IteratorSpec;

verus! {

/// Lexicographic order on paths, character by character and by code point;
/// a proper prefix comes before what it is a prefix of.
pub open spec fn path_le(a: Seq<char>, b: Seq<char>) -> bool
    decreases a.len(),
{
    if a.len() == 0 {
        true
    } else if b.len() == 0 {
        false
    } else if a[0] == b[0] {
        path_le(a.drop_first(), b.drop_first())
    } else {
        (a[0] as u32) < (b[0] as u32)
    }
}

/// `path_le` as a relation.
pub open spec fn path_order() -> spec_fn(Seq<char>, Seq<char>) -> bool {
    |a: Seq<char>, b: Seq<char>| path_le(a, b)
}

/// The entries `raw` in listing order: the one arrangement of them that
/// `path_le` sorts.
pub open spec fn sorted_listing(raw: Seq<Seq<char>>) -> Seq<Seq<char>> {
    raw.sort_by(path_order())
}

/// A path comes no later than itself.
pub proof fn lemma_path_le_reflexive(a: Seq<char>)
    ensures
        path_le(a, a),
    decreases a.len(),
{
    if a.len() > 0 {
        lemma_path_le_reflexive(a.drop_first());
    }
}

/// Two paths of which each comes no later than the other are one path.
pub proof fn lemma_path_le_antisymmetric(a: Seq<char>, b: Seq<char>)
    requires
        path_le(a, b),
        path_le(b, a),
    ensures
        a == b,
    decreases a.len(),
{
    if a.len() == 0 || b.len() == 0 {
        assert(a =~= b);
    } else {
        lemma_path_le_antisymmetric(a.drop_first(), b.drop_first());
        assert(a =~= seq![a[0]] + a.drop_first());
        assert(b =~= seq![b[0]] + b.drop_first());
    }
}

/// What comes no later than a path comes no later than what follows it.
pub proof fn lemma_path_le_transitive(a: Seq<char>, b: Seq<char>, c: Seq<char>)
    requires
        path_le(a, b),
        path_le(b, c),
    ensures
        path_le(a, c),
    decreases a.len(),
{
    if a.len() > 0 && a[0] == b[0] && b[0] == c[0] {
        lemma_path_le_transitive(a.drop_first(), b.drop_first(), c.drop_first());
    }
}

/// Of two paths one comes no later than the other.
pub proof fn lemma_path_le_total(a: Seq<char>, b: Seq<char>)
    ensures
        path_le(a, b) || path_le(b, a),
    decreases a.len(),
{
    if a.len() > 0 && b.len() > 0 {
        if a[0] == b[0] {
            lemma_path_le_total(a.drop_first(), b.drop_first());
        } else {
            vstd::utf8::char_u32_cast(a[0], a[0] as u32);
            vstd::utf8::char_u32_cast(b[0], b[0] as u32);
        }
    }
}

/// `path_le` is a total order.
pub proof fn lemma_path_order_total()
    ensures
        total_ordering(path_order()),
{
    let r = path_order();
    assert forall|x: Seq<char>| #[trigger] r(x, x) by {
        lemma_path_le_reflexive(x);
    }
    assert forall|x: Seq<char>, y: Seq<char>| #[trigger] r(x, y) && #[trigger] r(y, x) implies x
        == y by {
        lemma_path_le_antisymmetric(x, y);
    }
    assert forall|x: Seq<char>, y: Seq<char>, z: Seq<char>| #[trigger]
        r(x, y) && #[trigger] r(y, z) implies r(x, z) by {
        lemma_path_le_transitive(x, y, z);
    }
    assert forall|x: Seq<char>, y: Seq<char>| #[trigger] r(x, y) || #[trigger] r(y, x) by {
        lemma_path_le_total(x, y);
    }
}

/// What `sorted_listing` is: sorted, and the same entries, each as often as
/// in `raw`.
pub proof fn lemma_sorted_listing(raw: Seq<Seq<char>>)
    ensures
        sorted_by(sorted_listing(raw), path_order()),
        sorted_listing(raw).to_multiset() == raw.to_multiset(),
        sorted_listing(raw).len() == raw.len(),
        forall|p: Seq<char>| sorted_listing(raw).contains(p) <==> raw.contains(p),
{
    broadcast use vstd::seq_lib::group_to_multiset_ensures;

    lemma_path_order_total();
    raw.lemma_sort_by_ensures(path_order());
    to_multiset_len(raw);
    to_multiset_len(sorted_listing(raw));
    assert forall|p: Seq<char>| sorted_listing(raw).contains(p) <==> raw.contains(p) by {
        assert(sorted_listing(raw).to_multiset().count(p) == raw.to_multiset().count(p));
    }
}

/// Decides `path_le` on two strings.
pub fn path_precedes(a: &str, b: &str) -> (r: bool)
    ensures
        r == path_le(a@, b@),
{
    broadcast use vstd::string::group_string_axioms;

    let mut ia = a.chars();
    let mut ib = b.chars();
    loop
        invariant
            path_le(a@, b@) == path_le(ia.remaining(), ib.remaining()),
            ia.obeys_prophetic_iter_laws(),
            ib.obeys_prophetic_iter_laws(),
            ia.decrease() is Some,
        decreases ia.decrease()->0,
    {
        match ia.next() {
            None => {
                return true;
            },
            Some(ca) => {
                match ib.next() {
                    None => {
                        return false;
                    },
                    Some(cb) => {
                        if ca != cb {
                            return (ca as u32) < (cb as u32);
                        }
                    },
                }
            },
        }
    }
}

/// A place in the sorted list `out` at which `x` can stand: all before it
/// come no later than `x`, all from it on no earlier.
fn insertion_point(out: &Vec<String>, x: &String) -> (j: usize)
    requires
        sorted_by(path_seq(out@), path_order()),
    ensures
        j <= out.len(),
        forall|i: int| 0 <= i < j ==> path_le(#[trigger] out[i]@, x@),
        forall|i: int| j <= i < out.len() ==> path_le(x@, #[trigger] out[i]@),
{
    let mut lo: usize = 0;
    let mut hi: usize = out.len();
    while lo < hi
        invariant
            lo <= hi <= out.len(),
            sorted_by(path_seq(out@), path_order()),
            forall|i: int| 0 <= i < lo ==> path_le(#[trigger] out[i]@, x@),
            forall|i: int| hi <= i < out.len() ==> path_le(x@, #[trigger] out[i]@),
        decreases hi - lo,
    {
        let mid = lo + (hi - lo) / 2;
        if path_precedes(out[mid].as_str(), x.as_str()) {
            proof {
                assert forall|i: int| 0 <= i < mid + 1 implies path_le(#[trigger] out[i]@, x@) by {
                    if i < mid {
                        assert(path_order()(path_seq(out@)[i], path_seq(out@)[mid as int]));
                        lemma_path_le_transitive(out[i]@, out[mid as int]@, x@);
                    }
                }
            }
            lo = mid + 1;
        } else {
            proof {
                lemma_path_le_total(out[mid as int]@, x@);
                assert forall|i: int| mid <= i < out.len() implies path_le(
                    x@,
                    #[trigger] out[i]@,
                ) by {
                    if i > mid {
                        assert(path_order()(path_seq(out@)[mid as int], path_seq(out@)[i]));
                        lemma_path_le_transitive(x@, out[mid as int]@, out[i]@);
                    }
                }
            }
            hi = mid;
        }
    }
    lo
}

/// Puts the entries of a directory in listing order.
pub fn sort_paths(raw: Vec<String>) -> (sorted: Vec<String>)
    ensures
        path_seq(sorted@) == sorted_listing(path_seq(raw@)),
{
    let ghost input = path_seq(raw@);
    let mut rest = raw;
    let mut out: Vec<String> = Vec::new();
    proof {
        assert(path_seq(rest@) =~= input.take(rest.len() as int));
        assert(path_seq(out@) =~= input.skip(rest.len() as int));
    }
    while rest.len() > 0
        invariant
            sorted_by(path_seq(out@), path_order()),
            path_seq(rest@) == input.take(rest.len() as int),
            rest.len() <= input.len(),
            path_seq(out@).to_multiset() == input.skip(rest.len() as int).to_multiset(),
        decreases rest.len(),
    {
        let ghost out_before = path_seq(out@);
        let x = rest.pop().unwrap();
        let j = insertion_point(&out, &x);
        proof {
            assert forall|i: int| 0 <= i < j implies path_le(#[trigger] out_before[i], x@) by {
                assert(out_before[i] == out[i]@);
            }
            assert forall|i: int| j <= i < out_before.len() implies path_le(
                x@,
                #[trigger] out_before[i],
            ) by {
                assert(out_before[i] == out[i]@);
            }
        }
        out.insert(j, x);
        proof {
            let k = rest.len() as int;
            assert(x@ == input.take(k + 1)[k]);
            assert(path_seq(rest@) =~= input.take(k));
            assert(path_seq(out@) =~= out_before.insert(j as int, x@));
            to_multiset_insert(out_before, j as int, x@);
            assert(input.skip(k) =~= input.skip(k + 1).insert(0, x@));
            to_multiset_insert(input.skip(k + 1), 0, x@);
            assert forall|a: int, b: int| 0 <= a < b < path_seq(out@).len() implies path_order()(
                path_seq(out@)[a],
                path_seq(out@)[b],
            ) by {
                if b < j {
                    assert(path_order()(out_before[a], out_before[b]));
                } else if b == j {
                    assert(path_le(out_before[a], x@));
                } else if a < j {
                    assert(path_order()(out_before[a], out_before[b - 1]));
                } else if a == j {
                    assert(path_le(x@, out_before[b - 1]));
                } else {
                    assert(path_order()(out_before[a - 1], out_before[b - 1]));
                }
            }
        }
    }
    proof {
        assert(input.skip(0) =~= input);
        lemma_sorted_listing(input);
        lemma_path_order_total();
        lemma_sorted_unique(path_seq(out@), sorted_listing(input), path_order());
    }
    out
}

} // verus!
