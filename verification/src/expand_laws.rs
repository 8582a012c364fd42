//! Laws of the expansion: run against a tree of files, it finds exactly the
//! files that lie below the roots.

use crate::expand::ExpansionView;
use crate::outcome::ProbeView;
use vstd::prelude::*;
use vstd::seq_lib::lemma_no_dup_in_concat;

verus! {

/// The entries of `path` in `tree`: those of a directory that was read,
/// none of anything else.
pub open spec fn entries_of(tree: spec_fn(Seq<char>) -> ProbeView, path: Seq<char>) -> Seq<
    Seq<char>,
> {
    match tree(path) {
        ProbeView::Directory(entries) => entries,
        _ => Seq::empty(),
    }
}

/// Whether `to` is `from` or lies below it, at most `depth` levels down.
pub open spec fn reaches(
    tree: spec_fn(Seq<char>) -> ProbeView,
    from: Seq<char>,
    to: Seq<char>,
    depth: nat,
) -> bool
    decreases depth,
{
    from == to || (depth > 0 && exists|i: int|
        0 <= i < entries_of(tree, from).len() && reaches(
            tree,
            #[trigger] entries_of(tree, from)[i],
            to,
            (depth - 1) as nat,
        ))
}

/// Whether `path` is one of `roots` or lies below one, however deep.
pub open spec fn lies_below(
    tree: spec_fn(Seq<char>) -> ProbeView,
    roots: Seq<Seq<char>>,
    path: Seq<char>,
) -> bool {
    exists|r: int, depth: nat| 0 <= r < roots.len() && #[trigger] reaches(tree, roots[r], path, depth)
}

/// Whether below `roots` every path is met once only: no root is named
/// twice, no directory lists an entry twice, no entry is listed by two
/// directories, and no root is listed by a directory.
pub open spec fn tree_shaped(tree: spec_fn(Seq<char>) -> ProbeView, roots: Seq<Seq<char>>) -> bool {
    &&& roots.no_duplicates()
    &&& forall|d: Seq<char>| #[trigger]
        lies_below(tree, roots, d) ==> entries_of(tree, d).no_duplicates()
    &&& forall|d1: Seq<char>, d2: Seq<char>, i: int, j: int|
        lies_below(tree, roots, d1) && lies_below(tree, roots, d2) && 0 <= i < entries_of(
            tree,
            d1,
        ).len() && 0 <= j < entries_of(tree, d2).len() && #[trigger] entries_of(tree, d1)[i]
            == #[trigger] entries_of(tree, d2)[j] ==> d1 == d2
    &&& forall|d: Seq<char>, i: int, r: int|
        lies_below(tree, roots, d) && 0 <= i < entries_of(tree, d).len() && 0 <= r < roots.len()
            ==> #[trigger] entries_of(tree, d)[i] != #[trigger] roots[r]
}

/// The expansion `e` after at most `steps` steps, each path being found as
/// `tree` has it.
pub open spec fn run(tree: spec_fn(Seq<char>) -> ProbeView, e: ExpansionView, steps: nat) -> ExpansionView
    decreases steps,
{
    if steps == 0 || e.pending.len() == 0 {
        e
    } else {
        run(tree, e.step(tree(e.pending.last())), (steps - 1) as nat)
    }
}

/// The paths looked at in the run of `e` for at most `steps` steps.
pub open spec fn visited(tree: spec_fn(Seq<char>) -> ProbeView, e: ExpansionView, steps: nat) -> Set<
    Seq<char>,
>
    decreases steps,
{
    if steps == 0 || e.pending.len() == 0 {
        Set::empty()
    } else {
        visited(tree, e.step(tree(e.pending.last())), (steps - 1) as nat).insert(e.pending.last())
    }
}

/// What holds at every step of an expansion of `roots`, `done` being the
/// paths looked at so far: all that was met lies below the roots; the roots
/// and the entries of every directory looked at were met; and the files
/// found are the files among the paths looked at.
pub open spec fn on_course(
    tree: spec_fn(Seq<char>) -> ProbeView,
    roots: Seq<Seq<char>>,
    e: ExpansionView,
    done: Set<Seq<char>>,
) -> bool {
    &&& forall|x: Seq<char>|
        done.contains(x) || e.pending.contains(x) ==> #[trigger] lies_below(tree, roots, x)
    &&& forall|r: int|
        0 <= r < roots.len() ==> done.contains(#[trigger] roots[r]) || e.pending.contains(roots[r])
    &&& forall|x: Seq<char>, i: int|
        done.contains(x) && 0 <= i < entries_of(tree, x).len() ==> done.contains(
            #[trigger] entries_of(tree, x)[i],
        ) || e.pending.contains(entries_of(tree, x)[i])
    &&& forall|p: Seq<char>| #[trigger]
        e.files.contains(p) <==> done.contains(p) && tree(p) is File
}

/// What holds besides at every step where the tree is tree-shaped: no path
/// waits twice or was looked at before, no file was found twice, and all
/// that was met is a root or an entry of a directory looked at.
pub open spec fn unshared(
    tree: spec_fn(Seq<char>) -> ProbeView,
    roots: Seq<Seq<char>>,
    e: ExpansionView,
    done: Set<Seq<char>>,
) -> bool {
    &&& e.pending.no_duplicates()
    &&& forall|k: int| 0 <= k < e.pending.len() ==> !done.contains(#[trigger] e.pending[k])
    &&& e.files.no_duplicates()
    &&& forall|y: Seq<char>|
        done.contains(y) || e.pending.contains(y) ==> #[trigger] listed(tree, roots, done, y)
}

/// Whether `y` is a root or an entry of a directory among `done`.
pub open spec fn listed(
    tree: spec_fn(Seq<char>) -> ProbeView,
    roots: Seq<Seq<char>>,
    done: Set<Seq<char>>,
    y: Seq<char>,
) -> bool {
    roots.contains(y) || exists|x: Seq<char>, i: int|
        done.contains(x) && 0 <= i < entries_of(tree, x).len() && #[trigger] entries_of(tree, x)[i]
            == y
}

/// An entry of what lies below the roots lies below them too.
pub proof fn lemma_entry_lies_below(
    tree: spec_fn(Seq<char>) -> ProbeView,
    roots: Seq<Seq<char>>,
    dir: Seq<char>,
    i: int,
)
    requires
        lies_below(tree, roots, dir),
        0 <= i < entries_of(tree, dir).len(),
    ensures
        lies_below(tree, roots, entries_of(tree, dir)[i]),
{
    let (r, depth) = choose|r: int, depth: nat|
        0 <= r < roots.len() && #[trigger] reaches(tree, roots[r], dir, depth);
    lemma_reaches_entry(tree, roots[r], dir, depth, i);
    assert(reaches(tree, roots[r], entries_of(tree, dir)[i], depth + 1));
}

proof fn lemma_reaches_entry(
    tree: spec_fn(Seq<char>) -> ProbeView,
    from: Seq<char>,
    dir: Seq<char>,
    depth: nat,
    i: int,
)
    requires
        reaches(tree, from, dir, depth),
        0 <= i < entries_of(tree, dir).len(),
    ensures
        reaches(tree, from, entries_of(tree, dir)[i], depth + 1),
    decreases depth,
{
    let entry = entries_of(tree, dir)[i];
    if from == dir {
        assert(reaches(tree, entries_of(tree, from)[i], entry, depth));
    } else {
        let k = choose|k: int|
            0 <= k < entries_of(tree, from).len() && reaches(
                tree,
                #[trigger] entries_of(tree, from)[k],
                dir,
                (depth - 1) as nat,
            );
        lemma_reaches_entry(tree, entries_of(tree, from)[k], dir, (depth - 1) as nat, i);
        assert(reaches(tree, entries_of(tree, from)[k], entry, depth));
    }
}

/// What a set holds that holds the entries of all it holds, it holds all
/// that lies below.
proof fn lemma_closed_holds_below(
    tree: spec_fn(Seq<char>) -> ProbeView,
    done: Set<Seq<char>>,
    from: Seq<char>,
    to: Seq<char>,
    depth: nat,
)
    requires
        done.contains(from),
        reaches(tree, from, to, depth),
        forall|x: Seq<char>, i: int|
            done.contains(x) && 0 <= i < entries_of(tree, x).len() ==> done.contains(
                #[trigger] entries_of(tree, x)[i],
            ),
    ensures
        done.contains(to),
    decreases depth,
{
    if from != to {
        let k = choose|k: int|
            0 <= k < entries_of(tree, from).len() && reaches(
                tree,
                #[trigger] entries_of(tree, from)[k],
                to,
                (depth - 1) as nat,
            );
        lemma_closed_holds_below(tree, done, entries_of(tree, from)[k], to, (depth - 1) as nat);
    }
}

/// A path is in a list turned round exactly if it is in the list, and the
/// one has nothing twice if the other has not.
proof fn lemma_reverse(s: Seq<Seq<char>>)
    ensures
        forall|x: Seq<char>| #[trigger] s.reverse().contains(x) <==> s.contains(x),
        s.no_duplicates() ==> s.reverse().no_duplicates(),
        s.reverse().len() == s.len(),
{
    let r = s.reverse();
    assert forall|x: Seq<char>| #[trigger] r.contains(x) <==> s.contains(x) by {
        if r.contains(x) {
            let i = choose|i: int| 0 <= i < r.len() && r[i] == x;
            assert(s[s.len() - 1 - i] == x);
        }
        if s.contains(x) {
            let i = choose|i: int| 0 <= i < s.len() && s[i] == x;
            assert(r[s.len() - 1 - i] == x);
        }
    }
}

/// What is in the front of a list without its last item is in the list.
proof fn lemma_drop_last_contains(s: Seq<Seq<char>>, x: Seq<char>)
    requires
        s.len() > 0,
    ensures
        s.contains(x) <==> s.drop_last().contains(x) || x == s.last(),
{
    if s.contains(x) {
        let i = choose|i: int| 0 <= i < s.len() && s[i] == x;
        if i < s.len() - 1 {
            assert(s.drop_last()[i] == x);
        }
    }
    if s.drop_last().contains(x) {
        let i = choose|i: int| 0 <= i < s.drop_last().len() && s.drop_last()[i] == x;
        assert(s[i] == x);
    }
    if x == s.last() {
        assert(s[s.len() - 1] == x);
    }
}

/// What is in two lists joined is in one of them.
proof fn lemma_concat_contains(a: Seq<Seq<char>>, b: Seq<Seq<char>>, x: Seq<char>)
    ensures
        (a + b).contains(x) <==> a.contains(x) || b.contains(x),
{
    if (a + b).contains(x) {
        let i = choose|i: int| 0 <= i < (a + b).len() && (a + b)[i] == x;
        if i < a.len() {
            assert(a[i] == x);
        } else {
            assert(b[i - a.len()] == x);
        }
    }
    if a.contains(x) {
        let i = choose|i: int| 0 <= i < a.len() && a[i] == x;
        assert((a + b)[i] == x);
    }
    if b.contains(x) {
        let i = choose|i: int| 0 <= i < b.len() && b[i] == x;
        assert((a + b)[a.len() + i] == x);
    }
}

/// One step keeps an expansion on course.
proof fn lemma_step_on_course(
    tree: spec_fn(Seq<char>) -> ProbeView,
    roots: Seq<Seq<char>>,
    e: ExpansionView,
    done: Set<Seq<char>>,
)
    requires
        on_course(tree, roots, e, done),
        e.pending.len() > 0,
    ensures
        on_course(tree, roots, e.step(tree(e.pending.last())), done.insert(e.pending.last())),
{
    let path = e.pending.last();
    let rest = e.pending.drop_last();
    let after = e.step(tree(path));
    let seen = done.insert(path);
    let entries = entries_of(tree, path);
    lemma_reverse(entries);
    assert(e.pending.contains(path)) by {
        assert(e.pending[e.pending.len() - 1] == path);
    }
    assert(after.pending =~= rest + entries.reverse());
    assert forall|x: Seq<char>| after.pending.contains(x) <==> rest.contains(x)
        || entries.contains(x) by {
        lemma_concat_contains(rest, entries.reverse(), x);
    }
    assert forall|x: Seq<char>| e.pending.contains(x) <==> rest.contains(x) || x == path by {
        lemma_drop_last_contains(e.pending, x);
    }
    assert forall|x: Seq<char>| seen.contains(x) || after.pending.contains(x) implies #[trigger]
        lies_below(tree, roots, x) by {
        if entries.contains(x) {
            let i = choose|i: int| 0 <= i < entries.len() && entries[i] == x;
            lemma_entry_lies_below(tree, roots, path, i);
        }
    }
    assert forall|x: Seq<char>, i: int|
        seen.contains(x) && 0 <= i < entries_of(tree, x).len() implies seen.contains(
        #[trigger] entries_of(tree, x)[i],
    ) || after.pending.contains(entries_of(tree, x)[i]) by {
        let entry = entries_of(tree, x)[i];
        if x == path {
            assert(entries[i] == entry);
            assert(entries.contains(entry));
            assert(after.pending.contains(entry));
        } else {
            assert(done.contains(x));
            assert(done.contains(entry) || e.pending.contains(entry));
            if e.pending.contains(entry) {
                assert(rest.contains(entry) || entry == path);
                if rest.contains(entry) {
                    assert(after.pending.contains(entry));
                }
            }
        }
    }
    assert forall|p: Seq<char>| #[trigger]
        after.files.contains(p) <==> seen.contains(p) && tree(p) is File by {
        if tree(path) is File {
            assert(after.files =~= e.files.push(path));
            lemma_drop_last_contains(after.files, p);
            assert(after.files.drop_last() =~= e.files);
        }
    }
    assert forall|r: int| 0 <= r < roots.len() implies seen.contains(#[trigger] roots[r])
        || after.pending.contains(roots[r]) by {
        if e.pending.contains(roots[r]) {
            assert(rest.contains(roots[r]) || roots[r] == path);
        }
    }
}

/// One step keeps an expansion in a tree-shaped tree unshared.
proof fn lemma_step_unshared(
    tree: spec_fn(Seq<char>) -> ProbeView,
    roots: Seq<Seq<char>>,
    e: ExpansionView,
    done: Set<Seq<char>>,
)
    requires
        tree_shaped(tree, roots),
        on_course(tree, roots, e, done),
        unshared(tree, roots, e, done),
        e.pending.len() > 0,
    ensures
        unshared(tree, roots, e.step(tree(e.pending.last())), done.insert(e.pending.last())),
{
    let path = e.pending.last();
    let rest = e.pending.drop_last();
    let after = e.step(tree(path));
    let seen = done.insert(path);
    let entries = entries_of(tree, path);
    lemma_reverse(entries);
    assert(e.pending.contains(path)) by {
        assert(e.pending[e.pending.len() - 1] == path);
    }
    assert(lies_below(tree, roots, path));
    assert(after.pending =~= rest + entries.reverse());
    assert forall|x: Seq<char>| after.pending.contains(x) <==> rest.contains(x)
        || entries.contains(x) by {
        lemma_concat_contains(rest, entries.reverse(), x);
    }
    assert forall|x: Seq<char>| e.pending.contains(x) <==> rest.contains(x) || x == path by {
        lemma_drop_last_contains(e.pending, x);
    }
    assert(!rest.contains(path)) by {
        if rest.contains(path) {
            let i = choose|i: int| 0 <= i < rest.len() && rest[i] == path;
            assert(e.pending[i] == e.pending[e.pending.len() - 1]);
        }
    }
    // An entry of the directory at hand was not met before.
    assert forall|i: int| 0 <= i < entries.len() implies !done.contains(#[trigger] entries[i])
        && !e.pending.contains(entries[i]) by {
        let entry = entries[i];
        if done.contains(entry) || e.pending.contains(entry) {
            assert(listed(tree, roots, done, entry));
            if roots.contains(entry) {
                let r = choose|r: int| 0 <= r < roots.len() && roots[r] == entry;
                assert(entries_of(tree, path)[i] != roots[r]);
            } else {
                let (x, k) = choose|x: Seq<char>, k: int|
                    done.contains(x) && 0 <= k < entries_of(tree, x).len() && #[trigger] entries_of(
                        tree,
                        x,
                    )[k] == entry;
                assert(lies_below(tree, roots, x));
                assert(entries_of(tree, x)[k] == entries_of(tree, path)[i]);
                assert(x == path);
                assert(e.pending[e.pending.len() - 1] == path);
            }
        }
    }
    assert(rest.no_duplicates());
    assert(entries.no_duplicates());
    assert(after.pending.no_duplicates()) by {
        assert forall|i: int, j: int| 0 <= i < rest.len() && 0 <= j < entries.reverse().len()
            implies rest[i] != entries.reverse()[j] by {
            assert(e.pending[i] == rest[i]);
            assert(e.pending.contains(rest[i]));
            assert(entries.reverse()[j] == entries[entries.len() - 1 - j]);
        }
        lemma_no_dup_in_concat(rest, entries.reverse());
    }
    assert forall|k: int| 0 <= k < after.pending.len() implies !seen.contains(
        #[trigger] after.pending[k],
    ) by {
        let x = after.pending[k];
        assert(after.pending.contains(x));
        if rest.contains(x) {
            let i = choose|i: int| 0 <= i < rest.len() && rest[i] == x;
            assert(e.pending[i] == x);
        } else {
            let i = choose|i: int| 0 <= i < entries.len() && entries[i] == x;
            assert(!done.contains(entries[i]) && !e.pending.contains(entries[i]));
        }
    }
    assert(after.files.no_duplicates()) by {
        if tree(path) is File {
            assert(after.files =~= e.files.push(path));
            assert(!e.files.contains(path)) by {
                assert(e.pending[e.pending.len() - 1] == path);
            }
            assert forall|i: int, j: int|
                0 <= i < after.files.len() && 0 <= j < after.files.len() && i != j implies after.files[i]
                != after.files[j] by {
                if i < e.files.len() {
                    assert(e.files.contains(e.files[i]));
                }
                if j < e.files.len() {
                    assert(e.files.contains(e.files[j]));
                }
            }
        }
    }
    assert forall|y: Seq<char>| seen.contains(y) || after.pending.contains(y) implies #[trigger]
        listed(tree, roots, seen, y) by {
        if entries.contains(y) {
            let i = choose|i: int| 0 <= i < entries.len() && entries[i] == y;
            assert(seen.contains(path) && entries_of(tree, path)[i] == y);
        } else {
            assert(listed(tree, roots, done, y));
            if !roots.contains(y) {
                let (x, k) = choose|x: Seq<char>, k: int|
                    done.contains(x) && 0 <= k < entries_of(tree, x).len() && #[trigger] entries_of(
                        tree,
                        x,
                    )[k] == y;
                assert(seen.contains(x) && entries_of(tree, x)[k] == y);
            }
        }
    }
}

/// A run keeps an expansion on course.
proof fn lemma_run_on_course(
    tree: spec_fn(Seq<char>) -> ProbeView,
    roots: Seq<Seq<char>>,
    e: ExpansionView,
    done: Set<Seq<char>>,
    steps: nat,
)
    requires
        on_course(tree, roots, e, done),
    ensures
        on_course(tree, roots, run(tree, e, steps), done.union(visited(tree, e, steps))),
    decreases steps,
{
    if steps == 0 || e.pending.len() == 0 {
        assert(done.union(visited(tree, e, steps)) =~= done);
    } else {
        let next = e.step(tree(e.pending.last()));
        let seen = done.insert(e.pending.last());
        lemma_step_on_course(tree, roots, e, done);
        lemma_run_on_course(tree, roots, next, seen, (steps - 1) as nat);
        assert(done.union(visited(tree, e, steps)) =~= seen.union(
            visited(tree, next, (steps - 1) as nat),
        ));
    }
}

/// A run keeps an expansion in a tree-shaped tree unshared.
proof fn lemma_run_unshared(
    tree: spec_fn(Seq<char>) -> ProbeView,
    roots: Seq<Seq<char>>,
    e: ExpansionView,
    done: Set<Seq<char>>,
    steps: nat,
)
    requires
        tree_shaped(tree, roots),
        on_course(tree, roots, e, done),
        unshared(tree, roots, e, done),
    ensures
        unshared(tree, roots, run(tree, e, steps), done.union(visited(tree, e, steps))),
    decreases steps,
{
    if steps == 0 || e.pending.len() == 0 {
        assert(done.union(visited(tree, e, steps)) =~= done);
    } else {
        let next = e.step(tree(e.pending.last()));
        let seen = done.insert(e.pending.last());
        lemma_step_on_course(tree, roots, e, done);
        lemma_step_unshared(tree, roots, e, done);
        lemma_run_unshared(tree, roots, next, seen, (steps - 1) as nat);
        assert(done.union(visited(tree, e, steps)) =~= seen.union(
            visited(tree, next, (steps - 1) as nat),
        ));
    }
}

/// An expansion that has just begun is on course.
proof fn lemma_start_on_course(tree: spec_fn(Seq<char>) -> ProbeView, roots: Seq<Seq<char>>)
    ensures
        on_course(tree, roots, ExpansionView::start(roots), Set::empty()),
        roots.no_duplicates() ==> unshared(tree, roots, ExpansionView::start(roots), Set::empty()),
{
    let e = ExpansionView::start(roots);
    lemma_reverse(roots);
    assert forall|x: Seq<char>| e.pending.contains(x) implies #[trigger] lies_below(
        tree,
        roots,
        x,
    ) by {
        let r = choose|r: int| 0 <= r < roots.len() && roots[r] == x;
        assert(reaches(tree, roots[r], x, 0));
    }
    assert forall|r: int| 0 <= r < roots.len() implies e.pending.contains(#[trigger] roots[r]) by {
        assert(roots.contains(roots[r]));
    }
}

/// An expansion that comes to its end has found exactly the files that lie
/// below the roots, however deep: every path among its files is a regular
/// file that is a root or lies below one, and every such file is among
/// them. No directory is among them.
pub proof fn law_expansion_finds_the_files(
    tree: spec_fn(Seq<char>) -> ProbeView,
    roots: Seq<Seq<char>>,
    steps: nat,
)
    requires
        run(tree, ExpansionView::start(roots), steps).pending.len() == 0,
    ensures
        forall|p: Seq<char>| #[trigger]
            run(tree, ExpansionView::start(roots), steps).files.contains(p) <==> tree(p) is File
                && lies_below(tree, roots, p),
{
    let start = ExpansionView::start(roots);
    let end = run(tree, start, steps);
    let done = Set::<Seq<char>>::empty().union(visited(tree, start, steps));
    lemma_start_on_course(tree, roots);
    lemma_run_on_course(tree, roots, start, Set::empty(), steps);
    assert forall|p: Seq<char>| tree(p) is File && lies_below(tree, roots, p) implies #[trigger]
        end.files.contains(p) by {
        let (r, depth) = choose|r: int, depth: nat|
            0 <= r < roots.len() && #[trigger] reaches(tree, roots[r], p, depth);
        assert(done.contains(roots[r]));
        lemma_closed_holds_below(tree, done, roots[r], p, depth);
    }
}

/// In a tree-shaped tree an expansion that comes to its end has found no
/// file twice.
pub proof fn law_expansion_finds_no_file_twice(
    tree: spec_fn(Seq<char>) -> ProbeView,
    roots: Seq<Seq<char>>,
    steps: nat,
)
    requires
        tree_shaped(tree, roots),
    ensures
        run(tree, ExpansionView::start(roots), steps).files.no_duplicates(),
{
    lemma_start_on_course(tree, roots);
    lemma_run_unshared(tree, roots, ExpansionView::start(roots), Set::empty(), steps);
}

} // verus!
