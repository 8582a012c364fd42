//! Every command keeps the state well formed.

use crate::model::{insert_all, outside_of, AppView, CollectionView, FocusedPane, Timestamp};
use crate::order::lemma_sorted_listing;
use vstd::prelude::*;

verus! {

/// What `outside_of` keeps: exactly the selected paths that are not among
/// the entries, and none of them twice if none was selected twice.
pub proof fn lemma_outside_of(selection: Seq<Seq<char>>, entries: Seq<Seq<char>>)
    ensures
        forall|p: Seq<char>| #[trigger]
            outside_of(selection, entries).contains(p) <==> selection.contains(p)
                && !entries.contains(p),
        selection.no_duplicates() ==> outside_of(selection, entries).no_duplicates(),
        outside_of(selection, entries).len() <= selection.len(),
    decreases selection.len(),
{
    reveal(Seq::filter);
    let pred = |p: Seq<char>| !entries.contains(p);
    let kept = outside_of(selection, entries);
    if selection.len() > 0 {
        let front = selection.drop_last();
        let last = selection.last();
        lemma_outside_of(front, entries);
        let kept_front = outside_of(front, entries);
        assert forall|p: Seq<char>| #[trigger] kept.contains(p) <==> selection.contains(p)
            && !entries.contains(p) by {
            if kept.contains(p) {
                let i = choose|i: int| 0 <= i < kept.len() && kept[i] == p;
                if i < kept_front.len() {
                    assert(kept_front[i] == p);
                    assert(kept_front.contains(p));
                    let j = choose|j: int| 0 <= j < front.len() && front[j] == p;
                    assert(selection[j] == p);
                } else {
                    assert(p == last);
                    assert(selection[selection.len() - 1] == p);
                }
            }
            if selection.contains(p) && !entries.contains(p) {
                let j = choose|j: int| 0 <= j < selection.len() && selection[j] == p;
                if j < front.len() {
                    assert(front[j] == p);
                    assert(kept_front.contains(p));
                    let i = choose|i: int| 0 <= i < kept_front.len() && kept_front[i] == p;
                    assert(kept[i] == p);
                } else {
                    assert(kept[kept.len() - 1] == p);
                }
            }
        }
        if selection.no_duplicates() {
            assert(front.no_duplicates());
            if pred(last) {
                assert(!kept_front.contains(last)) by {
                    if front.contains(last) {
                        let j = choose|j: int| 0 <= j < front.len() && front[j] == last;
                        assert(selection[j] == selection[selection.len() - 1]);
                    }
                }
                assert forall|i: int, j: int| 0 <= i < kept.len() && 0 <= j < kept.len() && i
                    != j implies kept[i] != kept[j] by {
                    if i == kept.len() - 1 {
                        assert(kept_front[j] == kept[j]);
                        assert(kept_front.contains(kept[j]));
                    } else if j == kept.len() - 1 {
                        assert(kept_front[i] == kept[i]);
                        assert(kept_front.contains(kept[i]));
                    } else {
                        assert(kept_front[i] == kept[i] && kept_front[j] == kept[j]);
                    }
                }
            }
        }
    }
}

/// What `insert_all` holds: the selection and the items, and nothing twice
/// if nothing was selected twice.
pub proof fn lemma_insert_all(selection: Seq<Seq<char>>, items: Seq<Seq<char>>)
    ensures
        forall|p: Seq<char>| #[trigger]
            insert_all(selection, items).contains(p) <==> selection.contains(p) || items.contains(
                p,
            ),
        selection.no_duplicates() ==> insert_all(selection, items).no_duplicates(),
    decreases items.len(),
{
    let all = insert_all(selection, items);
    if items.len() > 0 {
        let front_items = items.drop_last();
        let last = items.last();
        lemma_insert_all(selection, front_items);
        let front = insert_all(selection, front_items);
        assert forall|p: Seq<char>| #[trigger] all.contains(p) <==> selection.contains(p)
            || items.contains(p) by {
            if all.contains(p) {
                let i = choose|i: int| 0 <= i < all.len() && all[i] == p;
                if i < front.len() {
                    assert(front[i] == p);
                    assert(front.contains(p));
                    if front_items.contains(p) {
                        let j = choose|j: int| 0 <= j < front_items.len() && front_items[j] == p;
                        assert(items[j] == p);
                    }
                } else {
                    assert(items[items.len() - 1] == p);
                }
            }
            if selection.contains(p) || items.contains(p) {
                if items.contains(p) && !front_items.contains(p) {
                    let j = choose|j: int| 0 <= j < items.len() && items[j] == p;
                    if j < front_items.len() {
                        assert(front_items[j] == p);
                    }
                    assert(p == last);
                    if !front.contains(last) {
                        assert(all[all.len() - 1] == p);
                    }
                } else {
                    assert(front.contains(p));
                    let i = choose|i: int| 0 <= i < front.len() && front[i] == p;
                    assert(all[i] == p);
                }
            }
        }
        if selection.no_duplicates() && !front.contains(last) {
            assert forall|i: int, j: int| 0 <= i < all.len() && 0 <= j < all.len() && i
                != j implies all[i] != all[j] by {
                if i == all.len() - 1 {
                    assert(front[j] == all[j]);
                    assert(front.contains(all[j]));
                } else if j == all.len() - 1 {
                    assert(front[i] == all[i]);
                    assert(front.contains(all[i]));
                } else {
                    assert(front[i] == all[i] && front[j] == all[j]);
                }
            }
        }
    }
}

/// A session starts in a state that is well formed.
pub proof fn lemma_initial_wf(dir: Seq<char>, raw: Seq<Seq<char>>, collections: Seq<CollectionView>)
    requires
        forall|i: int| 0 <= i < collections.len() ==> (#[trigger] collections[i]).wf(),
    ensures
        AppView::initial(dir, raw, collections).wf(),
{
    lemma_sorted_listing(raw);
}

/// Entering a directory keeps the state well formed.
pub proof fn lemma_descend_wf(m: AppView, raw: Seq<Seq<char>>)
    requires
        m.wf(),
    ensures
        m.descend(raw).wf(),
{
    lemma_sorted_listing(raw);
}

/// Going back keeps the state well formed, however the directory returned
/// to has changed.
pub proof fn lemma_ascend_wf(m: AppView, raw: Seq<Seq<char>>)
    requires
        m.wf(),
    ensures
        m.ascend(raw).wf(),
{
    lemma_sorted_listing(raw);
}

/// Moving a cursor keeps the state well formed.
pub proof fn lemma_move_cursor_wf(m: AppView, delta: int)
    requires
        m.wf(),
    ensures
        m.move_cursor(delta).wf(),
{
}

/// Selecting or deselecting an entry keeps the state well formed.
pub proof fn lemma_toggle_selection_wf(m: AppView)
    requires
        m.wf(),
    ensures
        m.toggle_selection().wf(),
{
    match m.entry_under_cursor() {
        Some(p) => {
            let s = m.selected_items;
            if s.contains(p) {
                let k = s.index_of(p);
                let t = s.remove(k);
                assert forall|i: int, j: int| 0 <= i < t.len() && 0 <= j < t.len() && i
                    != j implies t[i] != t[j] by {
                    let ii = if i < k { i } else { i + 1 };
                    let jj = if j < k { j } else { j + 1 };
                    assert(t[i] == s[ii] && t[j] == s[jj]);
                }
            } else {
                let t = s.push(p);
                assert forall|i: int, j: int| 0 <= i < t.len() && 0 <= j < t.len() && i
                    != j implies t[i] != t[j] by {
                    if i < s.len() {
                        assert(s.contains(t[i]));
                    }
                    if j < s.len() {
                        assert(s.contains(t[j]));
                    }
                }
            }
        },
        None => {},
    }
}

/// Select-all keeps the state well formed.
pub proof fn lemma_toggle_select_all_wf(m: AppView)
    requires
        m.wf(),
    ensures
        m.toggle_select_all().wf(),
{
    lemma_outside_of(m.selected_items, m.directory_entries);
    lemma_insert_all(outside_of(m.selected_items, m.directory_entries), m.directory_entries);
}

/// Showing a message keeps the state well formed.
pub proof fn lemma_notify_wf(m: AppView, text: Seq<char>)
    requires
        m.wf(),
    ensures
        m.notify(text).wf(),
{
}

/// A tick keeps the state well formed.
pub proof fn lemma_tick_wf(m: AppView)
    requires
        m.wf(),
    ensures
        m.tick().wf(),
{
}

/// Deleting a collection keeps the state well formed.
pub proof fn lemma_remove_selected_collection_wf(m: AppView)
    requires
        m.wf(),
    ensures
        m.remove_selected_collection().wf(),
{
    if m.has_selected_collection() {
        let k = m.selected_collection_index as int;
        let rest = m.collections.remove(k);
        assert forall|i: int| 0 <= i < rest.len() implies (#[trigger] rest[i]).wf() by {
            let ii = if i < k { i } else { i + 1 };
            assert(rest[i] == m.collections[ii]);
        }
    }
}

/// Taking a file out of a collection keeps the state well formed.
pub proof fn lemma_unselect_file_from_collection_wf(m: AppView)
    requires
        m.wf(),
    ensures
        m.unselect_file_from_collection().wf(),
{
}

/// Every step of a renaming keeps the state well formed.
pub proof fn lemma_rename_wf(m: AppView, c: char)
    requires
        m.wf(),
    ensures
        m.start_rename().wf(),
        m.confirm_rename().wf(),
        m.cancel_rename().wf(),
        m.rename_insert(c).wf(),
        m.rename_backspace().wf(),
{
}

/// Recording an export keeps the state well formed.
pub proof fn lemma_record_export_wf(m: AppView, files: Seq<Seq<char>>, now: Timestamp)
    requires
        m.wf(),
    ensures
        m.record_export(files, now).wf(),
        m.record_collection_export().wf(),
{
}

/// Changing the focus, and showing or hiding help, keeps the state well
/// formed.
pub proof fn lemma_focus_wf(m: AppView, pane: FocusedPane, shown: bool)
    requires
        m.wf(),
    ensures
        m.focus(pane).wf(),
        m.set_help(shown).wf(),
{
}

} // verus!
