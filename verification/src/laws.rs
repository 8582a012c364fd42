//! Laws of the browser: what holds of commands taken together.

use crate::command::{Action, Command, Key};
use crate::invariants::{lemma_insert_all, lemma_outside_of};
use crate::model::{all_selected, clamp_index, outside_of, AppView, MESSAGE_TICKS};
use vstd::prelude::*;

verus! {

/// In every state the browser can be in, a cursor whose list has items
/// points at one of them.
pub proof fn law_cursors_point_into_their_lists(m: AppView)
    requires
        m.wf(),
    ensures
        m.directory_entries.len() > 0 ==> m.selected_file_index < m.directory_entries.len(),
        m.collections.len() > 0 ==> m.selected_collection_index < m.collections.len(),
        m.member_count() > 0 ==> m.selected_file_in_collection_index < m.member_count(),
{
}

/// One step of navigation, with the entries that the directory arrived at
/// was found to have.
pub enum NavStep {
    Descend(Seq<Seq<char>>),
    Ascend(Seq<Seq<char>>),
}

/// The state after the steps `steps`, taken in order from `m`.
pub open spec fn navigate(m: AppView, steps: Seq<NavStep>) -> AppView
    decreases steps.len(),
{
    if steps.len() == 0 {
        m
    } else {
        let next = match steps[0] {
            NavStep::Descend(raw) => m.descend(raw),
            NavStep::Ascend(raw) => m.ascend(raw),
        };
        navigate(next, steps.drop_first())
    }
}

/// Whether each descent among `steps`, taken in order from `m`, finds an
/// entry under the cursor and so enters a directory.
pub open spec fn descents_enter(m: AppView, steps: Seq<NavStep>) -> bool
    decreases steps.len(),
{
    if steps.len() == 0 {
        true
    } else {
        match steps[0] {
            NavStep::Descend(raw) => m.entry_under_cursor() is Some && descents_enter(
                m.descend(raw),
                steps.drop_first(),
            ),
            NavStep::Ascend(raw) => descents_enter(m.ascend(raw), steps.drop_first()),
        }
    }
}

/// The number of descents not yet undone after `steps`, when `depth` were
/// not undone before: a descent adds one, an ascent takes one away as long
/// as there is one.
pub open spec fn unmatched_descents(depth: nat, steps: Seq<NavStep>) -> nat
    decreases steps.len(),
{
    if steps.len() == 0 {
        depth
    } else {
        match steps[0] {
            NavStep::Descend(_) => unmatched_descents(depth + 1, steps.drop_first()),
            NavStep::Ascend(_) => unmatched_descents(
                if depth > 0 {
                    (depth - 1) as nat
                } else {
                    0
                },
                steps.drop_first(),
            ),
        }
    }
}

/// Whatever the sequence of descents and ascents, the navigation stack is
/// as long as the number of descents that no ascent has undone.
pub proof fn law_stack_counts_unmatched_descents(m: AppView, steps: Seq<NavStep>)
    requires
        descents_enter(m, steps),
    ensures
        navigate(m, steps).navigation_stack.len() == unmatched_descents(
            m.navigation_stack.len(),
            steps,
        ),
    decreases steps.len(),
{
    if steps.len() > 0 {
        let next = match steps[0] {
            NavStep::Descend(raw) => m.descend(raw),
            NavStep::Ascend(raw) => m.ascend(raw),
        };
        law_stack_counts_unmatched_descents(next, steps.drop_first());
    }
}

/// Steps taken one after the other are the steps of the two runs joined.
pub proof fn lemma_navigate_concat(m: AppView, first: Seq<NavStep>, second: Seq<NavStep>)
    ensures
        navigate(m, first + second) == navigate(navigate(m, first), second),
    decreases first.len(),
{
    if first.len() == 0 {
        assert(first + second =~= second);
    } else {
        let next = match first[0] {
            NavStep::Descend(raw) => m.descend(raw),
            NavStep::Ascend(raw) => m.ascend(raw),
        };
        assert((first + second).drop_first() =~= first.drop_first() + second);
        assert((first + second)[0] == first[0]);
        lemma_navigate_concat(next, first.drop_first(), second);
    }
}

/// The descents into directories found with the entries `listings`, one
/// after the other.
pub open spec fn descents(listings: Seq<Seq<Seq<char>>>) -> Seq<NavStep> {
    listings.map_values(|raw: Seq<Seq<char>>| NavStep::Descend(raw))
}

/// The ascents to directories found with the entries `listings`, one after
/// the other.
pub open spec fn ascents(listings: Seq<Seq<Seq<char>>>) -> Seq<NavStep> {
    listings.map_values(|raw: Seq<Seq<char>>| NavStep::Ascend(raw))
}

/// Going back as often as directories were entered leads to the directory
/// and the cursor position from which the first was entered, and leaves
/// the navigation stack as it was. The cursor is restored exactly as long
/// as the directory returned to last still has an entry at that position.
pub proof fn law_ascents_undo_descents(
    m: AppView,
    downs: Seq<Seq<Seq<char>>>,
    ups: Seq<Seq<Seq<char>>>,
)
    requires
        downs.len() == ups.len(),
        descents_enter(m, descents(downs)),
        ups.len() > 0 ==> clamp_index(m.selected_file_index, ups.last().len())
            == m.selected_file_index,
    ensures
        navigate(m, descents(downs) + ascents(ups)).current_dir == m.current_dir,
        navigate(m, descents(downs) + ascents(ups)).selected_file_index == m.selected_file_index,
        navigate(m, descents(downs) + ascents(ups)).navigation_stack == m.navigation_stack,
    decreases downs.len(),
{
    let steps = descents(downs) + ascents(ups);
    if downs.len() == 0 {
        assert(steps =~= Seq::<NavStep>::empty());
    } else {
        let entered = m.descend(downs[0]);
        let inner_downs = downs.drop_first();
        let inner_ups = ups.drop_last();
        let inner = descents(inner_downs) + ascents(inner_ups);
        let back = seq![NavStep::Ascend(ups.last())];
        assert(descents(downs)[0] == NavStep::Descend(downs[0]));
        assert(descents(downs).drop_first() =~= descents(inner_downs));
        assert(steps[0] == NavStep::Descend(downs[0]));
        assert(steps.drop_first() =~= inner + back);
        law_ascents_undo_descents(entered, inner_downs, inner_ups);
        lemma_navigate_concat(entered, inner, back);
        let returned = navigate(entered, inner);
        assert(navigate(m, steps) == navigate(returned, back));
        assert(navigate(returned.ascend(ups.last()), back.drop_first()) == returned.ascend(
            ups.last(),
        ));
        assert(navigate(returned, back) == returned.ascend(ups.last()));
        assert(returned.navigation_stack.drop_last() =~= m.navigation_stack);
    }
}

/// What is selected, and what the store holds, does not depend on the
/// directory listed: no descent and no ascent changes either.
pub proof fn law_navigation_keeps_selection(m: AppView, steps: Seq<NavStep>)
    ensures
        navigate(m, steps).selected_items == m.selected_items,
        navigate(m, steps).collections == m.collections,
        navigate(m, steps).base_dir == m.base_dir,
    decreases steps.len(),
{
    if steps.len() > 0 {
        let next = match steps[0] {
            NavStep::Descend(raw) => m.descend(raw),
            NavStep::Ascend(raw) => m.ascend(raw),
        };
        law_navigation_keeps_selection(next, steps.drop_first());
    }
}

/// Select-all reaches the entries listed and nothing else: a path that is
/// not listed stays selected or unselected as it was, and a path that is
/// listed ends up selected unless all of them were.
pub proof fn law_select_all_is_scoped(m: AppView, p: Seq<char>)
    ensures
        !m.directory_entries.contains(p) ==> (m.toggle_select_all().selected_items.contains(p)
            <==> m.selected_items.contains(p)),
        m.directory_entries.contains(p) ==> (m.toggle_select_all().selected_items.contains(p)
            <==> !all_selected(m.selected_items, m.directory_entries)),
{
    let kept = outside_of(m.selected_items, m.directory_entries);
    lemma_outside_of(m.selected_items, m.directory_entries);
    lemma_insert_all(kept, m.directory_entries);
}

/// Select-all twice in one directory restores what was selected and leaves
/// the rest of the state alone but for the flag, provided that of the
/// entries listed either all or none were selected to begin with.
pub proof fn law_select_all_twice(m: AppView)
    requires
        m.wf(),
        all_selected(m.selected_items, m.directory_entries) || forall|i: int|
            0 <= i < m.directory_entries.len() ==> !m.selected_items.contains(
                #[trigger] m.directory_entries[i],
            ),
    ensures
        m.toggle_select_all().toggle_select_all().selected_items.to_set()
            == m.selected_items.to_set(),
        m.toggle_select_all().toggle_select_all() == (AppView {
            selected_items: m.toggle_select_all().toggle_select_all().selected_items,
            all_selected: m.toggle_select_all().toggle_select_all().all_selected,
            ..m
        }),
{
    let entries = m.directory_entries;
    let once = m.toggle_select_all();
    let twice = once.toggle_select_all();
    let kept = outside_of(m.selected_items, entries);
    lemma_outside_of(m.selected_items, entries);
    lemma_insert_all(kept, entries);
    lemma_outside_of(once.selected_items, entries);
    lemma_insert_all(outside_of(once.selected_items, entries), entries);
    assert forall|p: Seq<char>| entries.contains(p) implies (exists|i: int|
        0 <= i < entries.len() && entries[i] == p) by {}
    assert forall|p: Seq<char>|
        twice.selected_items.contains(p) <==> m.selected_items.contains(p) by {
        if entries.contains(p) {
            let i = choose|i: int| 0 <= i < entries.len() && entries[i] == p;
            assert(entries[i] == p);
        }
        if all_selected(once.selected_items, entries) {
        } else {
            let i = choose|i: int|
                0 <= i < entries.len() && !once.selected_items.contains(#[trigger] entries[i]);
            assert(entries.contains(entries[i]));
        }
    }
    assert(twice.selected_items.to_set() =~= m.selected_items.to_set());
}

/// After a file was taken out of a collection, every collection counts the
/// files it has, and the cursor in the files of the collection under the
/// cursor points at one of them if any is left.
pub proof fn law_unselect_keeps_count_and_cursor(m: AppView)
    requires
        m.wf(),
    ensures
        forall|i: int|
            0 <= i < m.unselect_file_from_collection().collections.len() ==> (
            #[trigger] m.unselect_file_from_collection().collections[i]).num_files
                == m.unselect_file_from_collection().collections[i].files.len(),
        m.unselect_file_from_collection().member_count() > 0
            ==> m.unselect_file_from_collection().selected_file_in_collection_index
            < m.unselect_file_from_collection().member_count(),
{
}

/// Deleting the collection under the cursor when it is the last of the
/// store leaves the cursor on the new last collection, or at 0 when none
/// is left: never past the end.
pub proof fn law_remove_last_collection(m: AppView)
    requires
        m.wf(),
        m.collections.len() > 0,
        m.selected_collection_index == m.collections.len() - 1,
    ensures
        m.remove_selected_collection().collections.len() == m.collections.len() - 1,
        m.remove_selected_collection().selected_collection_index == if m.collections.len() == 1 {
            0int
        } else {
            m.collections.len() - 2
        },
{
}

/// The state after `n` ticks.
pub open spec fn ticks(m: AppView, n: nat) -> AppView
    decreases n,
{
    if n == 0 {
        m
    } else {
        ticks(m, (n - 1) as nat).tick()
    }
}

/// A message is shown for `MESSAGE_TICKS` ticks and is gone from then on.
pub proof fn law_message_lasts_its_ticks(m: AppView, text: Seq<char>, n: nat)
    ensures
        n < MESSAGE_TICKS ==> ticks(m.notify(text), n).footer_message == Some(text) && ticks(
            m.notify(text),
            n,
        ).message_counter == MESSAGE_TICKS - n,
        n >= MESSAGE_TICKS ==> ticks(m.notify(text), n).footer_message is None && ticks(
            m.notify(text),
            n,
        ).message_counter == 0,
    decreases n,
{
    if n > 0 {
        law_message_lasts_its_ticks(m, text, (n - 1) as nat);
    }
}

/// While help is shown, every key closes it and does nothing else.
pub proof fn law_help_takes_every_key(m: AppView, key: Key)
    requires
        m.show_help,
    ensures
        m.after(m.command_for_key(key)) == m.set_help(false),
        m.action_of(m.command_for_key(key)) == Action::Nothing,
{
}

/// While a collection is renamed, no key moves a cursor, changes the
/// selection, the listing or the focus, adds or deletes a collection or a
/// file of one, or ends the session: keys edit the name, confirm or cancel.
pub proof fn law_renaming_takes_every_key(m: AppView, key: Key)
    requires
        m.renaming_collection,
        !m.show_help,
    ensures
        m.after(m.command_for_key(key)) == (AppView {
            collections: m.after(m.command_for_key(key)).collections,
            renaming_collection: m.after(m.command_for_key(key)).renaming_collection,
            new_collection_name: m.after(m.command_for_key(key)).new_collection_name,
            footer_message: m.after(m.command_for_key(key)).footer_message,
            message_counter: m.after(m.command_for_key(key)).message_counter,
            ..m
        }),
        m.after(m.command_for_key(key)).collections.len() == m.collections.len(),
        forall|i: int|
            0 <= i < m.collections.len() ==> (#[trigger] m.after(
                m.command_for_key(key),
            ).collections[i]).files == m.collections[i].files,
        m.action_of(m.command_for_key(key)) == Action::Nothing || m.action_of(
            m.command_for_key(key),
        ) == Action::Persist,
        m.action_of(m.command_for_key(key)) == Action::Persist ==> key == Key::Enter,
{
}

/// An edit of the name while a collection is renamed.
pub enum Edit {
    Insert(char),
    Backspace,
}

/// `name` after the edits `edits`, taken in order.
pub open spec fn edited(name: Seq<char>, edits: Seq<Edit>) -> Seq<char>
    decreases edits.len(),
{
    if edits.len() == 0 {
        name
    } else {
        let before = edited(name, edits.drop_last());
        match edits.last() {
            Edit::Insert(c) => before.push(c),
            Edit::Backspace => if before.len() > 0 {
                before.drop_last()
            } else {
                before
            },
        }
    }
}

/// The state after the edits `edits`, taken in order from `m`.
pub open spec fn after_edits(m: AppView, edits: Seq<Edit>) -> AppView
    decreases edits.len(),
{
    if edits.len() == 0 {
        m
    } else {
        let before = after_edits(m, edits.drop_last());
        match edits.last() {
            Edit::Insert(c) => before.rename_insert(c),
            Edit::Backspace => before.rename_backspace(),
        }
    }
}

/// Edits while renaming change the edit buffer and nothing else.
pub proof fn lemma_after_edits(m: AppView, edits: Seq<Edit>)
    requires
        m.renaming_collection,
    ensures
        after_edits(m, edits) == (AppView {
            new_collection_name: edited(m.new_collection_name, edits),
            ..m
        }),
    decreases edits.len(),
{
    if edits.len() > 0 {
        lemma_after_edits(m, edits.drop_last());
    }
}

/// Beginning to rename and cancelling, whatever was typed in between,
/// leaves every collection as it was, and no step of it asks for the store
/// to be written.
pub proof fn law_cancelled_rename_changes_nothing(m: AppView, edits: Seq<Edit>, c: char)
    ensures
        after_edits(m.start_rename(), edits).cancel_rename().collections == m.collections,
        m.action_of(Command::StartRename) == Action::Nothing,
        m.action_of(Command::RenameInsert(c)) == Action::Nothing,
        m.action_of(Command::RenameBackspace) == Action::Nothing,
        m.action_of(Command::CancelRename) == Action::Nothing,
{
    let begun = m.start_rename();
    if begun.renaming_collection {
        lemma_after_edits(begun, edits);
    } else {
        lemma_edits_outside_renaming(begun, edits);
    }
}

/// Outside renaming, edits change nothing.
pub proof fn lemma_edits_outside_renaming(m: AppView, edits: Seq<Edit>)
    requires
        !m.renaming_collection,
    ensures
        after_edits(m, edits) == m,
    decreases edits.len(),
{
    if edits.len() > 0 {
        lemma_edits_outside_renaming(m, edits.drop_last());
    }
}

/// Beginning to rename, editing and confirming gives the collection under
/// the cursor exactly the name that the edits make of its old name, leaves
/// the other collections alone, and asks for the store to be written.
pub proof fn law_confirmed_rename(m: AppView, edits: Seq<Edit>)
    requires
        m.has_selected_collection(),
    ensures
        after_edits(m.start_rename(), edits).confirm_rename().collections == m.collections.update(
            m.selected_collection_index as int,
            m.collections[m.selected_collection_index as int].renamed(
                edited(m.collections[m.selected_collection_index as int].name, edits),
            ),
        ),
        after_edits(m.start_rename(), edits).action_of(Command::ConfirmRename) == Action::Persist,
        !after_edits(m.start_rename(), edits).confirm_rename().renaming_collection,
{
    lemma_after_edits(m.start_rename(), edits);
}

} // verus!
