//! The browser itself: the state, and the commands that change it.

use crate::clock::current_time;
pub use crate::collection::Collection;
use crate::invariants::{
    lemma_ascend_wf, lemma_descend_wf, lemma_focus_wf, lemma_initial_wf, lemma_move_cursor_wf,
    lemma_notify_wf, lemma_record_export_wf, lemma_remove_selected_collection_wf,
    lemma_rename_wf, lemma_tick_wf, lemma_toggle_select_all_wf, lemma_toggle_selection_wf,
    lemma_unselect_file_from_collection_wf,
};
pub use crate::model::FocusedPane;
use crate::model::{
    all_selected, clamp_index, insert_all, moved_index, outside_of, AppView, CollectionView,
    Timestamp, MESSAGE_TICKS,
};
use crate::order::{lemma_sorted_listing, sort_paths};
use crate::outcome::{Error, Probe};
use crate::text::{contains_path, path_seq, position_of, push_decimal};
use vstd::prelude::*;

verus! {

/// The state of one browsing session.
#[derive(Debug)]
pub struct App {
    current_dir: String,
    directory_entries: Vec<String>,
    selected_file_index: usize,
    selected_collection_index: usize,
    selected_file_in_collection_index: usize,
    selected_items: Vec<String>,
    base_dir: String,
    navigation_stack: Vec<(String, usize)>,
    footer_message: Option<String>,
    message_counter: u8,
    all_selected: bool,
    collections: Vec<Collection>,
    focused_pane: FocusedPane,
    show_help: bool,
    renaming_collection: bool,
    new_collection_name: String,
}

/// The remembered places as the contracts see them.
pub open spec fn frames_view(frames: Seq<(String, usize)>) -> Seq<(Seq<char>, nat)> {
    frames.map_values(|f: (String, usize)| (f.0@, f.1 as nat))
}

/// The store as the contracts see it.
pub open spec fn collections_view(collections: Seq<Collection>) -> Seq<CollectionView> {
    collections.map_values(|c: Collection| c@)
}

/// A footer message as the contracts see it.
pub open spec fn message_view(message: Option<String>) -> Option<Seq<char>> {
    match message {
        Some(text) => Some(text@),
        None => None,
    }
}

/// `index` brought back into a list of `len` items.
fn clamped(index: usize, len: usize) -> (r: usize)
    ensures
        r == clamp_index(index as nat, len as nat),
{
    if index < len {
        index
    } else if len == 0 {
        0
    } else {
        len - 1
    }
}

/// `index` moved by `delta` within a list of `len` items.
fn moved(index: usize, delta: i64, len: usize) -> (r: usize)
    ensures
        r == moved_index(index as nat, delta as int, len as nat),
{
    if len == 0 {
        index
    } else if delta >= 0 {
        if index >= len - 1 {
            len - 1
        } else {
            let room: usize = len - 1 - index;
            if delta as u64 >= room as u64 {
                len - 1
            } else {
                index + delta as usize
            }
        }
    } else {
        let back: u64 = if delta == i64::MIN {
            9223372036854775808u64
        } else {
            (-delta) as u64
        };
        if index as u64 <= back {
            0
        } else {
            let to: usize = index - back as usize;
            if to >= len {
                len - 1
            } else {
                to
            }
        }
    }
}

impl View for App {
    type V = AppView;

    closed spec fn view(&self) -> AppView {
        AppView {
            current_dir: self.current_dir@,
            directory_entries: path_seq(self.directory_entries@),
            selected_file_index: self.selected_file_index as nat,
            selected_collection_index: self.selected_collection_index as nat,
            selected_file_in_collection_index: self.selected_file_in_collection_index as nat,
            selected_items: path_seq(self.selected_items@),
            base_dir: self.base_dir@,
            navigation_stack: frames_view(self.navigation_stack@),
            footer_message: message_view(self.footer_message),
            message_counter: self.message_counter as nat,
            all_selected: self.all_selected,
            collections: collections_view(self.collections@),
            focused_pane: self.focused_pane,
            show_help: self.show_help,
            renaming_collection: self.renaming_collection,
            new_collection_name: self.new_collection_name@,
        }
    }
}

impl App {
    /// Whether the state is one the browser can be in.
    pub open spec fn wf(&self) -> bool {
        self@.wf()
    }

    /// A session that starts in `current_dir`, whose entries are `raw` in
    /// any order, with `collections` as the store.
    pub fn new(current_dir: String, raw: Vec<String>, collections: Vec<Collection>) -> (app: App)
        ensures
            app.wf(),
            app@ == AppView::initial(
                current_dir@,
                path_seq(raw@),
                collections_view(collections@),
            ),
    {
        let base_dir = current_dir.clone();
        let directory_entries = sort_paths(raw);
        proof {
            assert forall|i: int| 0 <= i < collections.len() implies (#[trigger] collections_view(
                collections@,
            )[i]).wf() by {
                collections[i].lemma_wf();
            }
            lemma_initial_wf(current_dir@, path_seq(raw@), collections_view(collections@));
        }
        App {
            current_dir,
            directory_entries,
            selected_file_index: 0,
            selected_collection_index: 0,
            selected_file_in_collection_index: 0,
            selected_items: Vec::new(),
            base_dir,
            navigation_stack: Vec::new(),
            footer_message: None,
            message_counter: 0,
            all_selected: false,
            collections,
            focused_pane: FocusedPane::FilesPane,
            show_help: false,
            renaming_collection: false,
            new_collection_name: String::new(),
        }
    }

    /// The entry under the files cursor: what entering a directory would
    /// enter.
    pub fn entry_under_cursor(&self) -> (entry: Option<&String>)
        ensures
            match entry {
                Some(path) => self@.entry_under_cursor() == Some(path@),
                None => self@.entry_under_cursor() is None,
            },
    {
        if self.selected_file_index < self.directory_entries.len() {
            Some(&self.directory_entries[self.selected_file_index])
        } else {
            None
        }
    }

    /// Enters the directory under the cursor, `probe` being what was found
    /// there. A directory is entered; one that could not be read is an
    /// error; anything else, or no entry under the cursor, is nothing to do.
    pub fn enter_directory(&mut self, probe: Probe) -> (r: Result<(), Error>)
        requires
            old(self).wf(),
        ensures
            final(self).wf(),
            match (old(self)@.entry_under_cursor(), probe) {
                (Some(_), Probe::Directory(raw)) => r is Ok && final(self)@ == old(self)@.descend(
                    path_seq(raw@),
                ),
                (Some(_), Probe::Unreadable) => r == Err::<(), Error>(Error::DirectoryUnreadable)
                    && final(self)@ == old(self)@,
                _ => r is Ok && final(self)@ == old(self)@,
            },
    {
        if self.selected_file_index >= self.directory_entries.len() {
            return Ok(());
        }
        match probe {
            Probe::Directory(raw) => {
                proof {
                    lemma_descend_wf(self@, path_seq(raw@));
                }
                let mut dir = self.directory_entries[self.selected_file_index].clone();
                std::mem::swap(&mut dir, &mut self.current_dir);
                self.navigation_stack.push((dir, self.selected_file_index));
                self.directory_entries = sort_paths(raw);
                self.selected_file_index = 0;
                assert(self@.navigation_stack =~= old(self)@.navigation_stack.push(
                    (old(self)@.current_dir, old(self)@.selected_file_index),
                ));
                Ok(())
            },
            Probe::Unreadable => Err(Error::DirectoryUnreadable),
            _ => Ok(()),
        }
    }

    /// The directory that going back would return to.
    pub fn back_target(&self) -> (dir: Option<&String>)
        ensures
            match dir {
                Some(path) => self@.back_target() == Some(path@),
                None => self@.back_target() is None,
            },
    {
        let n = self.navigation_stack.len();
        if n > 0 {
            Some(&self.navigation_stack[n - 1].0)
        } else {
            None
        }
    }

    /// Goes back to the directory last left, `probe` being what was found
    /// there now. Where it is no directory that can be read, that is an
    /// error and nothing changes; where no directory was entered, there is
    /// nothing to do.
    pub fn go_back(&mut self, probe: Probe) -> (r: Result<(), Error>)
        requires
            old(self).wf(),
        ensures
            final(self).wf(),
            match (old(self)@.back_target(), probe) {
                (Some(_), Probe::Directory(raw)) => r is Ok && final(self)@ == old(self)@.ascend(
                    path_seq(raw@),
                ),
                (Some(_), _) => r == Err::<(), Error>(Error::DirectoryUnreadable) && final(self)@
                    == old(self)@,
                (None, _) => r is Ok && final(self)@ == old(self)@,
            },
    {
        if self.navigation_stack.len() == 0 {
            return Ok(());
        }
        match probe {
            Probe::Directory(raw) => {
                proof {
                    lemma_ascend_wf(self@, path_seq(raw@));
                    lemma_sorted_listing(path_seq(raw@));
                }
                let (dir, index) = self.navigation_stack.pop().unwrap();
                self.current_dir = dir;
                self.directory_entries = sort_paths(raw);
                self.selected_file_index = clamped(index, self.directory_entries.len());
                assert(self@.navigation_stack =~= old(self)@.navigation_stack.drop_last());
                Ok(())
            },
            _ => Err(Error::DirectoryUnreadable),
        }
    }

    /// Moves the cursor of the focused pane by `delta` places, stopping at
    /// either end of its list. Moving to another collection puts the cursor
    /// of its files back to the top.
    pub fn move_cursor(&mut self, delta: i64)
        requires
            old(self).wf(),
        ensures
            final(self).wf(),
            final(self)@ == old(self)@.move_cursor(delta as int),
    {
        proof {
            lemma_move_cursor_wf(self@, delta as int);
        }
        match self.focused_pane {
            FocusedPane::FilesPane => {
                self.selected_file_index = moved(
                    self.selected_file_index,
                    delta,
                    self.directory_entries.len(),
                );
            },
            FocusedPane::CollectionsPane => {
                let to = moved(self.selected_collection_index, delta, self.collections.len());
                if to != self.selected_collection_index {
                    self.selected_collection_index = to;
                    self.selected_file_in_collection_index = 0;
                }
            },
            FocusedPane::SelectedFilesPane => {
                let count = self.member_count();
                self.selected_file_in_collection_index = moved(
                    self.selected_file_in_collection_index,
                    delta,
                    count,
                );
            },
        }
    }

    /// The number of files of the collection under the cursor; 0 where
    /// there is none.
    pub fn member_count(&self) -> (n: usize)
        ensures
            n == self@.member_count(),
    {
        if self.selected_collection_index < self.collections.len() {
            self.collections[self.selected_collection_index].num_files()
        } else {
            0
        }
    }

    /// Selects the entry under the cursor, or deselects it where it is
    /// selected.
    pub fn toggle_selection(&mut self)
        requires
            old(self).wf(),
        ensures
            final(self).wf(),
            final(self)@ == old(self)@.toggle_selection(),
    {
        proof {
            lemma_toggle_selection_wf(self@);
        }
        if self.selected_file_index < self.directory_entries.len() {
            let entry = &self.directory_entries[self.selected_file_index];
            let ghost selection = path_seq(self.selected_items@);
            match position_of(&self.selected_items, entry) {
                Some(i) => {
                    proof {
                        assert(selection[i as int] == entry@);
                        let k = selection.index_of(entry@);
                        assert(selection[k] == entry@);
                    }
                    self.selected_items.remove(i);
                    assert(path_seq(self.selected_items@) =~= selection.remove(i as int));
                },
                None => {
                    let added = entry.clone();
                    self.selected_items.push(added);
                    assert(path_seq(self.selected_items@) =~= selection.push(entry@));
                },
            }
        }
    }

    /// Whether every entry of the listed directory is selected.
    fn is_current_dir_all_selected(&self) -> (all: bool)
        ensures
            all == all_selected(self@.selected_items, self@.directory_entries),
    {
        let mut i: usize = 0;
        while i < self.directory_entries.len()
            invariant
                i <= self.directory_entries.len(),
                forall|j: int|
                    0 <= j < i ==> path_seq(self.selected_items@).contains(
                        #[trigger] path_seq(self.directory_entries@)[j],
                    ),
            decreases self.directory_entries.len() - i,
        {
            if !contains_path(&self.selected_items, &self.directory_entries[i]) {
                assert(path_seq(self.directory_entries@)[i as int] == self.directory_entries[i as int]@);
                return false;
            }
            assert(path_seq(self.directory_entries@)[i as int] == self.directory_entries[i as int]@);
            i += 1;
        }
        true
    }

    /// Select-all within the listed directory: where every entry is
    /// selected already, these entries are deselected; else all of them are
    /// selected. What is selected in other directories stays.
    pub fn toggle_select_all(&mut self)
        requires
            old(self).wf(),
        ensures
            final(self).wf(),
            final(self)@ == old(self)@.toggle_select_all(),
    {
        proof {
            lemma_toggle_select_all_wf(self@);
        }
        let all = self.is_current_dir_all_selected();
        let ghost selection = path_seq(self.selected_items@);
        let ghost entries = path_seq(self.directory_entries@);
        let mut kept: Vec<String> = Vec::new();
        let mut i: usize = 0;
        proof {
            reveal(Seq::filter);
            assert(selection.take(0) =~= Seq::<Seq<char>>::empty());
            assert(path_seq(kept@) =~= outside_of(selection.take(0), entries));
        }
        while i < self.selected_items.len()
            invariant
                i <= self.selected_items.len(),
                selection == path_seq(self.selected_items@),
                entries == path_seq(self.directory_entries@),
                path_seq(kept@) == outside_of(selection.take(i as int), entries),
            decreases self.selected_items.len() - i,
        {
            let item = &self.selected_items[i];
            let ghost before = path_seq(kept@);
            if !contains_path(&self.directory_entries, item) {
                kept.push(item.clone());
                assert(path_seq(kept@) =~= before.push(item@));
            }
            proof {
                assert(selection.take(i + 1) =~= selection.take(i as int).push(item@));
                selection.take(i as int).lemma_filter_push(
                    item@,
                    |p: Seq<char>| !entries.contains(p),
                );
            }
            i += 1;
        }
        assert(selection.take(i as int) =~= selection);
        if !all {
            let ghost outside = path_seq(kept@);
            let mut j: usize = 0;
            assert(entries.take(0) =~= Seq::<Seq<char>>::empty());
            while j < self.directory_entries.len()
                invariant
                    j <= self.directory_entries.len(),
                    entries == path_seq(self.directory_entries@),
                    path_seq(kept@) == insert_all(outside, entries.take(j as int)),
                decreases self.directory_entries.len() - j,
            {
                let entry = &self.directory_entries[j];
                let ghost before = path_seq(kept@);
                if !contains_path(&kept, entry) {
                    kept.push(entry.clone());
                    assert(path_seq(kept@) =~= before.push(entry@));
                }
                proof {
                    assert(entries.take(j + 1).drop_last() =~= entries.take(j as int));
                    assert(entries.take(j + 1).last() == entry@);
                }
                j += 1;
            }
            assert(entries.take(j as int) =~= entries);
        }
        self.selected_items = kept;
        self.all_selected = !all;
    }

    /// Shows `text` in the footer for the next `MESSAGE_TICKS` ticks, in
    /// place of any message shown before.
    pub fn notify(&mut self, text: &str)
        requires
            old(self).wf(),
        ensures
            final(self).wf(),
            final(self)@ == old(self)@.notify(text@),
    {
        proof {
            lemma_notify_wf(self@, text@);
        }
        self.footer_message = Some(text.to_owned());
        self.message_counter = MESSAGE_TICKS;
    }

    /// One tick of the event loop: the footer message loses one of its
    /// ticks and goes with the last.
    pub fn decrement_message_counter(&mut self)
        requires
            old(self).wf(),
        ensures
            final(self).wf(),
            final(self)@ == old(self)@.tick(),
    {
        proof {
            lemma_tick_wf(self@);
        }
        if self.message_counter > 0 {
            self.message_counter -= 1;
            if self.message_counter == 0 {
                self.footer_message = None;
            }
        }
    }

    /// Deletes the collection under the cursor and says whether the store
    /// changed and is to be written. The cursor moves up only where it
    /// would point past the end; the cursor of its files goes to the top.
    pub fn remove_selected_collection(&mut self) -> (changed: bool)
        requires
            old(self).wf(),
        ensures
            final(self).wf(),
            final(self)@ == old(self)@.remove_selected_collection(),
            changed == old(self)@.has_selected_collection(),
            changed ==> final(self)@.collections.len() == old(self)@.collections.len() - 1,
            final(self)@.selected_collection_index == clamp_index(
                old(self)@.selected_collection_index,
                final(self)@.collections.len(),
            ),
    {
        proof {
            lemma_remove_selected_collection_wf(self@);
        }
        if self.selected_collection_index < self.collections.len() {
            let ghost before = collections_view(self.collections@);
            self.collections.remove(self.selected_collection_index);
            assert(collections_view(self.collections@) =~= before.remove(
                self.selected_collection_index as int,
            ));
            self.selected_collection_index = clamped(
                self.selected_collection_index,
                self.collections.len(),
            );
            self.selected_file_in_collection_index = 0;
            true
        } else {
            false
        }
    }

    /// Takes the file under the cursor out of the collection under the
    /// cursor and says whether the store changed and is to be written.
    /// Afterwards the collection counts the files it has, and the cursor
    /// points at one of them if any is left.
    pub fn unselect_file_from_collection(&mut self) -> (changed: bool)
        requires
            old(self).wf(),
        ensures
            final(self).wf(),
            final(self)@ == old(self)@.unselect_file_from_collection(),
            changed == old(self)@.has_selected_member(),
            forall|i: int|
                0 <= i < final(self)@.collections.len() ==> (
                #[trigger] final(self)@.collections[i]).num_files
                    == final(self)@.collections[i].files.len(),
            final(self)@.member_count() > 0 ==> final(self)@.selected_file_in_collection_index
                < final(self)@.member_count(),
    {
        proof {
            lemma_unselect_file_from_collection_wf(self@);
        }
        let ci = self.selected_collection_index;
        if ci < self.collections.len() {
            let ghost before = collections_view(self.collections@);
            let fi = self.selected_file_in_collection_index;
            match self.collections[ci].remove_file(fi) {
                Some(_) => {
                    let left = self.collections[ci].num_files();
                    self.selected_file_in_collection_index = clamped(fi, left);
                    assert(collections_view(self.collections@) =~= before.update(
                        ci as int,
                        before[ci as int].without_file(fi as int),
                    ));
                    true
                },
                None => {
                    assert(collections_view(self.collections@) =~= before);
                    false
                },
            }
        } else {
            false
        }
    }

    /// Begins to rename the collection under the cursor: the edit buffer
    /// starts as its name. Without a collection there is nothing to do.
    pub fn start_rename(&mut self)
        requires
            old(self).wf(),
        ensures
            final(self).wf(),
            final(self)@ == old(self)@.start_rename(),
    {
        proof {
            lemma_rename_wf(self@, ' ');
        }
        if self.selected_collection_index < self.collections.len() {
            self.renaming_collection = true;
            self.new_collection_name = self.collections[self.selected_collection_index].name().clone();
        }
    }

    /// Types `c` into the edit buffer. Outside renaming there is nothing to
    /// do.
    pub fn rename_insert(&mut self, c: char)
        requires
            old(self).wf(),
        ensures
            final(self).wf(),
            final(self)@ == old(self)@.rename_insert(c),
    {
        proof {
            lemma_rename_wf(self@, c);
        }
        if self.renaming_collection {
            self.new_collection_name.push(c);
        }
    }

    /// Deletes the last character of the edit buffer. Outside renaming, or
    /// on an empty buffer, there is nothing to do.
    pub fn rename_backspace(&mut self)
        requires
            old(self).wf(),
        ensures
            final(self).wf(),
            final(self)@ == old(self)@.rename_backspace(),
    {
        proof {
            lemma_rename_wf(self@, ' ');
        }
        if self.renaming_collection {
            self.new_collection_name.pop();
        }
    }

    /// Confirms the renaming: the collection under the cursor takes the
    /// edit buffer as its name. Says whether the store changed and is to be
    /// written.
    pub fn confirm_rename(&mut self) -> (changed: bool)
        requires
            old(self).wf(),
        ensures
            final(self).wf(),
            final(self)@ == old(self)@.confirm_rename(),
            changed == old(self)@.can_confirm_rename(),
    {
        let ci = self.selected_collection_index;
        if !self.renaming_collection || ci >= self.collections.len() {
            return false;
        }
        let ghost before = collections_view(self.collections@);
        let name = self.new_collection_name.clone();
        self.collections[ci].rename(name);
        assert(collections_view(self.collections@) =~= before.update(
            ci as int,
            before[ci as int].renamed(old(self)@.new_collection_name),
        ));
        self.renaming_collection = false;
        self.new_collection_name = String::new();
        self.notify("Collection renamed!");
        true
    }

    /// Cancels the renaming: no name changes and the store is left alone.
    pub fn cancel_rename(&mut self)
        requires
            old(self).wf(),
        ensures
            final(self).wf(),
            final(self)@ == old(self)@.cancel_rename(),
            final(self)@.collections == old(self)@.collections,
    {
        if self.renaming_collection {
            self.renaming_collection = false;
            self.new_collection_name = String::new();
            self.notify("Rename canceled.");
        }
    }

    /// Gives the keyboard to `pane`.
    pub fn focus(&mut self, pane: FocusedPane)
        requires
            old(self).wf(),
        ensures
            final(self).wf(),
            final(self)@ == old(self)@.focus(pane),
    {
        proof {
            lemma_focus_wf(self@, pane, true);
        }
        self.focused_pane = pane;
    }

    /// Shows the help screen.
    pub fn open_help(&mut self)
        requires
            old(self).wf(),
        ensures
            final(self).wf(),
            final(self)@ == old(self)@.set_help(true),
    {
        proof {
            lemma_focus_wf(self@, self@.focused_pane, true);
        }
        self.show_help = true;
    }

    /// Hides the help screen.
    pub fn close_help(&mut self)
        requires
            old(self).wf(),
        ensures
            final(self).wf(),
            final(self)@ == old(self)@.set_help(false),
    {
        proof {
            lemma_focus_wf(self@, self@.focused_pane, false);
        }
        self.show_help = false;
    }

    /// Records that the selection was exported as `files` at `now`: a
    /// collection of them is added to the store under the next default
    /// name, the selection is emptied and the footer says so. The store
    /// changed and is to be written.
    pub fn record_export(&mut self, files: Vec<String>, now: Timestamp)
        requires
            old(self).wf(),
        ensures
            final(self).wf(),
            final(self)@ == old(self)@.record_export(path_seq(files@), now),
    {
        proof {
            lemma_record_export_wf(self@, path_seq(files@), now);
        }
        let ghost before = collections_view(self.collections@);
        let mut name = "Collection ".to_owned();
        let count: u128 = self.collections.len() as u128;
        push_decimal(&mut name, count + 1);
        let collection = Collection::new(name, files, now);
        self.collections.push(collection);
        assert(collections_view(self.collections@) =~= before.push(collection@));
        self.selected_items = Vec::new();
        self.all_selected = false;
        assert(path_seq(self.selected_items@) =~= Seq::<Seq<char>>::empty());
        self.footer_message = Some("Copied to clipboard!".to_owned());
        self.message_counter = MESSAGE_TICKS;
    }

    /// Ends the export of the selection, `files` being what it expanded to
    /// and `written` whether the clipboard took the text. Where it did, the
    /// export is recorded as by `record_export`, at the time of the call.
    /// Where it did not, that is an error and nothing changes.
    pub fn copy_selected_items_to_clipboard(&mut self, files: Vec<String>, written: bool) -> (r:
        Result<(), Error>)
        requires
            old(self).wf(),
        ensures
            final(self).wf(),
            written ==> r is Ok && exists|now: Timestamp|
                final(self)@ == #[trigger] old(self)@.record_export(path_seq(files@), now),
            !written ==> r == Err::<(), Error>(Error::ClipboardUnavailable) && final(self)@ == old(
                self,
            )@,
    {
        if !written {
            return Err(Error::ClipboardUnavailable);
        }
        let now = current_time();
        self.record_export(files, now);
        Ok(())
    }

    /// Ends the export of the collection under the cursor, `written` being
    /// whether the clipboard took the text. Without a collection there was
    /// nothing to export and there is nothing to do. Else the footer says
    /// that it was copied, or, where the clipboard failed, that is an error
    /// and nothing changes.
    pub fn copy_selected_collection_to_clipboard(&mut self, written: bool) -> (r: Result<
        (),
        Error,
    >)
        requires
            old(self).wf(),
        ensures
            final(self).wf(),
            old(self)@.collections.len() == 0 || written ==> r is Ok && final(self)@ == old(
                self,
            )@.record_collection_export(),
            old(self)@.collections.len() > 0 && !written ==> r == Err::<(), Error>(
                Error::ClipboardUnavailable,
            ) && final(self)@ == old(self)@,
    {
        if self.collections.len() == 0 {
            return Ok(());
        }
        if !written {
            return Err(Error::ClipboardUnavailable);
        }
        self.notify("Collection copied to clipboard!");
        Ok(())
    }

    /// The directory that is listed.
    pub fn current_dir(&self) -> (dir: &String)
        ensures
            dir@ == self@.current_dir,
    {
        &self.current_dir
    }

    /// The directory the session started in, from which relative names are
    /// taken.
    pub fn base_dir(&self) -> (dir: &String)
        ensures
            dir@ == self@.base_dir,
    {
        &self.base_dir
    }

    /// The entries of the listed directory, in listing order.
    pub fn directory_entries(&self) -> (entries: &Vec<String>)
        ensures
            path_seq(entries@) == self@.directory_entries,
    {
        &self.directory_entries
    }

    /// The selected paths, in the order in which they were selected.
    pub fn selected_items(&self) -> (items: &Vec<String>)
        ensures
            path_seq(items@) == self@.selected_items,
    {
        &self.selected_items
    }

    /// Whether `path` is selected.
    pub fn is_selected(&self, path: &String) -> (selected: bool)
        ensures
            selected == self@.selected_items.contains(path@),
    {
        contains_path(&self.selected_items, path)
    }

    /// The collections of the store, oldest first.
    pub fn collections(&self) -> (collections: &Vec<Collection>)
        ensures
            collections_view(collections@) == self@.collections,
    {
        &self.collections
    }

    /// The collection under the cursor, if there is one.
    pub fn selected_collection(&self) -> (collection: Option<&Collection>)
        ensures
            match collection {
                Some(c) => self@.has_selected_collection() && c@
                    == self@.collections[self@.selected_collection_index as int],
                None => !self@.has_selected_collection(),
            },
    {
        if self.selected_collection_index < self.collections.len() {
            Some(&self.collections[self.selected_collection_index])
        } else {
            None
        }
    }

    /// The cursor in the listing.
    pub fn selected_file_index(&self) -> (index: usize)
        ensures
            index == self@.selected_file_index,
    {
        self.selected_file_index
    }

    /// The cursor in the store.
    pub fn selected_collection_index(&self) -> (index: usize)
        ensures
            index == self@.selected_collection_index,
    {
        self.selected_collection_index
    }

    /// The cursor in the files of the collection under the cursor.
    pub fn selected_file_in_collection_index(&self) -> (index: usize)
        ensures
            index == self@.selected_file_in_collection_index,
    {
        self.selected_file_in_collection_index
    }

    /// How many directories were entered and not yet left.
    pub fn navigation_depth(&self) -> (depth: usize)
        ensures
            depth == self@.navigation_stack.len(),
    {
        self.navigation_stack.len()
    }

    /// The message in the footer, while one is shown.
    pub fn footer_message(&self) -> (message: &Option<String>)
        ensures
            message_view(*message) == self@.footer_message,
    {
        &self.footer_message
    }

    /// The ticks left to the footer message.
    pub fn message_counter(&self) -> (ticks: u8)
        ensures
            ticks == self@.message_counter,
    {
        self.message_counter
    }

    /// Whether the last select-all selected (rather than deselected).
    pub fn all_selected(&self) -> (flag: bool)
        ensures
            flag == self@.all_selected,
    {
        self.all_selected
    }

    /// The pane that has the keyboard.
    pub fn focused_pane(&self) -> (pane: FocusedPane)
        ensures
            pane == self@.focused_pane,
    {
        self.focused_pane
    }

    /// Whether the help screen is shown.
    pub fn show_help(&self) -> (shown: bool)
        ensures
            shown == self@.show_help,
    {
        self.show_help
    }

    /// Whether a collection is being renamed.
    pub fn renaming_collection(&self) -> (renaming: bool)
        ensures
            renaming == self@.renaming_collection,
    {
        self.renaming_collection
    }

    /// The edit buffer of the renaming.
    pub fn new_collection_name(&self) -> (name: &String)
        ensures
            name@ == self@.new_collection_name,
    {
        &self.new_collection_name
    }
}

} // verus!
