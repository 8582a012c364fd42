//! The browser's state as mathematics, and each command as a function from
//! state to state. The executable types are held to these.

use crate::order::{path_order, sorted_listing};
use vstd::prelude::*;
use vstd::relations::sorted_by;

verus! {

/// For how many ticks a footer message stays.
pub const MESSAGE_TICKS: u8 = 5;

/// The pane that has the keyboard.
#[derive(Clone, Copy, Debug, PartialEq, Eq, Structural)]
pub enum FocusedPane {
    FilesPane,
    CollectionsPane,
    SelectedFilesPane,
}

/// An instant: seconds since the Unix epoch, and the nanoseconds past that
/// second.
#[derive(Clone, Copy, Debug, PartialEq, Eq, Structural)]
pub struct Timestamp {
    pub seconds: i64,
    pub nanos: u32,
}

/// `index` brought back into a list of `len` items: itself where it points
/// at an item, else the last item, and 0 for an empty list.
pub open spec fn clamp_index(index: nat, len: nat) -> nat {
    if index < len {
        index
    } else if len == 0 {
        0
    } else {
        (len - 1) as nat
    }
}

/// `index` moved by `delta` within a list of `len` items, stopping at either
/// end; an empty list leaves it alone.
pub open spec fn moved_index(index: nat, delta: int, len: nat) -> nat {
    if len == 0 {
        index
    } else if index + delta < 0 {
        0
    } else if index + delta >= len {
        (len - 1) as nat
    } else {
        (index + delta) as nat
    }
}

/// The paths of `selection` that are not among `entries`, in their order.
pub open spec fn outside_of(selection: Seq<Seq<char>>, entries: Seq<Seq<char>>) -> Seq<
    Seq<char>,
> {
    selection.filter(|p: Seq<char>| !entries.contains(p))
}

/// `selection` with each of `items` that it lacks added at the end, in the
/// order of `items`.
pub open spec fn insert_all(selection: Seq<Seq<char>>, items: Seq<Seq<char>>) -> Seq<Seq<char>>
    decreases items.len(),
{
    if items.len() == 0 {
        selection
    } else {
        let front = insert_all(selection, items.drop_last());
        if front.contains(items.last()) {
            front
        } else {
            front.push(items.last())
        }
    }
}

/// Whether every one of `entries` is in `selection`.
pub open spec fn all_selected(selection: Seq<Seq<char>>, entries: Seq<Seq<char>>) -> bool {
    forall|i: int| 0 <= i < entries.len() ==> selection.contains(#[trigger] entries[i])
}

/// What a collection holds.
#[verifier::ext_equal]
pub struct CollectionView {
    pub name: Seq<char>,
    pub files: Seq<Seq<char>>,
    pub num_files: nat,
    pub timestamp: Timestamp,
}

impl CollectionView {
    /// The count is the number of files.
    pub open spec fn wf(self) -> bool {
        self.num_files == self.files.len()
    }

    /// The collection made of `files` at `timestamp`, named by `name`.
    pub open spec fn created(name: Seq<char>, files: Seq<Seq<char>>, timestamp: Timestamp) -> Self {
        CollectionView { name, files, num_files: files.len(), timestamp }
    }

    /// This collection without its file at `index`.
    pub open spec fn without_file(self, index: int) -> Self {
        CollectionView {
            files: self.files.remove(index),
            num_files: (self.files.len() - 1) as nat,
            ..self
        }
    }

    /// This collection under another name.
    pub open spec fn renamed(self, name: Seq<char>) -> Self {
        CollectionView { name, ..self }
    }
}

/// The name a collection gets when `count` collections exist already.
pub open spec fn default_name(count: nat) -> Seq<char> {
    "Collection "@ + crate::text::decimal(count + 1)
}

/// The whole state of the browser.
#[verifier::ext_equal]
pub struct AppView {
    pub current_dir: Seq<char>,
    pub directory_entries: Seq<Seq<char>>,
    pub selected_file_index: nat,
    pub selected_collection_index: nat,
    pub selected_file_in_collection_index: nat,
    pub selected_items: Seq<Seq<char>>,
    pub base_dir: Seq<char>,
    pub navigation_stack: Seq<(Seq<char>, nat)>,
    pub footer_message: Option<Seq<char>>,
    pub message_counter: nat,
    pub all_selected: bool,
    pub collections: Seq<CollectionView>,
    pub focused_pane: FocusedPane,
    pub show_help: bool,
    pub renaming_collection: bool,
    pub new_collection_name: Seq<char>,
}

impl AppView {
    /// The number of files of the collection under the cursor; 0 where there
    /// is none.
    pub open spec fn member_count(self) -> nat {
        if self.selected_collection_index < self.collections.len() {
            self.collections[self.selected_collection_index as int].files.len()
        } else {
            0
        }
    }

    /// What holds of every state the browser can be in: the listing is
    /// sorted, nothing is selected twice, each cursor points into its list
    /// (or is 0 where the list is empty), each collection counts its files,
    /// and a footer message is shown exactly while ticks are left.
    pub open spec fn wf(self) -> bool {
        &&& sorted_by(self.directory_entries, path_order())
        &&& self.selected_items.no_duplicates()
        &&& self.selected_file_index == clamp_index(
            self.selected_file_index,
            self.directory_entries.len(),
        )
        &&& self.selected_collection_index == clamp_index(
            self.selected_collection_index,
            self.collections.len(),
        )
        &&& self.selected_file_in_collection_index == clamp_index(
            self.selected_file_in_collection_index,
            self.member_count(),
        )
        &&& forall|i: int| 0 <= i < self.collections.len() ==> (#[trigger] self.collections[i]).wf()
        &&& (self.footer_message is Some <==> self.message_counter > 0)
    }

    /// The state a session starts in: in `dir`, which is also the base for
    /// relative names, with `raw` as its entries and `collections` as the
    /// store.
    pub open spec fn initial(
        dir: Seq<char>,
        raw: Seq<Seq<char>>,
        collections: Seq<CollectionView>,
    ) -> Self {
        AppView {
            current_dir: dir,
            directory_entries: sorted_listing(raw),
            selected_file_index: 0,
            selected_collection_index: 0,
            selected_file_in_collection_index: 0,
            selected_items: Seq::empty(),
            base_dir: dir,
            navigation_stack: Seq::empty(),
            footer_message: None,
            message_counter: 0,
            all_selected: false,
            collections,
            focused_pane: FocusedPane::FilesPane,
            show_help: false,
            renaming_collection: false,
            new_collection_name: Seq::empty(),
        }
    }

    /// The entry under the files cursor, if the cursor points at one.
    pub open spec fn entry_under_cursor(self) -> Option<Seq<char>> {
        if self.selected_file_index < self.directory_entries.len() {
            Some(self.directory_entries[self.selected_file_index as int])
        } else {
            None
        }
    }

    /// The directory that going back leads to, if any was entered.
    pub open spec fn back_target(self) -> Option<Seq<char>> {
        if self.navigation_stack.len() > 0 {
            Some(self.navigation_stack.last().0)
        } else {
            None
        }
    }

    /// Entering the directory under the cursor, whose entries are `raw`: the
    /// place left is remembered, the listing is that of the new directory
    /// and the cursor is at its top. Nothing changes where the cursor points
    /// at no entry.
    pub open spec fn descend(self, raw: Seq<Seq<char>>) -> Self {
        if self.selected_file_index < self.directory_entries.len() {
            AppView {
                current_dir: self.directory_entries[self.selected_file_index as int],
                directory_entries: sorted_listing(raw),
                selected_file_index: 0,
                navigation_stack: self.navigation_stack.push(
                    (self.current_dir, self.selected_file_index),
                ),
                ..self
            }
        } else {
            self
        }
    }

    /// Going back to the directory last left, whose entries are now `raw`:
    /// directory and cursor are as they were left, the cursor brought back
    /// into the listing where that has shrunk. Nothing changes where no
    /// directory was entered.
    pub open spec fn ascend(self, raw: Seq<Seq<char>>) -> Self {
        if self.navigation_stack.len() > 0 {
            AppView {
                current_dir: self.navigation_stack.last().0,
                directory_entries: sorted_listing(raw),
                selected_file_index: clamp_index(self.navigation_stack.last().1, raw.len()),
                navigation_stack: self.navigation_stack.drop_last(),
                ..self
            }
        } else {
            self
        }
    }

    /// Moving the cursor of the focused pane by `delta`. A move to another
    /// collection puts the cursor of its files back to the top.
    pub open spec fn move_cursor(self, delta: int) -> Self {
        match self.focused_pane {
            FocusedPane::FilesPane => AppView {
                selected_file_index: moved_index(
                    self.selected_file_index,
                    delta,
                    self.directory_entries.len(),
                ),
                ..self
            },
            FocusedPane::CollectionsPane => {
                let moved = moved_index(
                    self.selected_collection_index,
                    delta,
                    self.collections.len(),
                );
                if moved == self.selected_collection_index {
                    self
                } else {
                    AppView {
                        selected_collection_index: moved,
                        selected_file_in_collection_index: 0,
                        ..self
                    }
                }
            },
            FocusedPane::SelectedFilesPane => AppView {
                selected_file_in_collection_index: moved_index(
                    self.selected_file_in_collection_index,
                    delta,
                    self.member_count(),
                ),
                ..self
            },
        }
    }

    /// Selecting the entry under the cursor, or deselecting it where it is
    /// selected.
    pub open spec fn toggle_selection(self) -> Self {
        match self.entry_under_cursor() {
            Some(p) => AppView {
                selected_items: if self.selected_items.contains(p) {
                    self.selected_items.remove(self.selected_items.index_of(p))
                } else {
                    self.selected_items.push(p)
                },
                ..self
            },
            None => self,
        }
    }

    /// Select-all within the listed directory: where every entry is selected
    /// already, these entries are deselected; else they are all selected.
    /// What is selected elsewhere stays.
    pub open spec fn toggle_select_all(self) -> Self {
        let all = all_selected(self.selected_items, self.directory_entries);
        let kept = outside_of(self.selected_items, self.directory_entries);
        AppView {
            selected_items: if all {
                kept
            } else {
                insert_all(kept, self.directory_entries)
            },
            all_selected: !all,
            ..self
        }
    }

    /// Showing `text` in the footer for the next `MESSAGE_TICKS` ticks.
    pub open spec fn notify(self, text: Seq<char>) -> Self {
        AppView { footer_message: Some(text), message_counter: MESSAGE_TICKS as nat, ..self }
    }

    /// One tick: the footer message loses one of its ticks and goes with the
    /// last.
    pub open spec fn tick(self) -> Self {
        if self.message_counter > 0 {
            AppView {
                message_counter: (self.message_counter - 1) as nat,
                footer_message: if self.message_counter == 1 {
                    None
                } else {
                    self.footer_message
                },
                ..self
            }
        } else {
            self
        }
    }

    /// Whether the collections cursor points at a collection.
    pub open spec fn has_selected_collection(self) -> bool {
        self.selected_collection_index < self.collections.len()
    }

    /// Deleting the collection under the cursor. The cursor stays where it
    /// is unless it would point past the end, and the cursor of its files
    /// goes back to the top.
    pub open spec fn remove_selected_collection(self) -> Self {
        if self.has_selected_collection() {
            let rest = self.collections.remove(self.selected_collection_index as int);
            AppView {
                collections: rest,
                selected_collection_index: clamp_index(self.selected_collection_index, rest.len()),
                selected_file_in_collection_index: 0,
                ..self
            }
        } else {
            self
        }
    }

    /// Whether the two collection cursors point at a file of a collection.
    pub open spec fn has_selected_member(self) -> bool {
        self.has_selected_collection() && self.selected_file_in_collection_index
            < self.member_count()
    }

    /// Taking the file under the cursor out of the collection under the
    /// cursor.
    pub open spec fn unselect_file_from_collection(self) -> Self {
        if self.has_selected_member() {
            let ci = self.selected_collection_index as int;
            let pruned = self.collections[ci].without_file(
                self.selected_file_in_collection_index as int,
            );
            AppView {
                collections: self.collections.update(ci, pruned),
                selected_file_in_collection_index: clamp_index(
                    self.selected_file_in_collection_index,
                    pruned.files.len(),
                ),
                ..self
            }
        } else {
            self
        }
    }

    /// Beginning to rename the collection under the cursor: the edit buffer
    /// starts as its name.
    pub open spec fn start_rename(self) -> Self {
        if self.has_selected_collection() {
            AppView {
                renaming_collection: true,
                new_collection_name: self.collections[self.selected_collection_index as int].name,
                ..self
            }
        } else {
            self
        }
    }

    /// Whether confirming would rename a collection.
    pub open spec fn can_confirm_rename(self) -> bool {
        self.renaming_collection && self.has_selected_collection()
    }

    /// Confirming: the collection under the cursor takes the edit buffer as
    /// its name, and renaming is over.
    pub open spec fn confirm_rename(self) -> Self {
        if self.can_confirm_rename() {
            let ci = self.selected_collection_index as int;
            AppView {
                collections: self.collections.update(
                    ci,
                    self.collections[ci].renamed(self.new_collection_name),
                ),
                renaming_collection: false,
                new_collection_name: Seq::empty(),
                ..self
            }.notify("Collection renamed!"@)
        } else {
            self
        }
    }

    /// Cancelling: renaming is over and no name has changed.
    pub open spec fn cancel_rename(self) -> Self {
        if self.renaming_collection {
            AppView {
                renaming_collection: false,
                new_collection_name: Seq::empty(),
                ..self
            }.notify("Rename canceled."@)
        } else {
            self
        }
    }

    /// Typing `c` while renaming.
    pub open spec fn rename_insert(self, c: char) -> Self {
        if self.renaming_collection {
            AppView { new_collection_name: self.new_collection_name.push(c), ..self }
        } else {
            self
        }
    }

    /// Deleting the last character typed while renaming.
    pub open spec fn rename_backspace(self) -> Self {
        if self.renaming_collection && self.new_collection_name.len() > 0 {
            AppView { new_collection_name: self.new_collection_name.drop_last(), ..self }
        } else {
            self
        }
    }

    /// After the selection was exported as `files` at `now`: a collection of
    /// them exists, nothing is selected, and the footer says so.
    pub open spec fn record_export(self, files: Seq<Seq<char>>, now: Timestamp) -> Self {
        AppView {
            collections: self.collections.push(
                CollectionView::created(default_name(self.collections.len()), files, now),
            ),
            selected_items: Seq::empty(),
            all_selected: false,
            ..self
        }.notify("Copied to clipboard!"@)
    }

    /// After the collection under the cursor was exported: the footer says
    /// so.
    pub open spec fn record_collection_export(self) -> Self {
        if self.collections.len() > 0 {
            self.notify("Collection copied to clipboard!"@)
        } else {
            self
        }
    }

    /// Giving the keyboard to `pane`.
    pub open spec fn focus(self, pane: FocusedPane) -> Self {
        AppView { focused_pane: pane, ..self }
    }

    /// Showing or hiding the help screen.
    pub open spec fn set_help(self, shown: bool) -> Self {
        AppView { show_help: shown, ..self }
    }
}

} // verus!
