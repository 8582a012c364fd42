//! Keys and commands: which command a key stands for in each mode, and
//! what is left for the caller to do once a command has been applied.

use crate::app::App;
use crate::model::{AppView, FocusedPane};
use vstd::prelude::*;

verus! {

/// A key, as far as the browser tells keys apart.
#[derive(Clone, Copy, Debug, PartialEq, Eq, Structural)]
pub enum Key {
    Char(char),
    Backspace,
    Enter,
    Esc,
    Up,
    Down,
    Other,
}

/// A command of the browser.
#[derive(Clone, Copy, Debug, PartialEq, Eq, Structural)]
pub enum Command {
    /// The key stands for nothing in this mode.
    Ignore,
    Quit,
    OpenHelp,
    CloseHelp,
    Focus(FocusedPane),
    CursorDown,
    CursorUp,
    EnterDirectory,
    GoBack,
    ToggleSelection,
    ToggleSelectAll,
    CopySelection,
    RemoveCollection,
    CopyCollection,
    StartRename,
    RenameInsert(char),
    RenameBackspace,
    ConfirmRename,
    CancelRename,
    UnselectFile,
}

/// What is left for the caller to do after a command.
#[derive(Clone, Copy, Debug, PartialEq, Eq, Structural)]
pub enum Action {
    /// Nothing.
    Nothing,
    /// End the session.
    Quit,
    /// The store changed: write it.
    Persist,
    /// Look at the entry under the cursor and call `enter_directory`.
    EnterDirectory,
    /// Look at the directory to go back to and call `go_back`.
    GoBack,
    /// Expand the selection, read the files, write the clipboard and call
    /// `copy_selected_items_to_clipboard`.
    CopySelection,
    /// Read the files of the collection under the cursor, write the
    /// clipboard and call `copy_selected_collection_to_clipboard`.
    CopyCollection,
}

/// The command that `key` stands for in the files pane.
pub open spec fn files_pane_command(key: Key) -> Command {
    if key == Key::Char('j') || key == Key::Down {
        Command::CursorDown
    } else if key == Key::Char('k') || key == Key::Up {
        Command::CursorUp
    } else if key == Key::Char('h') {
        Command::GoBack
    } else if key == Key::Char('l') || key == Key::Enter {
        Command::EnterDirectory
    } else if key == Key::Char(' ') {
        Command::ToggleSelection
    } else if key == Key::Char('a') {
        Command::ToggleSelectAll
    } else if key == Key::Char('c') {
        Command::CopySelection
    } else {
        Command::Ignore
    }
}

/// The command that `key` stands for in the collections pane.
pub open spec fn collections_pane_command(key: Key) -> Command {
    if key == Key::Char('j') || key == Key::Down {
        Command::CursorDown
    } else if key == Key::Char('k') || key == Key::Up {
        Command::CursorUp
    } else if key == Key::Char('d') {
        Command::RemoveCollection
    } else if key == Key::Char('c') {
        Command::CopyCollection
    } else if key == Key::Char('r') {
        Command::StartRename
    } else {
        Command::Ignore
    }
}

/// The command that `key` stands for in the pane of a collection's files.
pub open spec fn selected_files_pane_command(key: Key) -> Command {
    if key == Key::Char('j') || key == Key::Down {
        Command::CursorDown
    } else if key == Key::Char('k') || key == Key::Up {
        Command::CursorUp
    } else if key == Key::Char(' ') {
        Command::UnselectFile
    } else {
        Command::Ignore
    }
}

/// The command that `key` stands for while a collection is renamed: keys
/// edit the name, confirm or cancel, and do nothing else.
pub open spec fn renaming_command(key: Key) -> Command {
    match key {
        Key::Char(c) => Command::RenameInsert(c),
        Key::Backspace => Command::RenameBackspace,
        Key::Enter => Command::ConfirmRename,
        Key::Esc => Command::CancelRename,
        _ => Command::Ignore,
    }
}

impl AppView {
    /// The command that `key` stands for in this state. While help is
    /// shown every key closes it; while a collection is renamed every key
    /// goes to the renaming; else a few keys mean the same in every pane
    /// and the others go to the focused pane.
    pub open spec fn command_for_key(self, key: Key) -> Command {
        if self.show_help {
            Command::CloseHelp
        } else if self.renaming_collection {
            renaming_command(key)
        } else if key == Key::Char('q') {
            Command::Quit
        } else if key == Key::Char('1') {
            Command::Focus(FocusedPane::FilesPane)
        } else if key == Key::Char('2') {
            Command::Focus(FocusedPane::CollectionsPane)
        } else if key == Key::Char('3') {
            Command::Focus(FocusedPane::SelectedFilesPane)
        } else if key == Key::Char('?') {
            Command::OpenHelp
        } else {
            match self.focused_pane {
                FocusedPane::FilesPane => files_pane_command(key),
                FocusedPane::CollectionsPane => collections_pane_command(key),
                FocusedPane::SelectedFilesPane => selected_files_pane_command(key),
            }
        }
    }

    /// The state after `command`, as far as the command needs nothing from
    /// outside; a command that does leaves the state as it is.
    pub open spec fn after(self, command: Command) -> AppView {
        match command {
            Command::OpenHelp => self.set_help(true),
            Command::CloseHelp => self.set_help(false),
            Command::Focus(pane) => self.focus(pane),
            Command::CursorDown => self.move_cursor(1),
            Command::CursorUp => self.move_cursor(-1),
            Command::ToggleSelection => self.toggle_selection(),
            Command::ToggleSelectAll => self.toggle_select_all(),
            Command::RemoveCollection => self.remove_selected_collection(),
            Command::StartRename => self.start_rename(),
            Command::RenameInsert(c) => self.rename_insert(c),
            Command::RenameBackspace => self.rename_backspace(),
            Command::ConfirmRename => self.confirm_rename(),
            Command::CancelRename => self.cancel_rename(),
            Command::UnselectFile => self.unselect_file_from_collection(),
            _ => self,
        }
    }

    /// What `command` leaves for the caller to do in this state.
    pub open spec fn action_of(self, command: Command) -> Action {
        match command {
            Command::Quit => Action::Quit,
            Command::EnterDirectory => if self.entry_under_cursor() is Some {
                Action::EnterDirectory
            } else {
                Action::Nothing
            },
            Command::GoBack => if self.back_target() is Some {
                Action::GoBack
            } else {
                Action::Nothing
            },
            Command::CopySelection => Action::CopySelection,
            Command::CopyCollection => if self.collections.len() > 0 {
                Action::CopyCollection
            } else {
                Action::Nothing
            },
            Command::RemoveCollection => if self.has_selected_collection() {
                Action::Persist
            } else {
                Action::Nothing
            },
            Command::UnselectFile => if self.has_selected_member() {
                Action::Persist
            } else {
                Action::Nothing
            },
            Command::ConfirmRename => if self.can_confirm_rename() {
                Action::Persist
            } else {
                Action::Nothing
            },
            _ => Action::Nothing,
        }
    }
}

/// Whether `key` is the character `c`.
fn is_char(key: Key, c: char) -> (r: bool)
    ensures
        r == (key == Key::Char(c)),
{
    match key {
        Key::Char(k) => k == c,
        _ => false,
    }
}

fn is_down(key: Key) -> (r: bool)
    ensures
        r == (key == Key::Char('j') || key == Key::Down),
{
    match key {
        Key::Char(k) => k == 'j',
        Key::Down => true,
        _ => false,
    }
}

fn is_up(key: Key) -> (r: bool)
    ensures
        r == (key == Key::Char('k') || key == Key::Up),
{
    match key {
        Key::Char(k) => k == 'k',
        Key::Up => true,
        _ => false,
    }
}

fn files_pane_key(key: Key) -> (command: Command)
    ensures
        command == files_pane_command(key),
{
    if is_down(key) {
        Command::CursorDown
    } else if is_up(key) {
        Command::CursorUp
    } else if is_char(key, 'h') {
        Command::GoBack
    } else if is_char(key, 'l') || matches!(key, Key::Enter) {
        Command::EnterDirectory
    } else if is_char(key, ' ') {
        Command::ToggleSelection
    } else if is_char(key, 'a') {
        Command::ToggleSelectAll
    } else if is_char(key, 'c') {
        Command::CopySelection
    } else {
        Command::Ignore
    }
}

fn collections_pane_key(key: Key) -> (command: Command)
    ensures
        command == collections_pane_command(key),
{
    if is_down(key) {
        Command::CursorDown
    } else if is_up(key) {
        Command::CursorUp
    } else if is_char(key, 'd') {
        Command::RemoveCollection
    } else if is_char(key, 'c') {
        Command::CopyCollection
    } else if is_char(key, 'r') {
        Command::StartRename
    } else {
        Command::Ignore
    }
}

fn selected_files_pane_key(key: Key) -> (command: Command)
    ensures
        command == selected_files_pane_command(key),
{
    if is_down(key) {
        Command::CursorDown
    } else if is_up(key) {
        Command::CursorUp
    } else if is_char(key, ' ') {
        Command::UnselectFile
    } else {
        Command::Ignore
    }
}

fn renaming_key(key: Key) -> (command: Command)
    ensures
        command == renaming_command(key),
{
    match key {
        Key::Char(c) => Command::RenameInsert(c),
        Key::Backspace => Command::RenameBackspace,
        Key::Enter => Command::ConfirmRename,
        Key::Esc => Command::CancelRename,
        _ => Command::Ignore,
    }
}

impl App {
    /// The command that `key` stands for in the present mode and pane.
    pub fn command_for_key(&self, key: Key) -> (command: Command)
        ensures
            command == self@.command_for_key(key),
    {
        if self.show_help() {
            Command::CloseHelp
        } else if self.renaming_collection() {
            renaming_key(key)
        } else if is_char(key, 'q') {
            Command::Quit
        } else if is_char(key, '1') {
            Command::Focus(FocusedPane::FilesPane)
        } else if is_char(key, '2') {
            Command::Focus(FocusedPane::CollectionsPane)
        } else if is_char(key, '3') {
            Command::Focus(FocusedPane::SelectedFilesPane)
        } else if is_char(key, '?') {
            Command::OpenHelp
        } else {
            match self.focused_pane() {
                FocusedPane::FilesPane => files_pane_key(key),
                FocusedPane::CollectionsPane => collections_pane_key(key),
                FocusedPane::SelectedFilesPane => selected_files_pane_key(key),
            }
        }
    }

    /// Applies `command` as far as it needs nothing from outside, and says
    /// what is left for the caller to do.
    pub fn apply(&mut self, command: Command) -> (action: Action)
        requires
            old(self).wf(),
        ensures
            final(self).wf(),
            final(self)@ == old(self)@.after(command),
            action == old(self)@.action_of(command),
    {
        match command {
            Command::Ignore => Action::Nothing,
            Command::Quit => Action::Quit,
            Command::OpenHelp => {
                self.open_help();
                Action::Nothing
            },
            Command::CloseHelp => {
                self.close_help();
                Action::Nothing
            },
            Command::Focus(pane) => {
                self.focus(pane);
                Action::Nothing
            },
            Command::CursorDown => {
                self.move_cursor(1);
                Action::Nothing
            },
            Command::CursorUp => {
                self.move_cursor(-1);
                Action::Nothing
            },
            Command::EnterDirectory => {
                if self.entry_under_cursor().is_some() {
                    Action::EnterDirectory
                } else {
                    Action::Nothing
                }
            },
            Command::GoBack => {
                if self.back_target().is_some() {
                    Action::GoBack
                } else {
                    Action::Nothing
                }
            },
            Command::ToggleSelection => {
                self.toggle_selection();
                Action::Nothing
            },
            Command::ToggleSelectAll => {
                self.toggle_select_all();
                Action::Nothing
            },
            Command::CopySelection => Action::CopySelection,
            Command::RemoveCollection => {
                if self.remove_selected_collection() {
                    Action::Persist
                } else {
                    Action::Nothing
                }
            },
            Command::CopyCollection => {
                if self.collections().len() > 0 {
                    Action::CopyCollection
                } else {
                    Action::Nothing
                }
            },
            Command::StartRename => {
                self.start_rename();
                Action::Nothing
            },
            Command::RenameInsert(c) => {
                self.rename_insert(c);
                Action::Nothing
            },
            Command::RenameBackspace => {
                self.rename_backspace();
                Action::Nothing
            },
            Command::ConfirmRename => {
                if self.confirm_rename() {
                    Action::Persist
                } else {
                    Action::Nothing
                }
            },
            Command::CancelRename => {
                self.cancel_rename();
                Action::Nothing
            },
            Command::UnselectFile => {
                if self.unselect_file_from_collection() {
                    Action::Persist
                } else {
                    Action::Nothing
                }
            },
        }
    }

    /// Takes one key: finds the command it stands for, applies it, and says
    /// what is left for the caller to do.
    pub fn handle_key(&mut self, key: Key) -> (action: Action)
        requires
            old(self).wf(),
        ensures
            final(self).wf(),
            final(self)@ == old(self)@.after(old(self)@.command_for_key(key)),
            action == old(self)@.action_of(old(self)@.command_for_key(key)),
    {
        let command = self.command_for_key(key);
        self.apply(command)
    }
}

} // verus!
