use pray::app::{App, Collection, FocusedPane};
use pray::command::{Action, Command, Key};
use pray::model::Timestamp;

fn paths(items: &[&str]) -> Vec<String> {
    items.iter().map(|s| s.to_string()).collect()
}

fn stored(name: &str, files: &[&str]) -> Collection {
    Collection::new(name.to_string(), paths(files), Timestamp { seconds: 1, nanos: 2 })
}

fn session() -> App {
    App::new(
        "/w".to_string(),
        paths(&["/w/a", "/w/b", "/w/sub"]),
        vec![stored("one", &["/w/a", "/w/b"]), stored("two", &[])],
    )
}

#[test]
fn keys_of_the_files_pane() {
    let app = session();
    assert_eq!(app.focused_pane(), FocusedPane::FilesPane);
    assert_eq!(app.command_for_key(Key::Char('j')), Command::CursorDown);
    assert_eq!(app.command_for_key(Key::Down), Command::CursorDown);
    assert_eq!(app.command_for_key(Key::Char('k')), Command::CursorUp);
    assert_eq!(app.command_for_key(Key::Up), Command::CursorUp);
    assert_eq!(app.command_for_key(Key::Char('h')), Command::GoBack);
    assert_eq!(app.command_for_key(Key::Char('l')), Command::EnterDirectory);
    assert_eq!(app.command_for_key(Key::Enter), Command::EnterDirectory);
    assert_eq!(app.command_for_key(Key::Char(' ')), Command::ToggleSelection);
    assert_eq!(app.command_for_key(Key::Char('a')), Command::ToggleSelectAll);
    assert_eq!(app.command_for_key(Key::Char('c')), Command::CopySelection);
    assert_eq!(app.command_for_key(Key::Char('d')), Command::Ignore);
    assert_eq!(app.command_for_key(Key::Char('r')), Command::Ignore);
    assert_eq!(app.command_for_key(Key::Char('g')), Command::Ignore);
    assert_eq!(app.command_for_key(Key::Esc), Command::Ignore);
    assert_eq!(app.command_for_key(Key::Backspace), Command::Ignore);
    assert_eq!(app.command_for_key(Key::Other), Command::Ignore);
}

#[test]
fn keys_of_the_collections_pane() {
    let mut app = session();
    app.focus(FocusedPane::CollectionsPane);
    assert_eq!(app.command_for_key(Key::Char('j')), Command::CursorDown);
    assert_eq!(app.command_for_key(Key::Down), Command::CursorDown);
    assert_eq!(app.command_for_key(Key::Char('k')), Command::CursorUp);
    assert_eq!(app.command_for_key(Key::Up), Command::CursorUp);
    assert_eq!(app.command_for_key(Key::Char('d')), Command::RemoveCollection);
    assert_eq!(app.command_for_key(Key::Char('c')), Command::CopyCollection);
    assert_eq!(app.command_for_key(Key::Char('r')), Command::StartRename);
    assert_eq!(app.command_for_key(Key::Char(' ')), Command::Ignore);
    assert_eq!(app.command_for_key(Key::Char('h')), Command::Ignore);
    assert_eq!(app.command_for_key(Key::Enter), Command::Ignore);
}

#[test]
fn keys_of_the_selected_files_pane() {
    let mut app = session();
    app.focus(FocusedPane::SelectedFilesPane);
    assert_eq!(app.command_for_key(Key::Char('j')), Command::CursorDown);
    assert_eq!(app.command_for_key(Key::Down), Command::CursorDown);
    assert_eq!(app.command_for_key(Key::Char('k')), Command::CursorUp);
    assert_eq!(app.command_for_key(Key::Up), Command::CursorUp);
    assert_eq!(app.command_for_key(Key::Char(' ')), Command::UnselectFile);
    assert_eq!(app.command_for_key(Key::Char('d')), Command::Ignore);
    assert_eq!(app.command_for_key(Key::Char('c')), Command::Ignore);
}

#[test]
fn keys_that_mean_the_same_in_every_pane() {
    for pane in [FocusedPane::FilesPane, FocusedPane::CollectionsPane, FocusedPane::SelectedFilesPane] {
        let mut app = session();
        app.focus(pane);
        assert_eq!(app.command_for_key(Key::Char('q')), Command::Quit);
        assert_eq!(app.command_for_key(Key::Char('1')), Command::Focus(FocusedPane::FilesPane));
        assert_eq!(app.command_for_key(Key::Char('2')), Command::Focus(FocusedPane::CollectionsPane));
        assert_eq!(app.command_for_key(Key::Char('3')), Command::Focus(FocusedPane::SelectedFilesPane));
        assert_eq!(app.command_for_key(Key::Char('?')), Command::OpenHelp);
    }
}

#[test]
fn any_key_closes_help() {
    for key in [Key::Char('q'), Key::Char('j'), Key::Enter, Key::Esc, Key::Other, Key::Backspace] {
        let mut app = session();
        assert_eq!(app.handle_key(Key::Char('?')), Action::Nothing);
        assert!(app.show_help());
        assert_eq!(app.command_for_key(key), Command::CloseHelp);
        assert_eq!(app.handle_key(key), Action::Nothing);
        assert!(!app.show_help());
        assert_eq!(app.selected_file_index(), 0);
    }
}

#[test]
fn renaming_takes_every_key() {
    let mut app = session();
    app.handle_key(Key::Char('2'));
    assert_eq!(app.handle_key(Key::Char('r')), Action::Nothing);
    assert!(app.renaming_collection());
    assert_eq!(app.command_for_key(Key::Char('q')), Command::RenameInsert('q'));
    assert_eq!(app.command_for_key(Key::Char('?')), Command::RenameInsert('?'));
    assert_eq!(app.command_for_key(Key::Char('1')), Command::RenameInsert('1'));
    assert_eq!(app.command_for_key(Key::Backspace), Command::RenameBackspace);
    assert_eq!(app.command_for_key(Key::Enter), Command::ConfirmRename);
    assert_eq!(app.command_for_key(Key::Esc), Command::CancelRename);
    assert_eq!(app.command_for_key(Key::Up), Command::Ignore);
    assert_eq!(app.command_for_key(Key::Down), Command::Ignore);
    assert_eq!(app.command_for_key(Key::Other), Command::Ignore);
    assert_eq!(app.handle_key(Key::Char('q')), Action::Nothing);
    assert_eq!(app.handle_key(Key::Char('d')), Action::Nothing);
    assert_eq!(app.handle_key(Key::Down), Action::Nothing);
    assert_eq!(app.new_collection_name(), "oneqd");
    assert_eq!(app.collections().len(), 2);
    assert_eq!(app.selected_collection_index(), 0);
    assert_eq!(app.focused_pane(), FocusedPane::CollectionsPane);
}

#[test]
fn rename_by_keys_and_cancel_writes_nothing() {
    let mut app = session();
    let mut actions = vec![app.handle_key(Key::Char('2')), app.handle_key(Key::Char('r'))];
    actions.push(app.handle_key(Key::Char('x')));
    actions.push(app.handle_key(Key::Backspace));
    actions.push(app.handle_key(Key::Esc));
    assert!(actions.iter().all(|a| *a == Action::Nothing));
    assert_eq!(app.collections()[0].name(), "one");
    assert_eq!(app.collections()[1].name(), "two");
    assert!(!app.renaming_collection());
}

#[test]
fn rename_by_keys_and_confirm_asks_for_the_store_to_be_written() {
    let mut app = session();
    app.handle_key(Key::Char('2'));
    app.handle_key(Key::Char('j'));
    assert_eq!(app.handle_key(Key::Char('r')), Action::Nothing);
    assert_eq!(app.handle_key(Key::Backspace), Action::Nothing);
    assert_eq!(app.handle_key(Key::Char('i')), Action::Nothing);
    assert_eq!(app.handle_key(Key::Char('n')), Action::Nothing);
    assert_eq!(app.handle_key(Key::Enter), Action::Persist);
    assert_eq!(app.collections()[0].name(), "one");
    assert_eq!(app.collections()[1].name(), "twin");
    assert!(!app.renaming_collection());
    assert_eq!(app.handle_key(Key::Enter), Action::Nothing);
}

#[test]
fn keys_move_the_cursor_of_the_focused_pane() {
    let mut app = session();
    assert_eq!(app.handle_key(Key::Char('j')), Action::Nothing);
    assert_eq!(app.handle_key(Key::Down), Action::Nothing);
    assert_eq!(app.handle_key(Key::Down), Action::Nothing);
    assert_eq!(app.selected_file_index(), 2);
    assert_eq!(app.handle_key(Key::Char('k')), Action::Nothing);
    assert_eq!(app.selected_file_index(), 1);
    app.handle_key(Key::Char('3'));
    app.handle_key(Key::Char('j'));
    app.handle_key(Key::Char('j'));
    assert_eq!(app.selected_file_in_collection_index(), 1);
    assert_eq!(app.selected_file_index(), 1);
    app.handle_key(Key::Char('2'));
    app.handle_key(Key::Down);
    assert_eq!(app.selected_collection_index(), 1);
    assert_eq!(app.selected_file_in_collection_index(), 0);
    app.handle_key(Key::Up);
    app.handle_key(Key::Up);
    assert_eq!(app.selected_collection_index(), 0);
}

#[test]
fn keys_that_need_the_outside_leave_the_state_alone() {
    let mut app = session();
    assert_eq!(app.handle_key(Key::Char('l')), Action::EnterDirectory);
    assert_eq!(app.handle_key(Key::Enter), Action::EnterDirectory);
    assert_eq!(app.handle_key(Key::Char('h')), Action::Nothing);
    assert_eq!(app.handle_key(Key::Char('c')), Action::CopySelection);
    assert_eq!(app.handle_key(Key::Char('q')), Action::Quit);
    assert_eq!(app.current_dir(), "/w");
    assert_eq!(app.navigation_depth(), 0);
    assert_eq!(app.collections().len(), 2);
    app.handle_key(Key::Char('2'));
    assert_eq!(app.handle_key(Key::Char('c')), Action::CopyCollection);
    assert_eq!(app.footer_message(), &None);
}

#[test]
fn going_back_is_asked_for_only_after_a_descent() {
    let mut app = session();
    assert_eq!(app.apply(Command::GoBack), Action::Nothing);
    app.enter_directory(pray::outcome::Probe::Directory(Vec::new())).unwrap();
    assert_eq!(app.handle_key(Key::Char('h')), Action::GoBack);
    assert_eq!(app.handle_key(Key::Char('l')), Action::Nothing);
    assert_eq!(app.handle_key(Key::Enter), Action::Nothing);
}

#[test]
fn nothing_to_copy_or_delete_in_an_empty_store() {
    let mut app = App::new("/w".to_string(), Vec::new(), Vec::new());
    app.handle_key(Key::Char('2'));
    assert_eq!(app.handle_key(Key::Char('c')), Action::Nothing);
    assert_eq!(app.handle_key(Key::Char('d')), Action::Nothing);
    assert_eq!(app.handle_key(Key::Char('r')), Action::Nothing);
    assert!(!app.renaming_collection());
    app.handle_key(Key::Char('3'));
    assert_eq!(app.handle_key(Key::Char(' ')), Action::Nothing);
    assert_eq!(app.handle_key(Key::Char('j')), Action::Nothing);
    assert_eq!(app.selected_file_in_collection_index(), 0);
}

#[test]
fn keys_select_and_prune() {
    let mut app = session();
    assert_eq!(app.handle_key(Key::Char(' ')), Action::Nothing);
    assert_eq!(app.selected_items(), &paths(&["/w/a"]));
    assert_eq!(app.handle_key(Key::Char('a')), Action::Nothing);
    assert_eq!(app.selected_items().len(), 3);
    app.handle_key(Key::Char('3'));
    assert_eq!(app.handle_key(Key::Char(' ')), Action::Persist);
    assert_eq!(app.collections()[0].files(), &paths(&["/w/b"]));
    assert_eq!(app.handle_key(Key::Char(' ')), Action::Persist);
    assert_eq!(app.handle_key(Key::Char(' ')), Action::Nothing);
    app.handle_key(Key::Char('2'));
    assert_eq!(app.handle_key(Key::Char('d')), Action::Persist);
    assert_eq!(app.collections().len(), 1);
    assert_eq!(app.collections()[0].name(), "two");
    assert_eq!(app.selected_items().len(), 3);
}

#[test]
fn ignored_commands_change_nothing() {
    let mut app = session();
    app.move_cursor(1);
    assert_eq!(app.apply(Command::Ignore), Action::Nothing);
    assert_eq!(app.apply(Command::Quit), Action::Quit);
    assert_eq!(app.apply(Command::CopySelection), Action::CopySelection);
    assert_eq!(app.selected_file_index(), 1);
    assert_eq!(app.focused_pane(), FocusedPane::FilesPane);
    assert_eq!(app.apply(Command::Focus(FocusedPane::SelectedFilesPane)), Action::Nothing);
    assert_eq!(app.focused_pane(), FocusedPane::SelectedFilesPane);
    assert_eq!(app.apply(Command::OpenHelp), Action::Nothing);
    assert!(app.show_help());
    assert_eq!(app.apply(Command::CloseHelp), Action::Nothing);
    assert!(!app.show_help());
}
