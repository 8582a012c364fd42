use pray::app::{App, Collection};
use pray::model::Timestamp;
use pray::model::{FocusedPane, MESSAGE_TICKS};
use pray::outcome::Error;

fn paths(items: &[&str]) -> Vec<String> {
    items.iter().map(|s| s.to_string()).collect()
}

fn at(seconds: i64) -> Timestamp {
    Timestamp { seconds, nanos: 0 }
}

fn stored(name: &str, files: &[&str]) -> Collection {
    Collection::new(name.to_string(), paths(files), at(1_700_000_000))
}

fn session(collections: Vec<Collection>) -> App {
    App::new("/w".to_string(), paths(&["/w/a", "/w/b"]), collections)
}

fn three() -> App {
    session(vec![
        stored("one", &["/w/a"]),
        stored("two", &["/w/a", "/w/b", "/w/c"]),
        stored("three", &[]),
    ])
}

fn names(app: &App) -> Vec<String> {
    app.collections().iter().map(|c| c.name().clone()).collect()
}

#[test]
fn a_collection_counts_its_files() {
    let c = stored("c", &["/w/a", "/w/b"]);
    assert_eq!(c.name(), "c");
    assert_eq!(c.files(), &paths(&["/w/a", "/w/b"]));
    assert_eq!(c.num_files(), 2);
    assert_eq!(c.timestamp(), at(1_700_000_000));
}

#[test]
fn removing_a_file_from_a_collection_keeps_the_count() {
    let mut c = stored("c", &["/w/a", "/w/b", "/w/c"]);
    assert_eq!(c.remove_file(1), Some("/w/b".to_string()));
    assert_eq!(c.files(), &paths(&["/w/a", "/w/c"]));
    assert_eq!(c.num_files(), 2);
    assert_eq!(c.remove_file(2), None);
    assert_eq!(c.num_files(), 2);
    c.rename("d".to_string());
    assert_eq!(c.name(), "d");
    assert_eq!(c.files(), &paths(&["/w/a", "/w/c"]));
}

#[test]
fn export_creates_a_collection_and_clears_the_selection() {
    let mut app = session(Vec::new());
    app.toggle_select_all();
    let r = app.copy_selected_items_to_clipboard(paths(&["/w/a", "/w/b"]), true);
    assert_eq!(r, Ok(()));
    assert_eq!(app.collections().len(), 1);
    let c = &app.collections()[0];
    assert_eq!(c.name(), "Collection 1");
    assert_eq!(c.files(), &paths(&["/w/a", "/w/b"]));
    assert_eq!(c.num_files(), 2);
    assert!(app.selected_items().is_empty());
    assert!(!app.all_selected());
    assert_eq!(app.footer_message(), &Some("Copied to clipboard!".to_string()));
    assert_eq!(app.message_counter(), MESSAGE_TICKS);
    assert_eq!(app.message_counter(), 5);
}

#[test]
fn export_stamps_the_collection_with_the_time_of_the_call() {
    let mut app = session(Vec::new());
    app.copy_selected_items_to_clipboard(Vec::new(), true).unwrap();
    let t = app.collections()[0].timestamp();
    assert!(t.seconds > 1_500_000_000);
    assert!(t.nanos < 2_000_000_000);
}

#[test]
fn record_export_takes_the_time_it_is_given() {
    let mut app = session(Vec::new());
    app.record_export(paths(&["/w/a"]), Timestamp { seconds: 12, nanos: 34 });
    assert_eq!(app.collections()[0].timestamp(), Timestamp { seconds: 12, nanos: 34 });
    assert_eq!(app.collections()[0].name(), "Collection 1");
}

#[test]
fn default_names_count_the_collections_that_exist() {
    let mut app = three();
    app.record_export(Vec::new(), at(0));
    assert_eq!(app.collections()[3].name(), "Collection 4");
    for _ in 0..6 {
        app.record_export(Vec::new(), at(0));
    }
    assert_eq!(app.collections()[9].name(), "Collection 10");
    assert_eq!(app.collections().len(), 10);
    app.focus(FocusedPane::CollectionsPane);
    app.remove_selected_collection();
    app.record_export(Vec::new(), at(0));
    assert_eq!(app.collections()[9].name(), "Collection 10");
    for _ in 0..91 {
        app.record_export(Vec::new(), at(0));
    }
    assert_eq!(app.collections()[100].name(), "Collection 101");
}

#[test]
fn failed_clipboard_leaves_everything_as_it_was() {
    let mut app = session(Vec::new());
    app.toggle_select_all();
    let r = app.copy_selected_items_to_clipboard(paths(&["/w/a", "/w/b"]), false);
    assert_eq!(r, Err(Error::ClipboardUnavailable));
    assert!(app.collections().is_empty());
    assert_eq!(app.selected_items(), &paths(&["/w/a", "/w/b"]));
    assert!(app.all_selected());
    assert_eq!(app.footer_message(), &None);
}

#[test]
fn exporting_a_collection_only_leaves_a_message() {
    let mut app = three();
    app.toggle_selection();
    assert_eq!(app.copy_selected_collection_to_clipboard(true), Ok(()));
    assert_eq!(app.footer_message(), &Some("Collection copied to clipboard!".to_string()));
    assert_eq!(app.message_counter(), 5);
    assert_eq!(app.collections().len(), 3);
    assert_eq!(app.selected_items(), &paths(&["/w/a"]));
}

#[test]
fn exporting_a_collection_fails_with_the_clipboard() {
    let mut app = three();
    assert_eq!(app.copy_selected_collection_to_clipboard(false), Err(Error::ClipboardUnavailable));
    assert_eq!(app.footer_message(), &None);
}

#[test]
fn exporting_from_an_empty_store_does_nothing() {
    let mut app = session(Vec::new());
    assert_eq!(app.copy_selected_collection_to_clipboard(true), Ok(()));
    assert_eq!(app.copy_selected_collection_to_clipboard(false), Ok(()));
    assert_eq!(app.footer_message(), &None);
    assert_eq!(app.selected_collection().map(|c| c.name().clone()), None);
}

#[test]
fn message_goes_after_five_ticks() {
    let mut app = three();
    app.copy_selected_collection_to_clipboard(true).unwrap();
    for left in [4u8, 3, 2, 1] {
        app.decrement_message_counter();
        assert_eq!(app.message_counter(), left);
        assert!(app.footer_message().is_some());
    }
    app.decrement_message_counter();
    assert_eq!(app.message_counter(), 0);
    assert_eq!(app.footer_message(), &None);
    app.decrement_message_counter();
    assert_eq!(app.message_counter(), 0);
    assert_eq!(app.footer_message(), &None);
}

#[test]
fn a_new_message_starts_the_count_again() {
    let mut app = three();
    app.copy_selected_collection_to_clipboard(true).unwrap();
    app.decrement_message_counter();
    app.decrement_message_counter();
    app.record_export(Vec::new(), at(0));
    assert_eq!(app.message_counter(), 5);
    assert_eq!(app.footer_message(), &Some("Copied to clipboard!".to_string()));
}

#[test]
fn removing_from_an_empty_store_does_nothing() {
    let mut app = session(Vec::new());
    assert!(!app.remove_selected_collection());
    assert!(!app.unselect_file_from_collection());
    assert_eq!(app.selected_collection_index(), 0);
    assert_eq!(app.selected_file_in_collection_index(), 0);
}

#[test]
fn removing_the_last_collection_moves_the_cursor_up() {
    let mut app = three();
    app.focus(FocusedPane::CollectionsPane);
    app.move_cursor(2);
    assert_eq!(app.selected_collection_index(), 2);
    assert!(app.remove_selected_collection());
    assert_eq!(app.selected_collection_index(), 1);
    assert_eq!(names(&app), paths(&["one", "two"]));
    assert!(app.remove_selected_collection());
    assert_eq!(app.selected_collection_index(), 0);
    assert!(app.remove_selected_collection());
    assert_eq!(app.selected_collection_index(), 0);
    assert!(app.collections().is_empty());
    assert!(!app.remove_selected_collection());
    assert_eq!(app.selected_collection_index(), 0);
}

#[test]
fn removing_a_collection_in_the_middle_keeps_the_cursor() {
    let mut app = three();
    app.focus(FocusedPane::CollectionsPane);
    app.move_cursor(1);
    assert!(app.remove_selected_collection());
    assert_eq!(app.selected_collection_index(), 1);
    assert_eq!(names(&app), paths(&["one", "three"]));
    assert_eq!(app.selected_collection().map(|c| c.name().clone()), Some("three".to_string()));
}

#[test]
fn removing_a_collection_resets_the_cursor_of_its_files() {
    let mut app = three();
    app.focus(FocusedPane::CollectionsPane);
    app.move_cursor(1);
    app.focus(FocusedPane::SelectedFilesPane);
    app.move_cursor(2);
    assert_eq!(app.selected_file_in_collection_index(), 2);
    assert!(app.remove_selected_collection());
    assert_eq!(app.selected_file_in_collection_index(), 0);
}

#[test]
fn moving_to_another_collection_resets_the_cursor_of_its_files() {
    let mut app = three();
    app.focus(FocusedPane::CollectionsPane);
    app.move_cursor(1);
    app.focus(FocusedPane::SelectedFilesPane);
    app.move_cursor(1);
    assert_eq!(app.selected_file_in_collection_index(), 1);
    assert_eq!(app.member_count(), 3);
    app.focus(FocusedPane::CollectionsPane);
    app.move_cursor(1);
    assert_eq!(app.selected_collection_index(), 2);
    assert_eq!(app.selected_file_in_collection_index(), 0);
    app.focus(FocusedPane::SelectedFilesPane);
    app.move_cursor(1);
    assert_eq!(app.selected_file_in_collection_index(), 0);
}

#[test]
fn staying_on_the_same_collection_keeps_the_cursor_of_its_files() {
    let mut app = session(vec![stored("big", &["/w/a", "/w/b", "/w/c"]), stored("none", &[])]);
    app.focus(FocusedPane::SelectedFilesPane);
    app.move_cursor(2);
    assert_eq!(app.selected_file_in_collection_index(), 2);
    app.focus(FocusedPane::CollectionsPane);
    app.move_cursor(-1);
    assert_eq!(app.selected_collection_index(), 0);
    assert_eq!(app.selected_file_in_collection_index(), 2);
    app.move_cursor(1);
    assert_eq!(app.selected_collection_index(), 1);
    assert_eq!(app.selected_file_in_collection_index(), 0);
}

#[test]
fn unselecting_files_keeps_count_and_cursor_in_range() {
    let mut app = three();
    app.focus(FocusedPane::CollectionsPane);
    app.move_cursor(1);
    app.focus(FocusedPane::SelectedFilesPane);
    app.move_cursor(2);
    assert!(app.unselect_file_from_collection());
    {
        let c = app.selected_collection().unwrap();
        assert_eq!(c.files(), &paths(&["/w/a", "/w/b"]));
        assert_eq!(c.num_files(), 2);
    }
    assert_eq!(app.selected_file_in_collection_index(), 1);
    app.move_cursor(-1);
    assert!(app.unselect_file_from_collection());
    {
        let c = app.selected_collection().unwrap();
        assert_eq!(c.files(), &paths(&["/w/b"]));
        assert_eq!(c.num_files(), 1);
    }
    assert_eq!(app.selected_file_in_collection_index(), 0);
    assert!(app.unselect_file_from_collection());
    assert_eq!(app.selected_collection().unwrap().num_files(), 0);
    assert_eq!(app.selected_file_in_collection_index(), 0);
    assert!(!app.unselect_file_from_collection());
    assert_eq!(app.collections().len(), 3);
    assert_eq!(app.collections()[0].num_files(), 1);
}

#[test]
fn cancelled_rename_changes_no_name() {
    let mut app = three();
    app.start_rename();
    assert!(app.renaming_collection());
    assert_eq!(app.new_collection_name(), "one");
    app.rename_insert('x');
    app.rename_backspace();
    app.rename_backspace();
    assert_eq!(app.new_collection_name(), "on");
    app.cancel_rename();
    assert!(!app.renaming_collection());
    assert_eq!(app.new_collection_name(), "");
    assert_eq!(names(&app), paths(&["one", "two", "three"]));
    assert_eq!(app.footer_message(), &Some("Rename canceled.".to_string()));
    assert_eq!(app.message_counter(), 5);
}

#[test]
fn confirmed_rename_takes_the_name_as_edited() {
    let mut app = three();
    app.focus(FocusedPane::CollectionsPane);
    app.move_cursor(1);
    app.start_rename();
    assert_eq!(app.new_collection_name(), "two");
    for _ in 0..5 {
        app.rename_backspace();
    }
    assert_eq!(app.new_collection_name(), "");
    for c in "notes é".chars() {
        app.rename_insert(c);
    }
    app.rename_insert('!');
    app.rename_backspace();
    assert!(app.confirm_rename());
    assert!(!app.renaming_collection());
    assert_eq!(app.new_collection_name(), "");
    assert_eq!(names(&app), paths(&["one", "notes é", "three"]));
    assert_eq!(app.collections()[1].files(), &paths(&["/w/a", "/w/b", "/w/c"]));
    assert_eq!(app.footer_message(), &Some("Collection renamed!".to_string()));
    assert_eq!(app.message_counter(), 5);
}

#[test]
fn rename_needs_a_collection() {
    let mut app = session(Vec::new());
    app.start_rename();
    assert!(!app.renaming_collection());
    assert!(!app.confirm_rename());
    app.cancel_rename();
    assert_eq!(app.footer_message(), &None);
}

#[test]
fn editing_outside_renaming_does_nothing() {
    let mut app = three();
    app.rename_insert('x');
    app.rename_backspace();
    assert_eq!(app.new_collection_name(), "");
    assert!(!app.confirm_rename());
    assert_eq!(names(&app), paths(&["one", "two", "three"]));
    assert_eq!(app.footer_message(), &None);
}

#[test]
fn notify_shows_a_message_for_five_ticks() {
    let mut app = session(Vec::new());
    app.notify("first");
    app.decrement_message_counter();
    app.notify("second");
    assert_eq!(app.footer_message(), &Some("second".to_string()));
    assert_eq!(app.message_counter(), 5);
    for _ in 0..4 {
        app.decrement_message_counter();
    }
    assert_eq!(app.footer_message(), &Some("second".to_string()));
    app.decrement_message_counter();
    assert_eq!(app.footer_message(), &None);
}
