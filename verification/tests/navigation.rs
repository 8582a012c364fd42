use pray::app::App;
use pray::outcome::{Error, Probe};

fn paths(items: &[&str]) -> Vec<String> {
    items.iter().map(|s| s.to_string()).collect()
}

fn session() -> App {
    App::new("/home/u".to_string(), paths(&["/home/u/src", "/home/u/Cargo.toml", "/home/u/docs"]), Vec::new())
}

#[test]
fn new_session_lists_sorted_and_starts_at_the_top() {
    let app = session();
    assert_eq!(app.current_dir(), "/home/u");
    assert_eq!(app.base_dir(), "/home/u");
    assert_eq!(app.directory_entries(), &paths(&["/home/u/Cargo.toml", "/home/u/docs", "/home/u/src"]));
    assert_eq!(app.selected_file_index(), 0);
    assert_eq!(app.selected_collection_index(), 0);
    assert_eq!(app.selected_file_in_collection_index(), 0);
    assert_eq!(app.navigation_depth(), 0);
    assert!(app.selected_items().is_empty());
    assert!(app.collections().is_empty());
    assert_eq!(app.footer_message(), &None);
    assert_eq!(app.message_counter(), 0);
    assert!(!app.all_selected());
    assert!(!app.show_help());
    assert!(!app.renaming_collection());
    assert_eq!(app.new_collection_name(), "");
}

#[test]
fn listing_order_is_that_of_strings() {
    let mut raw = paths(&["/d/b", "/d/a/x", "/d/a", "/d/é", "/d/z", "/d/a-b", "/d/a.b", "/d/B", "/d/", "/d/a"]);
    let app = App::new("/d".to_string(), raw.clone(), Vec::new());
    raw.sort();
    assert_eq!(app.directory_entries(), &raw);
}

#[test]
fn cursor_stops_at_both_ends() {
    let mut app = session();
    app.move_cursor(-1);
    assert_eq!(app.selected_file_index(), 0);
    app.move_cursor(1);
    assert_eq!(app.selected_file_index(), 1);
    app.move_cursor(1);
    app.move_cursor(1);
    app.move_cursor(1);
    assert_eq!(app.selected_file_index(), 2);
    app.move_cursor(-2);
    assert_eq!(app.selected_file_index(), 0);
    app.move_cursor(i64::MAX);
    assert_eq!(app.selected_file_index(), 2);
    app.move_cursor(i64::MIN);
    assert_eq!(app.selected_file_index(), 0);
}

#[test]
fn cursor_does_not_move_in_an_empty_listing() {
    let mut app = App::new("/e".to_string(), Vec::new(), Vec::new());
    app.move_cursor(1);
    assert_eq!(app.selected_file_index(), 0);
    app.move_cursor(-1);
    assert_eq!(app.selected_file_index(), 0);
    assert_eq!(app.entry_under_cursor(), None);
}

#[test]
fn entering_a_directory_remembers_the_place_left() {
    let mut app = session();
    app.move_cursor(1);
    assert_eq!(app.entry_under_cursor(), Some(&"/home/u/docs".to_string()));
    let r = app.enter_directory(Probe::Directory(paths(&["/home/u/docs/b.md", "/home/u/docs/a.md"])));
    assert_eq!(r, Ok(()));
    assert_eq!(app.current_dir(), "/home/u/docs");
    assert_eq!(app.directory_entries(), &paths(&["/home/u/docs/a.md", "/home/u/docs/b.md"]));
    assert_eq!(app.selected_file_index(), 0);
    assert_eq!(app.navigation_depth(), 1);
    assert_eq!(app.back_target(), Some(&"/home/u".to_string()));
    assert_eq!(app.base_dir(), "/home/u");
}

#[test]
fn entering_what_is_no_directory_does_nothing() {
    let mut app = session();
    assert_eq!(app.enter_directory(Probe::File), Ok(()));
    assert_eq!(app.enter_directory(Probe::Other), Ok(()));
    assert_eq!(app.current_dir(), "/home/u");
    assert_eq!(app.navigation_depth(), 0);
    assert_eq!(app.directory_entries().len(), 3);
}

#[test]
fn entering_an_unreadable_directory_is_an_error_and_changes_nothing() {
    let mut app = session();
    app.move_cursor(2);
    assert_eq!(app.enter_directory(Probe::Unreadable), Err(Error::DirectoryUnreadable));
    assert_eq!(app.current_dir(), "/home/u");
    assert_eq!(app.selected_file_index(), 2);
    assert_eq!(app.navigation_depth(), 0);
    assert_eq!(app.directory_entries().len(), 3);
}

#[test]
fn entering_from_an_empty_listing_does_nothing() {
    let mut app = App::new("/e".to_string(), Vec::new(), Vec::new());
    assert_eq!(app.enter_directory(Probe::Directory(paths(&["/e/x"]))), Ok(()));
    assert_eq!(app.enter_directory(Probe::Unreadable), Ok(()));
    assert_eq!(app.current_dir(), "/e");
    assert_eq!(app.navigation_depth(), 0);
    assert!(app.directory_entries().is_empty());
}

#[test]
fn going_back_without_a_descent_does_nothing() {
    let mut app = session();
    app.move_cursor(1);
    assert_eq!(app.back_target(), None);
    assert_eq!(app.go_back(Probe::Directory(paths(&["/x"]))), Ok(()));
    assert_eq!(app.go_back(Probe::Unreadable), Ok(()));
    assert_eq!(app.current_dir(), "/home/u");
    assert_eq!(app.selected_file_index(), 1);
    assert_eq!(app.directory_entries().len(), 3);
}

#[test]
fn going_back_restores_directory_and_cursor() {
    let mut app = session();
    app.move_cursor(2);
    app.enter_directory(Probe::Directory(paths(&["/home/u/src/main.rs"]))).unwrap();
    let r = app.go_back(Probe::Directory(paths(&["/home/u/src", "/home/u/docs", "/home/u/Cargo.toml", "/home/u/new"])));
    assert_eq!(r, Ok(()));
    assert_eq!(app.current_dir(), "/home/u");
    assert_eq!(app.selected_file_index(), 2);
    assert_eq!(app.navigation_depth(), 0);
    assert_eq!(
        app.directory_entries(),
        &paths(&["/home/u/Cargo.toml", "/home/u/docs", "/home/u/new", "/home/u/src"])
    );
}

#[test]
fn going_back_to_a_shrunk_directory_clamps_the_cursor() {
    let mut app = session();
    app.move_cursor(2);
    app.enter_directory(Probe::Directory(Vec::new())).unwrap();
    app.go_back(Probe::Directory(paths(&["/home/u/src"]))).unwrap();
    assert_eq!(app.selected_file_index(), 0);

    let mut app = session();
    app.move_cursor(2);
    app.enter_directory(Probe::Directory(Vec::new())).unwrap();
    app.go_back(Probe::Directory(paths(&["/home/u/src", "/home/u/docs"]))).unwrap();
    assert_eq!(app.selected_file_index(), 1);

    let mut app = session();
    app.move_cursor(2);
    app.enter_directory(Probe::Directory(Vec::new())).unwrap();
    app.go_back(Probe::Directory(Vec::new())).unwrap();
    assert_eq!(app.selected_file_index(), 0);
    assert!(app.directory_entries().is_empty());
}

#[test]
fn going_back_to_what_cannot_be_listed_is_an_error_and_changes_nothing() {
    let mut app = session();
    app.move_cursor(1);
    app.enter_directory(Probe::Directory(paths(&["/home/u/docs/a.md"]))).unwrap();
    assert_eq!(app.go_back(Probe::Unreadable), Err(Error::DirectoryUnreadable));
    assert_eq!(app.go_back(Probe::Other), Err(Error::DirectoryUnreadable));
    assert_eq!(app.go_back(Probe::File), Err(Error::DirectoryUnreadable));
    assert_eq!(app.current_dir(), "/home/u/docs");
    assert_eq!(app.navigation_depth(), 1);
    assert_eq!(app.directory_entries(), &paths(&["/home/u/docs/a.md"]));
}

#[test]
fn stack_depth_is_the_number_of_unmatched_descents() {
    let mut app = App::new("/r".to_string(), paths(&["/r/a"]), Vec::new());
    let mut expected = 0usize;
    // true: descend, false: ascend
    let steps = [true, true, false, true, true, true, false, false, false, false, false, true, false];
    for (i, down) in steps.iter().enumerate() {
        if *down {
            let here = app.current_dir().clone();
            let child = format!("{}/d{}", here, i);
            // the listing the directory entered turns out to have: one entry
            app.enter_directory(Probe::Directory(vec![format!("{}/a", child)])).unwrap();
            expected += 1;
        } else {
            let had = app.navigation_depth();
            let here = app.current_dir().clone();
            app.go_back(Probe::Directory(vec![here])).unwrap();
            if had > 0 {
                expected -= 1;
            }
        }
        assert_eq!(app.navigation_depth(), expected);
    }
    assert_eq!(app.navigation_depth(), 0);
}

#[test]
fn n_ascents_undo_n_descents() {
    for n in 0..6usize {
        let top = paths(&["/r/a", "/r/b", "/r/c"]);
        let mut app = App::new("/r".to_string(), top.clone(), Vec::new());
        app.move_cursor(1);
        let mut listings = vec![top];
        for level in 0..n {
            let dir = app.entry_under_cursor().unwrap().clone();
            let listing = vec![format!("{}/x{}", dir, level), format!("{}/y{}", dir, level)];
            app.enter_directory(Probe::Directory(listing.clone())).unwrap();
            listings.push(listing);
            app.move_cursor(1);
        }
        assert_eq!(app.navigation_depth(), n);
        for _ in 0..n {
            listings.pop();
            app.go_back(Probe::Directory(listings.last().unwrap().clone())).unwrap();
            assert_eq!(app.selected_file_index(), 1);
        }
        assert_eq!(app.current_dir(), "/r");
        assert_eq!(app.selected_file_index(), 1);
        assert_eq!(app.navigation_depth(), 0);
        assert_eq!(app.back_target(), None);
    }
}
