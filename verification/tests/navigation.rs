use dua_nav::eventloop::{AppState, EventOutcome, FocussedPane, Key, TerminalApp, Traversal};
use dua_nav::sorting::{sorted_entries, SortMode};
use dua_nav::tree::{path_of, Tree};

/// Tree with root `r` (60) and children `a` (10), `b` (30), `c` (20).
fn sample_app() -> TerminalApp {
    let mut tree = Tree::new();
    let root = tree.add_node(None, String::from("r"), 60);
    tree.add_node(Some(root), String::from("a"), 10);
    tree.add_node(Some(root), String::from("b"), 30);
    tree.add_node(Some(root), String::from("c"), 20);
    TerminalApp::initialize(Traversal {
        tree,
        root_index: root,
        io_errors: 0,
    })
}

/// Tree with root `r` (100), a directory `d` (90) holding `x` (50) and
/// `y` (40), and a file `f` (10).
fn nested_app() -> TerminalApp {
    let mut tree = Tree::new();
    let root = tree.add_node(None, String::from("r"), 100);
    let d = tree.add_node(Some(root), String::from("d"), 90);
    tree.add_node(Some(d), String::from("x"), 50);
    tree.add_node(Some(d), String::from("y"), 40);
    tree.add_node(Some(root), String::from("f"), 10);
    TerminalApp::initialize(Traversal {
        tree,
        root_index: root,
        io_errors: 0,
    })
}

fn entry_indices(app: &TerminalApp) -> Vec<usize> {
    app.state.entries.iter().map(|b| b.index).collect()
}

#[test]
fn initial_listing_is_ascending_by_size() {
    let app = sample_app();
    // a(10) at index 1, c(20) at index 3, b(30) at index 2
    assert_eq!(entry_indices(&app), vec![1, 3, 2]);
    assert_eq!(app.state.selected, Some(1));
    assert_eq!(app.state.root, 0);
    assert!(app.state.message.is_none());
    assert_eq!(app.state.focussed, FocussedPane::Main);
}

#[test]
fn down_twice_selects_largest_then_clamps() {
    let mut app = sample_app();
    app.process_event(Key::Char('j'));
    assert_eq!(app.state.selected, Some(3));
    app.process_event(Key::Char('j'));
    assert_eq!(app.state.selected, Some(2));
    // past the end: stays on the last entry
    app.process_event(Key::Char('j'));
    assert_eq!(app.state.selected, Some(2));
}

#[test]
fn up_at_first_entry_stays() {
    let mut app = sample_app();
    app.process_event(Key::Char('k'));
    assert_eq!(app.state.selected, Some(1));
    app.process_event(Key::Ctrl('u'));
    assert_eq!(app.state.selected, Some(1));
}

#[test]
fn page_down_clamps_to_last_and_page_up_back_to_first() {
    let mut app = sample_app();
    app.process_event(Key::Ctrl('d'));
    assert_eq!(app.state.selected, Some(2));
    app.process_event(Key::Ctrl('u'));
    assert_eq!(app.state.selected, Some(1));
}

#[test]
fn ascend_at_top_reports_and_leaves_state() {
    let mut app = sample_app();
    app.process_event(Key::Char('u'));
    assert_eq!(app.state.root, 0);
    assert_eq!(app.state.selected, Some(1));
    assert_eq!(entry_indices(&app), vec![1, 3, 2]);
    assert_eq!(app.state.message, Some(String::from("Top level reached")));
}

#[test]
fn descend_into_leaf_reports_and_leaves_state() {
    let mut app = sample_app();
    app.process_event(Key::Char('o'));
    assert_eq!(app.state.root, 0);
    assert_eq!(app.state.selected, Some(1));
    assert_eq!(entry_indices(&app), vec![1, 3, 2]);
    assert_eq!(
        app.state.message,
        Some(String::from("Entry is a file or an empty directory"))
    );
}

#[test]
fn message_is_cleared_by_the_next_key() {
    let mut app = sample_app();
    app.process_event(Key::Char('u'));
    assert!(app.state.message.is_some());
    app.process_event(Key::Char('j'));
    assert!(app.state.message.is_none());
}

#[test]
fn enter_directory_then_exit_restores_root() {
    let mut app = nested_app();
    // listing of r ascending: f(10) idx 4, d(90) idx 1
    assert_eq!(entry_indices(&app), vec![4, 1]);
    // move onto d, then descend
    app.process_event(Key::Char('j'));
    assert_eq!(app.state.selected, Some(1));
    app.process_event(Key::Char('o'));
    assert_eq!(app.state.root, 1);
    // children of d ascending: y(40) idx 3, x(50) idx 2
    assert_eq!(entry_indices(&app), vec![3, 2]);
    assert_eq!(app.state.selected, Some(3));
    // ascend again: back at r with its first entry selected
    app.process_event(Key::Char('u'));
    assert_eq!(app.state.root, 0);
    assert_eq!(entry_indices(&app), vec![4, 1]);
    assert_eq!(app.state.selected, Some(4));
    assert!(app.state.message.is_none());
}

#[test]
fn sort_toggle_takes_effect_on_next_movement() {
    let mut app = sample_app();
    let before = entry_indices(&app);
    assert_eq!(before, vec![1, 3, 2]);
    app.process_event(Key::Char('s'));
    // not rebuilt yet
    assert_eq!(entry_indices(&app), before);
    assert_eq!(app.state.sorting, SortMode::SizeDescending);
    app.process_event(Key::Char('j'));
    // rebuilt descending: b(30), c(20), a(10)
    assert_eq!(entry_indices(&app), vec![2, 3, 1]);
}

#[test]
fn sort_toggle_twice_restores_order() {
    let mut app = sample_app();
    app.process_event(Key::Char('s'));
    app.process_event(Key::Char('s'));
    assert_eq!(app.state.sorting, SortMode::SizeAscending);
    app.process_event(Key::Char('j'));
    assert_eq!(entry_indices(&app), vec![1, 3, 2]);
}

#[test]
fn help_toggle_creates_overlay_and_quit_leaves_it() {
    let mut app = sample_app();
    assert!(app.window.help_pane.is_none());
    let outcome = app.process_event(Key::Char('?'));
    assert!(matches!(outcome, EventOutcome::Continue));
    assert_eq!(app.state.focussed, FocussedPane::Help);
    assert_eq!(app.window.help_pane.map(|p| p.scroll), Some(0));
    // quit while the help pane is focussed closes it, not the loop
    let outcome = app.process_event(Key::Char('q'));
    assert!(matches!(outcome, EventOutcome::Continue));
    assert_eq!(app.state.focussed, FocussedPane::Main);
    assert!(app.window.help_pane.is_none());
}

#[test]
fn help_toggle_twice_destroys_overlay() {
    let mut app = sample_app();
    app.process_event(Key::Char('?'));
    app.process_event(Key::Char('?'));
    assert_eq!(app.state.focussed, FocussedPane::Main);
    assert!(app.window.help_pane.is_none());
}

#[test]
fn cycle_focus_needs_an_overlay() {
    let mut app = sample_app();
    // no overlay: cycling stays on the main pane
    app.process_event(Key::Char('\t'));
    assert_eq!(app.state.focussed, FocussedPane::Main);
    // with an overlay: cycling moves away and back, keeping the overlay
    app.process_event(Key::Char('?'));
    app.process_event(Key::Char('\t'));
    assert_eq!(app.state.focussed, FocussedPane::Main);
    assert!(app.window.help_pane.is_some());
    app.process_event(Key::Char('\t'));
    assert_eq!(app.state.focussed, FocussedPane::Help);
}

#[test]
fn help_scroll_saturates_at_zero() {
    let mut app = sample_app();
    app.process_event(Key::Char('?'));
    app.process_event(Key::Char('j'));
    assert_eq!(app.window.help_pane.map(|p| p.scroll), Some(1));
    app.process_event(Key::Ctrl('d'));
    assert_eq!(app.window.help_pane.map(|p| p.scroll), Some(11));
    app.process_event(Key::Char('k'));
    assert_eq!(app.window.help_pane.map(|p| p.scroll), Some(10));
    app.process_event(Key::Ctrl('u'));
    assert_eq!(app.window.help_pane.map(|p| p.scroll), Some(0));
    app.process_event(Key::Char('k'));
    assert_eq!(app.window.help_pane.map(|p| p.scroll), Some(0));
    app.process_event(Key::Ctrl('u'));
    assert_eq!(app.window.help_pane.map(|p| p.scroll), Some(0));
}

#[test]
fn movement_keys_scroll_help_not_selection_while_help_focussed() {
    let mut app = sample_app();
    app.process_event(Key::Char('?'));
    app.process_event(Key::Char('j'));
    app.process_event(Key::Char('j'));
    assert_eq!(app.state.selected, Some(1));
    assert_eq!(app.window.help_pane.map(|p| p.scroll), Some(2));
}

#[test]
fn quit_from_main_ends_the_loop() {
    let mut app = sample_app();
    let outcome = app.process_event(Key::Char('q'));
    assert!(matches!(outcome, EventOutcome::Quit));
}

#[test]
fn interrupt_ends_the_loop_from_any_pane() {
    let mut app = sample_app();
    app.process_event(Key::Char('?'));
    let outcome = app.process_event(Key::Ctrl('c'));
    assert!(matches!(outcome, EventOutcome::Quit));
}

#[test]
fn open_yields_the_selected_path() {
    let mut app = nested_app();
    app.process_event(Key::Char('j'));
    let outcome = app.process_event(Key::Char('O'));
    match outcome {
        EventOutcome::Open(segs) => {
            assert_eq!(segs, vec![String::from("r"), String::from("d")]);
        }
        other => panic!("expected an open request, got {:?}", other),
    }
}

#[test]
fn open_without_selection_does_nothing() {
    let mut tree = Tree::new();
    let root = tree.add_node(None, String::from("r"), 0);
    let mut app = TerminalApp::initialize(Traversal {
        tree,
        root_index: root,
        io_errors: 0,
    });
    assert_eq!(app.state.selected, None);
    let outcome = app.process_event(Key::Char('O'));
    assert!(matches!(outcome, EventOutcome::Continue));
}

#[test]
fn empty_root_movement_keeps_empty_selection() {
    let mut tree = Tree::new();
    let root = tree.add_node(None, String::from("r"), 0);
    let mut app = TerminalApp::initialize(Traversal {
        tree,
        root_index: root,
        io_errors: 0,
    });
    assert!(app.state.entries.is_empty());
    assert_eq!(app.state.selected, None);
    app.process_event(Key::Char('j'));
    assert_eq!(app.state.selected, None);
    assert!(app.state.entries.is_empty());
    app.process_event(Key::Char('o'));
    assert!(app.state.message.is_none());
}

#[test]
fn unmatched_keys_only_clear_the_message() {
    let mut app = sample_app();
    app.process_event(Key::Char('u'));
    assert!(app.state.message.is_some());
    let outcome = app.process_event(Key::Char('z'));
    assert!(matches!(outcome, EventOutcome::Continue));
    assert!(app.state.message.is_none());
    assert_eq!(app.state.selected, Some(1));
    app.process_event(Key::Other);
    assert_eq!(app.state.selected, Some(1));
}

#[test]
fn process_events_stops_at_quit_and_reports_errors() {
    let mut tree = Tree::new();
    let root = tree.add_node(None, String::from("r"), 60);
    tree.add_node(Some(root), String::from("a"), 10);
    tree.add_node(Some(root), String::from("b"), 30);
    tree.add_node(Some(root), String::from("c"), 20);
    let mut app = TerminalApp::initialize(Traversal {
        tree,
        root_index: root,
        io_errors: 7,
    });
    let keys = vec![
        Key::Char('j'),
        Key::Char('j'),
        Key::Char('q'),
        Key::Char('j'),
    ];
    let res = app.process_events(&keys);
    assert_eq!(res.num_errors, 7);
    // the key after the quit was not processed
    assert_eq!(app.state.selected, Some(2));
}

#[test]
fn sorted_entries_lists_children_with_their_data() {
    let mut tree = Tree::new();
    let root = tree.add_node(None, String::from("r"), 60);
    tree.add_node(Some(root), String::from("a"), 10);
    tree.add_node(Some(root), String::from("b"), 30);
    tree.add_node(Some(root), String::from("c"), 20);
    let asc = sorted_entries(&tree, root, SortMode::SizeAscending);
    let sizes: Vec<u64> = asc.iter().map(|b| b.size).collect();
    let names: Vec<&str> = asc.iter().map(|b| b.name.as_str()).collect();
    assert_eq!(sizes, vec![10, 20, 30]);
    assert_eq!(names, vec!["a", "c", "b"]);
    let desc = sorted_entries(&tree, root, SortMode::SizeDescending);
    let sizes: Vec<u64> = desc.iter().map(|b| b.size).collect();
    assert_eq!(sizes, vec![30, 20, 10]);
}

#[test]
fn sorting_by_size_is_stable_for_equal_sizes() {
    let mut tree = Tree::new();
    let root = tree.add_node(None, String::from("r"), 30);
    tree.add_node(Some(root), String::from("first"), 10);
    tree.add_node(Some(root), String::from("second"), 10);
    tree.add_node(Some(root), String::from("third"), 10);
    let asc = sorted_entries(&tree, root, SortMode::SizeAscending);
    let names: Vec<&str> = asc.iter().map(|b| b.name.as_str()).collect();
    assert_eq!(names, vec!["first", "second", "third"]);
    let desc = sorted_entries(&tree, root, SortMode::SizeDescending);
    let names: Vec<&str> = desc.iter().map(|b| b.name.as_str()).collect();
    assert_eq!(names, vec!["first", "second", "third"]);
}

#[test]
fn path_of_walks_from_the_top() {
    let mut tree = Tree::new();
    let root = tree.add_node(None, String::from("r"), 100);
    let d = tree.add_node(Some(root), String::from("d"), 90);
    let x = tree.add_node(Some(d), String::from("x"), 50);
    assert_eq!(
        path_of(&tree, x),
        vec![String::from("r"), String::from("d"), String::from("x")]
    );
    assert_eq!(path_of(&tree, root), vec![String::from("r")]);
}

#[test]
fn scanning_state_shows_the_interim_notice() {
    let s = AppState::scanning(5);
    assert_eq!(s.root, 5);
    assert_eq!(s.selected, None);
    assert!(s.entries.is_empty());
    assert_eq!(s.message, Some(String::from("-> scanning <-")));
    assert_eq!(s.focussed, FocussedPane::Main);
}

#[test]
fn default_state_is_empty_and_main_focussed() {
    let s = AppState::default();
    assert_eq!(s.root, 0);
    assert_eq!(s.selected, None);
    assert!(s.entries.is_empty());
    assert_eq!(s.sorting, SortMode::SizeAscending);
    assert!(s.message.is_none());
    assert_eq!(s.focussed, FocussedPane::Main);
    assert_eq!(FocussedPane::default(), FocussedPane::Main);
}

#[test]
fn selection_remains_listed_after_any_movement() {
    let mut app = nested_app();
    let moves = vec![
        Key::Char('j'),
        Key::Ctrl('d'),
        Key::Char('k'),
        Key::Ctrl('u'),
        Key::Char('j'),
        Key::Char('k'),
    ];
    for key in moves {
        app.process_event(key);
        let sel = app.state.selected.expect("entries are not empty");
        assert!(app.state.entries.iter().any(|b| b.index == sel));
    }
}
