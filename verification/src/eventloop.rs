//! The navigation and focus state machine driven by key events.
//!
//! Every key event is dispatched in two layers: a global layer that
//! handles the help toggle, focus cycling and quitting, then a layer that
//! depends on which pane is focussed. Each transition is specified as a
//! function on an abstract view of the application state, and the
//! executable methods are proved to implement those functions exactly.

use vstd::prelude::*;
use crate::sorting::{
    EntryDataBundle, SortMode, sorted_entries, sorted_entries_spec, toggled,
    lemma_sorted_entries_elem, lemma_sorted_entries_len,
};
use crate::tree::{Tree, TreeNode, parent_link_ok, path_of, path_segments, tree_wf};

verus! {

/// Which pane key input currently targets.
#[derive(Copy, Clone, Debug, PartialEq, Eq, Structural)]
pub enum FocussedPane {
    Main,
    Help,
}

impl Default for FocussedPane {
    /// Input starts out targeting the main browser pane.
    fn default() -> (r: Self)
        ensures
            r == FocussedPane::Main,
    {
        FocussedPane::Main
    }
}

/// The key events the loop reacts to. Any key outside the dispatch tables
/// is mapped to `Other` by the terminal layer and leaves the state alone
/// apart from clearing the transient message.
#[derive(Copy, Clone, Debug, PartialEq, Eq, Structural)]
pub enum Key {
    Char(char),
    Ctrl(char),
    Other,
}

/// A cursor adjustment: one step or a page of ten.
#[derive(Copy, Clone, Debug, PartialEq, Eq, Structural)]
pub enum CursorDirection {
    PageDown,
    Down,
    Up,
    PageUp,
}

/// The help overlay: only its scroll offset belongs to the navigation state.
#[derive(Copy, Clone, Debug, PartialEq, Eq, Structural)]
pub struct HelpPane {
    pub scroll: u16,
}

/// The main window's widget state; the help overlay exists while a pane
/// is stored here.
#[derive(Copy, Clone, Debug)]
pub struct MainWindow {
    pub help_pane: Option<HelpPane>,
}

/// The navigation state: the directory being viewed, the selection, the
/// sorted entry list of the current root, a transient status message and
/// the focussed pane.
#[derive(Clone, Debug)]
pub struct AppState {
    pub root: usize,
    pub selected: Option<usize>,
    pub entries: Vec<EntryDataBundle>,
    pub sorting: SortMode,
    pub message: Option<String>,
    pub focussed: FocussedPane,
}

/// What the finished scan hands over: the tree, its root node and the
/// count of I/O errors swallowed while walking.
#[derive(Clone, Debug)]
pub struct Traversal {
    pub tree: Tree,
    pub root_index: usize,
    pub io_errors: u64,
}

/// The summary the session yields when the event loop exits.
#[derive(Copy, Clone, Debug, PartialEq, Eq, Structural)]
pub struct WalkResult {
    pub num_errors: u64,
}

/// State and methods representing the interactive disk usage browser.
pub struct TerminalApp {
    pub traversal: Traversal,
    pub state: AppState,
    pub window: MainWindow,
}

/// What one processed key asks the surrounding loop to do: keep going,
/// exit the loop, or hand a path to the external opener.
#[derive(Clone, Debug)]
pub enum EventOutcome {
    Continue,
    Quit,
    Open(Vec<String>),
}

/// Abstract view of the whole application state.
pub ghost struct AppView {
    pub tree: Seq<TreeNode>,
    pub io_errors: u64,
    pub root: usize,
    pub selected: Option<usize>,
    pub entries: Seq<EntryDataBundle>,
    pub sorting: SortMode,
    pub message: Option<Seq<char>>,
    pub focussed: FocussedPane,
    pub help: Option<u16>,
}

/// Abstract view of an event's outcome.
pub ghost enum OutcomeView {
    Continue,
    Quit,
    Open(Seq<String>),
}

impl View for TerminalApp {
    type V = AppView;

    open spec fn view(&self) -> AppView {
        AppView {
            tree: self.traversal.tree@,
            io_errors: self.traversal.io_errors,
            root: self.state.root,
            selected: self.state.selected,
            entries: self.state.entries@,
            sorting: self.state.sorting,
            message: match self.state.message {
                Some(m) => Some(m@),
                None => None,
            },
            focussed: self.state.focussed,
            help: match self.window.help_pane {
                Some(h) => Some(h.scroll),
                None => None,
            },
        }
    }
}

impl View for EventOutcome {
    type V = OutcomeView;

    open spec fn view(&self) -> OutcomeView {
        match self {
            EventOutcome::Continue => OutcomeView::Continue,
            EventOutcome::Quit => OutcomeView::Quit,
            EventOutcome::Open(p) => OutcomeView::Open(p@),
        }
    }
}

/// Notice shown when ascending is attempted at the tree's top level.
pub open spec fn top_level_msg() -> Seq<char> {
    "Top level reached"@
}

/// Notice shown when descending into a node without children.
pub open spec fn leaf_msg() -> Seq<char> {
    "Entry is a file or an empty directory"@
}

/// Interim notice shown while the background scan is still running.
pub open spec fn scanning_msg() -> Seq<char> {
    "-> scanning <-"@
}

/// How far one cursor adjustment reaches.
pub open spec fn stride(d: CursorDirection) -> int {
    match d {
        CursorDirection::Up | CursorDirection::Down => 1,
        CursorDirection::PageUp | CursorDirection::PageDown => 10,
    }
}

pub open spec fn is_up(d: CursorDirection) -> bool {
    d == CursorDirection::Up || d == CursorDirection::PageUp
}

/// Position of the first entry carrying the given node reference.
pub open spec fn find_index(entries: Seq<EntryDataBundle>, sel: usize) -> Option<int>
    decreases entries.len(),
{
    if entries.len() == 0 {
        None
    } else if entries[0].index == sel {
        Some(0int)
    } else {
        match find_index(entries.drop_first(), sel) {
            Some(i) => Some(i + 1),
            None => None,
        }
    }
}

/// The candidate cursor position: the selection's position (0 when there
/// is no selection or it is not found), moved by the stride, clamped at 0.
pub open spec fn candidate_pos(
    entries: Seq<EntryDataBundle>,
    sel: Option<usize>,
    d: CursorDirection,
) -> int {
    let pos: int = match sel {
        Some(s) => match find_index(entries, s) {
            Some(p) => p,
            None => 0,
        },
        None => 0,
    };
    if is_up(d) {
        if pos >= stride(d) {
            pos - stride(d)
        } else {
            0
        }
    } else {
        pos + stride(d)
    }
}

/// The selection after a cursor move: the entry at the candidate position
/// if it exists, else the last entry, else (empty list) the old selection.
pub open spec fn moved_selection(
    entries: Seq<EntryDataBundle>,
    sel: Option<usize>,
    d: CursorDirection,
) -> Option<usize> {
    let c = candidate_pos(entries, sel, d);
    if 0 <= c < entries.len() {
        Some(entries[c].index)
    } else if entries.len() > 0 {
        Some(entries[entries.len() - 1].index)
    } else {
        sel
    }
}

/// The first entry's node reference, if the list is not empty.
pub open spec fn first_index(es: Seq<EntryDataBundle>) -> Option<usize> {
    if es.len() > 0 {
        Some(es[0].index)
    } else {
        None
    }
}

/// A scroll offset adjusted with saturating arithmetic.
pub open spec fn scrolled(s: u16, d: CursorDirection) -> u16 {
    match d {
        CursorDirection::Down => if s + 1 <= u16::MAX {
            (s + 1) as u16
        } else {
            u16::MAX
        },
        CursorDirection::Up => if s >= 1 {
            (s - 1) as u16
        } else {
            0
        },
        CursorDirection::PageDown => if s + 10 <= u16::MAX {
            (s + 10) as u16
        } else {
            u16::MAX
        },
        CursorDirection::PageUp => if s >= 10 {
            (s - 10) as u16
        } else {
            0
        },
    }
}

/// Clearing the transient message, done first for every processed key.
pub open spec fn cleared(v: AppView) -> AppView {
    AppView { message: None, ..v }
}

/// The help toggle: from the main pane it creates the overlay with its
/// scroll reset and focusses it; from the help pane it destroys the
/// overlay and returns to the main pane.
pub open spec fn toggle_help_view(v: AppView) -> AppView {
    match v.focussed {
        FocussedPane::Main => AppView {
            focussed: FocussedPane::Help,
            help: Some(0u16),
            ..v
        },
        FocussedPane::Help => AppView { focussed: FocussedPane::Main, help: None, ..v },
    }
}

/// Cycling focus reaches the help pane only while the overlay exists;
/// from the help pane it always returns to the main pane. The overlay
/// itself is left as it is.
pub open spec fn cycle_focus_view(v: AppView) -> AppView {
    let f = match (v.focussed, v.help) {
        (FocussedPane::Main, Some(_)) => FocussedPane::Help,
        _ => FocussedPane::Main,
    };
    AppView { focussed: f, ..v }
}

/// Adjusting the help overlay's scroll offset, when the overlay exists.
pub open spec fn scroll_help_view(v: AppView, d: CursorDirection) -> AppView {
    match v.help {
        Some(s) => AppView { help: Some(scrolled(s, d)), ..v },
        None => v,
    }
}

/// Ascending to the current root's parent: the entry list is rebuilt for
/// the parent and the first entry selected. At the top level nothing
/// changes but the message.
pub open spec fn exit_node_view(v: AppView) -> AppView {
    match v.tree[v.root as int].parent {
        Some(p) => {
            let es = sorted_entries_spec(v.tree, p as int, v.sorting);
            AppView { root: p, entries: es, selected: first_index(es), ..v }
        },
        None => AppView { message: Some(top_level_msg()), ..v },
    }
}

/// Descending into the selection: if its rebuilt child list is not empty
/// it becomes the new root with its first entry selected; otherwise the
/// state is left alone and a notice is set.
pub open spec fn enter_node_view(v: AppView) -> AppView {
    match v.selected {
        Some(n) => {
            let es = sorted_entries_spec(v.tree, n as int, v.sorting);
            if es.len() > 0 {
                AppView { root: n, entries: es, selected: Some(es[0].index), ..v }
            } else {
                AppView { message: Some(leaf_msg()), ..v }
            }
        },
        None => v,
    }
}

/// A cursor move: the entry list is rebuilt from the current root under
/// the active sort mode, then the selection moves within it.
pub open spec fn change_selection_view(v: AppView, d: CursorDirection) -> AppView {
    let es = sorted_entries_spec(v.tree, v.root as int, v.sorting);
    AppView { entries: es, selected: moved_selection(es, v.selected, d), ..v }
}

/// Flipping the sort mode; the entry list is not rebuilt until the next
/// action that lists entries.
pub open spec fn toggle_sort_view(v: AppView) -> AppView {
    AppView { sorting: toggled(v.sorting), ..v }
}

/// Whether this key ends the event loop: the interrupt key always, the
/// quit key only while the main pane is focussed.
pub open spec fn quits(v: AppView, key: Key) -> bool {
    key == Key::Ctrl('c') || (key == Key::Char('q') && v.focussed == FocussedPane::Main)
}

/// The global dispatch layer, evaluated regardless of focus.
pub open spec fn global_step(v: AppView, key: Key) -> AppView {
    if key == Key::Char('?') {
        toggle_help_view(v)
    } else if key == Key::Char('\t') {
        cycle_focus_view(v)
    } else if key == Key::Char('q') && v.focussed == FocussedPane::Help {
        AppView { focussed: FocussedPane::Main, help: None, ..v }
    } else {
        v
    }
}

/// The focus-specific dispatch layer, evaluated on the focus left behind
/// by the global layer.
pub open spec fn pane_step(v: AppView, key: Key) -> AppView {
    match v.focussed {
        FocussedPane::Help => {
            if key == Key::Ctrl('u') {
                scroll_help_view(v, CursorDirection::PageUp)
            } else if key == Key::Char('k') {
                scroll_help_view(v, CursorDirection::Up)
            } else if key == Key::Char('j') {
                scroll_help_view(v, CursorDirection::Down)
            } else if key == Key::Ctrl('d') {
                scroll_help_view(v, CursorDirection::PageDown)
            } else {
                v
            }
        },
        FocussedPane::Main => {
            if key == Key::Char('u') {
                exit_node_view(v)
            } else if key == Key::Char('o') {
                enter_node_view(v)
            } else if key == Key::Ctrl('u') {
                change_selection_view(v, CursorDirection::PageUp)
            } else if key == Key::Char('k') {
                change_selection_view(v, CursorDirection::Up)
            } else if key == Key::Char('j') {
                change_selection_view(v, CursorDirection::Down)
            } else if key == Key::Ctrl('d') {
                change_selection_view(v, CursorDirection::PageDown)
            } else if key == Key::Char('s') {
                toggle_sort_view(v)
            } else {
                v
            }
        },
    }
}

/// The state after one processed key: the message is cleared, the global
/// layer runs, and unless the key ended the loop the focus-specific layer
/// runs after it.
pub open spec fn step(v: AppView, key: Key) -> AppView {
    let v1 = global_step(cleared(v), key);
    if quits(v, key) {
        v1
    } else {
        pane_step(v1, key)
    }
}

/// What one processed key asks of the surrounding loop. Opening targets
/// the selection's resolved path; it does not change the state.
pub open spec fn step_outcome(v: AppView, key: Key) -> OutcomeView {
    if quits(v, key) {
        OutcomeView::Quit
    } else {
        let v1 = global_step(cleared(v), key);
        if v1.focussed == FocussedPane::Main && key == Key::Char('O') {
            match open_segments(v1) {
                Some(p) => OutcomeView::Open(p),
                None => OutcomeView::Continue,
            }
        } else {
            OutcomeView::Continue
        }
    }
}

/// The path the external opener is handed: the selection's resolved
/// segments, when a selection exists.
pub open spec fn open_segments(v: AppView) -> Option<Seq<String>> {
    match v.selected {
        Some(s) => Some(path_segments(v.tree, s as int)),
        None => None,
    }
}

/// The state after a whole sequence of keys, stopping at the first one
/// that ends the loop.
pub open spec fn run_view(v: AppView, keys: Seq<Key>) -> AppView
    decreases keys.len(),
{
    if keys.len() == 0 {
        v
    } else {
        let v1 = step(v, keys[0]);
        if quits(v, keys[0]) {
            v1
        } else {
            run_view(v1, keys.drop_first())
        }
    }
}

/// The state the session starts from: the tree's root viewed under the
/// default sort mode, its first entry selected when there is one, no
/// message, no overlay, focus on the main pane.
pub open spec fn initial_view(t: Seq<TreeNode>, root: usize, io_errors: u64) -> AppView {
    let es = sorted_entries_spec(t, root as int, SortMode::SizeAscending);
    AppView {
        tree: t,
        io_errors,
        root,
        selected: first_index(es),
        entries: es,
        sorting: SortMode::SizeAscending,
        message: None,
        focussed: FocussedPane::Main,
        help: None,
    }
}

/// The state invariant. The entry list is the sorted child list of the
/// current root under the active sort mode, or under the other mode for
/// the stretch between a sort toggle and the next rebuild. The selection,
/// when present, refers to one of the listed entries, and is absent only
/// when the list is empty. Focus rests on the help pane only while the
/// overlay exists.
pub open spec fn inv_view(v: AppView) -> bool {
    &&& tree_wf(v.tree)
    &&& v.tree.len() <= usize::MAX
    &&& (v.root as int) < v.tree.len()
    &&& (v.entries == sorted_entries_spec(v.tree, v.root as int, SortMode::SizeAscending)
        || v.entries == sorted_entries_spec(v.tree, v.root as int, SortMode::SizeDescending))
    &&& match v.selected {
        Some(s) => exists|i: int|
            0 <= i < v.entries.len() && (#[trigger] v.entries[i]).index == s,
        None => v.entries.len() == 0,
    }
    &&& (v.focussed == FocussedPane::Help ==> v.help is Some)
}

/// The invariant, assembled from its clauses.
proof fn lemma_inv_parts(b: AppView)
    requires
        tree_wf(b.tree),
        b.tree.len() <= usize::MAX,
        (b.root as int) < b.tree.len(),
        b.entries == sorted_entries_spec(b.tree, b.root as int, SortMode::SizeAscending)
            || b.entries == sorted_entries_spec(b.tree, b.root as int, SortMode::SizeDescending),
        match b.selected {
            Some(s) => exists|i: int|
                0 <= i < b.entries.len() && (#[trigger] b.entries[i]).index == s,
            None => b.entries.len() == 0,
        },
        b.focussed == FocussedPane::Help ==> b.help is Some,
    ensures
        inv_view(b),
{
}

/// A transition that leaves the tree, root, entry list and selection
/// alone preserves the invariant, provided focus only rests on the help
/// pane while the overlay exists.
proof fn lemma_same_entries_inv(a: AppView, b: AppView)
    requires
        inv_view(a),
        b.tree == a.tree,
        b.root == a.root,
        b.entries == a.entries,
        b.selected == a.selected,
        b.focussed == FocussedPane::Help ==> b.help is Some,
    ensures
        inv_view(b),
{
    match a.selected {
        Some(s) => {
            let i = choose|i: int|
                0 <= i < a.entries.len() && (#[trigger] a.entries[i]).index == s;
            assert(b.entries[i] == a.entries[i]);
        },
        None => {},
    }
    lemma_inv_parts(b);
}

pub proof fn lemma_exit_preserves_inv(v: AppView)
    requires
        inv_view(v),
    ensures
        inv_view(exit_node_view(v)),
{
    assert(parent_link_ok(v.tree, v.root as int));
    let nv = exit_node_view(v);
    match v.tree[v.root as int].parent {
        Some(p) => {
            let es = sorted_entries_spec(v.tree, p as int, v.sorting);
            assert(v.sorting == SortMode::SizeAscending || v.sorting == SortMode::SizeDescending);
            assert(nv.entries == es);
            if es.len() > 0 {
                assert((nv.entries[0]).index == es[0].index);
                assert(nv.selected == Some(es[0].index));
            }
            lemma_inv_parts(nv);
        },
        None => {
            lemma_same_entries_inv(v, nv);
        },
    }
}

pub proof fn lemma_enter_preserves_inv(v: AppView)
    requires
        inv_view(v),
    ensures
        inv_view(enter_node_view(v)),
{
    let nv = enter_node_view(v);
    match v.selected {
        Some(n) => {
            let i = choose|i: int|
                0 <= i < v.entries.len() && (#[trigger] v.entries[i]).index == n;
            if v.entries == sorted_entries_spec(v.tree, v.root as int, SortMode::SizeAscending) {
                lemma_sorted_entries_elem(v.tree, v.root as int, SortMode::SizeAscending, i);
            } else {
                lemma_sorted_entries_elem(v.tree, v.root as int, SortMode::SizeDescending, i);
            }
            assert((n as int) < v.tree.len());
            assert(v.sorting == SortMode::SizeAscending || v.sorting == SortMode::SizeDescending);
            let es = sorted_entries_spec(v.tree, n as int, v.sorting);
            if es.len() > 0 {
                assert(nv.entries == es);
                assert((nv.entries[0]).index == es[0].index);
                assert(nv.selected == Some(es[0].index));
                lemma_inv_parts(nv);
            } else {
                lemma_same_entries_inv(v, nv);
            }
        },
        None => {
            lemma_same_entries_inv(v, nv);
        },
    }
}

pub proof fn lemma_move_preserves_inv(v: AppView, d: CursorDirection)
    requires
        inv_view(v),
    ensures
        inv_view(change_selection_view(v, d)),
{
    let nv = change_selection_view(v, d);
    let es = sorted_entries_spec(v.tree, v.root as int, v.sorting);
    assert(v.sorting == SortMode::SizeAscending || v.sorting == SortMode::SizeDescending);
    let c = candidate_pos(es, v.selected, d);
    if 0 <= c < es.len() {
        assert((nv.entries[c]).index == es[c].index);
    } else if es.len() > 0 {
        assert((nv.entries[es.len() - 1]).index == es[es.len() - 1].index);
    } else {
        lemma_sorted_entries_len(v.tree, v.root as int, SortMode::SizeAscending);
        lemma_sorted_entries_len(v.tree, v.root as int, SortMode::SizeDescending);
        lemma_sorted_entries_len(v.tree, v.root as int, v.sorting);
        assert(v.entries.len() == 0);
        assert(v.selected is None);
    }
    lemma_inv_parts(nv);
}

/// Each processed key leads from a state satisfying the invariant to
/// another such state.
pub proof fn lemma_step_preserves_inv(v: AppView, key: Key)
    requires
        inv_view(v),
    ensures
        inv_view(step(v, key)),
{
    let v1 = cleared(v);
    lemma_same_entries_inv(v, v1);
    let v2 = global_step(v1, key);
    if v2 != v1 {
        lemma_same_entries_inv(v1, v2);
    }
    if quits(v, key) {
        assert(step(v, key) == v2);
    } else {
        match v2.focussed {
            FocussedPane::Help => {
                if key == Key::Ctrl('u') {
                    lemma_same_entries_inv(v2, scroll_help_view(v2, CursorDirection::PageUp));
                } else if key == Key::Char('k') {
                    lemma_same_entries_inv(v2, scroll_help_view(v2, CursorDirection::Up));
                } else if key == Key::Char('j') {
                    lemma_same_entries_inv(v2, scroll_help_view(v2, CursorDirection::Down));
                } else if key == Key::Ctrl('d') {
                    lemma_same_entries_inv(v2, scroll_help_view(v2, CursorDirection::PageDown));
                }
                assert(step(v, key) == pane_step(v2, key));
            },
            FocussedPane::Main => {
                if key == Key::Char('u') {
                    lemma_exit_preserves_inv(v2);
                } else if key == Key::Char('o') {
                    lemma_enter_preserves_inv(v2);
                } else if key == Key::Ctrl('u') {
                    lemma_move_preserves_inv(v2, CursorDirection::PageUp);
                } else if key == Key::Char('k') {
                    lemma_move_preserves_inv(v2, CursorDirection::Up);
                } else if key == Key::Char('j') {
                    lemma_move_preserves_inv(v2, CursorDirection::Down);
                } else if key == Key::Ctrl('d') {
                    lemma_move_preserves_inv(v2, CursorDirection::PageDown);
                } else if key == Key::Char('s') {
                    lemma_same_entries_inv(v2, toggle_sort_view(v2));
                }
                assert(step(v, key) == pane_step(v2, key));
            },
        }
    }
}

/// No key event touches the tree or the error count the scan accumulated.
pub proof fn lemma_step_keeps_tree_and_errors(v: AppView, key: Key)
    ensures
        step(v, key).tree == v.tree,
        step(v, key).io_errors == v.io_errors,
{
}

/// Neither does a whole sequence of key events.
pub proof fn lemma_run_keeps_tree_and_errors(v: AppView, keys: Seq<Key>)
    ensures
        run_view(v, keys).tree == v.tree,
        run_view(v, keys).io_errors == v.io_errors,
    decreases keys.len(),
{
    if keys.len() > 0 {
        lemma_step_keeps_tree_and_errors(v, keys[0]);
        lemma_run_keeps_tree_and_errors(step(v, keys[0]), keys.drop_first());
    }
}

impl TerminalApp {
    pub open spec fn inv(&self) -> bool {
        inv_view(self@)
    }

    /// Clears the transient message, done first for every processed key.
    fn update_message(&mut self)
        ensures
            final(self)@ == cleared(old(self)@),
    {
        self.state.message = None;
    }

    /// Switches focus between the panes; the help pane can only be
    /// reached while its overlay exists.
    fn cycle_focus(&mut self)
        ensures
            final(self)@ == cycle_focus_view(old(self)@),
    {
        self.state.focussed = match (self.state.focussed, &self.window.help_pane) {
            (FocussedPane::Main, Some(_)) => FocussedPane::Help,
            (FocussedPane::Help, _) => FocussedPane::Main,
            _ => FocussedPane::Main,
        };
    }

    /// Creates the help overlay and focusses it, or destroys it and
    /// returns to the main pane.
    fn toggle_help_pane(&mut self)
        ensures
            final(self)@ == toggle_help_view(old(self)@),
    {
        self.state.focussed = match self.state.focussed {
            FocussedPane::Main => {
                self.window.help_pane = Some(HelpPane { scroll: 0 });
                FocussedPane::Help
            },
            FocussedPane::Help => {
                self.window.help_pane = None;
                FocussedPane::Main
            },
        };
    }

    /// Resolves the selection to the path handed to the external opener;
    /// nothing to open without a selection. The state is untouched.
    fn open_that(&self) -> (r: Option<Vec<String>>)
        requires
            self.inv(),
        ensures
            match r {
                Some(p) => open_segments(self@) == Some(p@),
                None => open_segments(self@) is None,
            },
    {
        match self.state.selected {
            Some(idx) => {
                proof {
                    let i = choose|i: int|
                        0 <= i < self@.entries.len() && (#[trigger] self@.entries[i]).index == idx;
                    if self@.entries == sorted_entries_spec(
                        self@.tree,
                        self@.root as int,
                        SortMode::SizeAscending,
                    ) {
                        lemma_sorted_entries_elem(
                            self@.tree,
                            self@.root as int,
                            SortMode::SizeAscending,
                            i,
                        );
                    } else {
                        lemma_sorted_entries_elem(
                            self@.tree,
                            self@.root as int,
                            SortMode::SizeDescending,
                            i,
                        );
                    }
                }
                Some(path_of(&self.traversal.tree, idx))
            },
            None => None,
        }
    }

    /// Ascends to the current root's parent, or reports the top level.
    fn exit_node(&mut self)
        requires
            old(self).inv(),
        ensures
            final(self)@ == exit_node_view(old(self)@),
    {
        proof {
            assert(parent_link_ok(self@.tree, self@.root as int));
        }
        match self.traversal.tree.nodes[self.state.root].parent {
            Some(parent_idx) => {
                self.state.root = parent_idx;
                self.state.entries = sorted_entries(
                    &self.traversal.tree,
                    parent_idx,
                    self.state.sorting,
                );
                self.state.selected = if self.state.entries.len() > 0 {
                    Some(self.state.entries[0].index)
                } else {
                    None
                };
            },
            None => {
                self.state.message = Some("Top level reached".to_owned());
            },
        }
    }

    /// Descends into the selection when it has children, else reports it.
    fn enter_node(&mut self)
        requires
            old(self).inv(),
        ensures
            final(self)@ == enter_node_view(old(self)@),
    {
        let new_root = match self.state.selected {
            Some(n) => n,
            None => {
                return ;
            },
        };
        proof {
            let i = choose|i: int|
                0 <= i < self@.entries.len() && (#[trigger] self@.entries[i]).index == new_root;
            if self@.entries == sorted_entries_spec(
                self@.tree,
                self@.root as int,
                SortMode::SizeAscending,
            ) {
                lemma_sorted_entries_elem(self@.tree, self@.root as int, SortMode::SizeAscending, i);
            } else {
                lemma_sorted_entries_elem(
                    self@.tree,
                    self@.root as int,
                    SortMode::SizeDescending,
                    i,
                );
            }
        }
        let entries = sorted_entries(&self.traversal.tree, new_root, self.state.sorting);
        if entries.len() > 0 {
            self.state.root = new_root;
            self.state.selected = Some(entries[0].index);
            self.state.entries = entries;
        } else {
            self.state.message = Some("Entry is a file or an empty directory".to_owned());
        }
    }

    /// Adjusts the help overlay's scroll offset, saturating at its bounds.
    fn scroll_help(&mut self, direction: CursorDirection)
        ensures
            final(self)@ == scroll_help_view(old(self)@, direction),
    {
        match self.window.help_pane {
            Some(pane) => {
                let s = pane.scroll;
                let ns = match direction {
                    CursorDirection::Down => if s <= u16::MAX - 1 {
                        s + 1
                    } else {
                        u16::MAX
                    },
                    CursorDirection::Up => if s >= 1 {
                        s - 1
                    } else {
                        0
                    },
                    CursorDirection::PageDown => if s <= u16::MAX - 10 {
                        s + 10
                    } else {
                        u16::MAX
                    },
                    CursorDirection::PageUp => if s >= 10 {
                        s - 10
                    } else {
                        0
                    },
                };
                self.window.help_pane = Some(HelpPane { scroll: ns });
            },
            None => {},
        }
    }

    /// Moves the selection within the freshly rebuilt entry list of the
    /// current root, clamping at both ends of the list.
    fn change_entry_selection(&mut self, direction: CursorDirection)
        requires
            old(self).inv(),
        ensures
            final(self)@ == change_selection_view(old(self)@, direction),
    {
        let entries = sorted_entries(&self.traversal.tree, self.state.root, self.state.sorting);
        let pos: usize = match self.state.selected {
            Some(selected) => {
                match Self::find_position(&entries, selected) {
                    Some(idx) => idx,
                    None => 0,
                }
            },
            None => 0,
        };
        let next_selected_pos: usize = match direction {
            CursorDirection::PageDown => if pos <= usize::MAX - 10 {
                pos + 10
            } else {
                usize::MAX
            },
            CursorDirection::Down => if pos <= usize::MAX - 1 {
                pos + 1
            } else {
                usize::MAX
            },
            CursorDirection::Up => if pos >= 1 {
                pos - 1
            } else {
                0
            },
            CursorDirection::PageUp => if pos >= 10 {
                pos - 10
            } else {
                0
            },
        };
        self.state.selected = if next_selected_pos < entries.len() {
            Some(entries[next_selected_pos].index)
        } else if entries.len() > 0 {
            Some(entries[entries.len() - 1].index)
        } else {
            self.state.selected
        };
        self.state.entries = entries;
    }

    /// Position of the first entry carrying the given node reference.
    fn find_position(entries: &Vec<EntryDataBundle>, sel: usize) -> (r: Option<usize>)
        ensures
            match r {
                Some(p) => find_index(entries@, sel) == Some(p as int),
                None => find_index(entries@, sel) is None,
            },
    {
        let mut i: usize = 0;
        proof {
            assert(entries@.skip(0) =~= entries@);
        }
        while i < entries.len()
            invariant
                i <= entries@.len(),
                forall|k: int| 0 <= k < i ==> (#[trigger] entries@[k]).index != sel,
                find_index(entries@, sel) == match find_index(entries@.skip(i as int), sel) {
                    Some(p) => Some(p + i),
                    None => None::<int>,
                },
            decreases entries@.len() - i,
        {
            if entries[i].index == sel {
                proof {
                    assert(entries@.skip(i as int)[0] == entries@[i as int]);
                    assert(find_index(entries@.skip(i as int), sel) == Some(0int));
                }
                return Some(i);
            }
            proof {
                assert(entries@.skip(i as int)[0] == entries@[i as int]);
                assert(entries@.skip(i as int).drop_first() =~= entries@.skip(i + 1));
            }
            i = i + 1;
        }
        proof {
            assert(entries@.skip(i as int).len() == 0);
        }
        None
    }

    /// Processes one key event: clears the transient message, runs the
    /// global dispatch layer and then the layer of the focussed pane, and
    /// reports whether the loop should keep going, stop, or hand the
    /// returned path to the external opener.
    pub fn process_event(&mut self, key: Key) -> (outcome: EventOutcome)
        requires
            old(self).inv(),
        ensures
            final(self)@ == step(old(self)@, key),
            outcome@ == step_outcome(old(self)@, key),
            final(self).inv(),
    {
        proof {
            lemma_step_preserves_inv(old(self)@, key);
        }
        let ghost v0 = self@;
        self.update_message();
        let ghost v1 = self@;
        let mut quit = false;
        match key {
            Key::Char(c) => {
                if c == '?' {
                    self.toggle_help_pane();
                } else if c == '\t' {
                    self.cycle_focus();
                } else if c == 'q' {
                    match self.state.focussed {
                        FocussedPane::Main => {
                            quit = true;
                        },
                        FocussedPane::Help => {
                            self.state.focussed = FocussedPane::Main;
                            self.window.help_pane = None;
                        },
                    }
                }
            },
            Key::Ctrl(c) => {
                if c == 'c' {
                    quit = true;
                }
            },
            Key::Other => {},
        }
        let ghost v2 = self@;
        proof {
            assert(v1 == cleared(v0));
            assert(v2 == global_step(v1, key));
            assert(quit == quits(v0, key));
            lemma_same_entries_inv(v0, v1);
            if v2 != v1 {
                lemma_same_entries_inv(v1, v2);
            }
        }
        if quit {
            return EventOutcome::Quit;
        }
        let mut opened: Option<Vec<String>> = None;
        match self.state.focussed {
            FocussedPane::Help => {
                match key {
                    Key::Ctrl(c) => {
                        if c == 'u' {
                            self.scroll_help(CursorDirection::PageUp);
                        } else if c == 'd' {
                            self.scroll_help(CursorDirection::PageDown);
                        }
                    },
                    Key::Char(c) => {
                        if c == 'k' {
                            self.scroll_help(CursorDirection::Up);
                        } else if c == 'j' {
                            self.scroll_help(CursorDirection::Down);
                        }
                    },
                    Key::Other => {},
                }
            },
            FocussedPane::Main => {
                match key {
                    Key::Char(c) => {
                        if c == 'O' {
                            opened = self.open_that();
                        } else if c == 'u' {
                            self.exit_node();
                        } else if c == 'o' {
                            self.enter_node();
                        } else if c == 'k' {
                            self.change_entry_selection(CursorDirection::Up);
                        } else if c == 'j' {
                            self.change_entry_selection(CursorDirection::Down);
                        } else if c == 's' {
                            self.state.sorting.toggle_size();
                        }
                    },
                    Key::Ctrl(c) => {
                        if c == 'u' {
                            self.change_entry_selection(CursorDirection::PageUp);
                        } else if c == 'd' {
                            self.change_entry_selection(CursorDirection::PageDown);
                        }
                    },
                    Key::Other => {},
                }
            },
        }
        proof {
            assert(self@ == pane_step(v2, key));
        }
        match opened {
            Some(p) => EventOutcome::Open(p),
            None => EventOutcome::Continue,
        }
    }

    /// Runs the dispatch over a whole sequence of keys, stopping at the
    /// first one that ends the loop, and yields the error-count summary.
    /// Requests to open a path are dropped here; a surrounding loop that
    /// owns a terminal processes events one at a time instead and honours
    /// them.
    pub fn process_events(&mut self, keys: &Vec<Key>) -> (res: WalkResult)
        requires
            old(self).inv(),
        ensures
            final(self)@ == run_view(old(self)@, keys@),
            final(self).inv(),
            res.num_errors == old(self)@.io_errors,
    {
        let ghost v0 = self@;
        let n = keys.len();
        let mut i: usize = 0;
        proof {
            assert(keys@.skip(0) =~= keys@);
        }
        while i < n
            invariant_except_break
                self.inv(),
                i <= n,
                n == keys@.len(),
                run_view(v0, keys@) == run_view(self@, keys@.skip(i as int)),
            ensures
                self.inv(),
                self@ == run_view(v0, keys@),
            decreases n - i,
        {
            let key = keys[i];
            let ghost pre = self@;
            let ghost rest = keys@.skip(i as int);
            let outcome = self.process_event(key);
            proof {
                assert(rest[0] == keys@[i as int]);
                assert(rest.drop_first() =~= keys@.skip(i as int + 1));
            }
            let is_quit = match outcome {
                EventOutcome::Quit => true,
                _ => false,
            };
            if is_quit {
                proof {
                    assert(quits(pre, key));
                    assert(run_view(pre, rest) == self@);
                }
                break;
            }
            proof {
                assert(!quits(pre, key));
                assert(run_view(pre, rest) == run_view(self@, rest.drop_first()));
            }
            i = i + 1;
        }
        proof {
            lemma_run_keeps_tree_and_errors(v0, keys@);
        }
        WalkResult { num_errors: self.traversal.io_errors }
    }

    /// Builds the fully-formed application state once the traversal has
    /// finished: the root's children listed under the default sort mode,
    /// with the first entry selected when there is one.
    pub fn initialize(traversal: Traversal) -> (app: TerminalApp)
        requires
            traversal.tree.wf(),
            traversal.root_index < traversal.tree@.len(),
        ensures
            app@ == initial_view(traversal.tree@, traversal.root_index, traversal.io_errors),
            app.inv(),
    {
        let sorting = SortMode::default();
        let root = traversal.root_index;
        let n = traversal.tree.len();
        let entries = sorted_entries(&traversal.tree, root, sorting);
        let selected = if entries.len() > 0 {
            Some(entries[0].index)
        } else {
            None
        };
        let app = TerminalApp {
            state: AppState { root, sorting, selected, entries, message: None, focussed: FocussedPane::Main },
            traversal,
            window: MainWindow { help_pane: None },
        };
        proof {
            let av = app@;
            assert(av.tree.len() <= usize::MAX);
            if av.entries.len() > 0 {
                assert((av.entries[0]).index == av.entries[0].index);
            }
            lemma_inv_parts(av);
        }
        app
    }
}

impl AppState {
    /// The transient state the progress callback renders while the scan
    /// is still in flight: nothing listed or selected yet, and an interim
    /// notice in place of a result.
    pub fn scanning(root: usize) -> (s: AppState)
        ensures
            s.root == root,
            s.selected is None,
            s.entries@ =~= Seq::<EntryDataBundle>::empty(),
            s.sorting == SortMode::SizeAscending,
            s.focussed == FocussedPane::Main,
            match s.message {
                Some(m) => m@ == scanning_msg(),
                None => false,
            },
    {
        AppState {
            root,
            selected: None,
            entries: Vec::new(),
            sorting: SortMode::default(),
            message: Some("-> scanning <-".to_owned()),
            focussed: FocussedPane::Main,
        }
    }
}

impl Default for AppState {
    /// An empty navigation state, rooted at the first node.
    fn default() -> (r: AppState)
        ensures
            r.root == 0,
            r.selected is None,
            r.entries@ =~= Seq::<EntryDataBundle>::empty(),
            r.sorting == SortMode::SizeAscending,
            r.message is None,
            r.focussed == FocussedPane::Main,
    {
        AppState {
            root: 0,
            selected: None,
            entries: Vec::new(),
            sorting: SortMode::default(),
            message: None,
            focussed: FocussedPane::default(),
        }
    }
}

} // verus!
