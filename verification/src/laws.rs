//! Laws of the navigation state machine, proved once and for all over the
//! abstract view and the specification transitions of the event loop.

use vstd::prelude::*;
use crate::eventloop::{
    AppView, CursorDirection, FocussedPane, Key, candidate_pos, change_selection_view, find_index,
    first_index, inv_view, is_up, leaf_msg, lemma_step_preserves_inv, moved_selection, quits,
    run_view, step, stride, top_level_msg,
};
use crate::sorting::{EntryDataBundle, SortMode, lemma_sorted_entries_elem, sorted_entries_spec, toggled};

verus! {

/// The selection stays valid: after any sequence of keys from a state
/// satisfying the invariant, the selection is absent only when the entry
/// list is empty, and otherwise refers to one of the listed entries.
pub proof fn lemma_selection_stays_valid(v: AppView, keys: Seq<Key>)
    requires
        inv_view(v),
    ensures
        inv_view(run_view(v, keys)),
        ({
            let w = run_view(v, keys);
            match w.selected {
                Some(s) => exists|i: int|
                    0 <= i < w.entries.len() && (#[trigger] w.entries[i]).index == s,
                None => w.entries.len() == 0,
            }
        }),
    decreases keys.len(),
{
    if keys.len() > 0 {
        lemma_step_preserves_inv(v, keys[0]);
        if !quits(v, keys[0]) {
            lemma_selection_stays_valid(step(v, keys[0]), keys.drop_first());
        }
    }
}

/// Clamping at the start: a cursor move upward while the selection sits
/// at the first position leaves the selection unchanged.
pub proof fn lemma_clamp_at_start(v: AppView, d: CursorDirection)
    requires
        inv_view(v),
        is_up(d),
        ({
            let es = sorted_entries_spec(v.tree, v.root as int, v.sorting);
            match v.selected {
                Some(s) => find_index(es, s) == Some(0int),
                None => false,
            }
        }),
    ensures
        change_selection_view(v, d).selected == v.selected,
{
    let es = sorted_entries_spec(v.tree, v.root as int, v.sorting);
    match v.selected {
        Some(s) => {
            lemma_find_index_in_range(es, s);
            assert(es[0].index == s);
            assert(candidate_pos(es, v.selected, d) == 0);
        },
        None => {},
    }
}

/// Clamping at the end: a cursor move downward that would pass the last
/// position selects the last entry.
pub proof fn lemma_clamp_at_end(v: AppView, d: CursorDirection)
    requires
        inv_view(v),
        !is_up(d),
        ({
            let es = sorted_entries_spec(v.tree, v.root as int, v.sorting);
            match v.selected {
                Some(s) => match find_index(es, s) {
                    Some(p) => p + stride(d) >= es.len(),
                    None => false,
                },
                None => false,
            }
        }),
    ensures
        ({
            let es = sorted_entries_spec(v.tree, v.root as int, v.sorting);
            change_selection_view(v, d).selected == Some(es[es.len() - 1].index)
        }),
{
    let es = sorted_entries_spec(v.tree, v.root as int, v.sorting);
    assert(es.len() > 0) by {
        match v.selected {
            Some(s) => {
                lemma_find_index_in_range(es, s);
            },
            None => {},
        }
    }
}

/// A found position always lies within the sequence.
pub proof fn lemma_find_index_in_range(entries: Seq<EntryDataBundle>, sel: usize)
    ensures
        match find_index(entries, sel) {
            Some(p) => 0 <= p < entries.len() && entries[p].index == sel,
            None => true,
        },
    decreases entries.len(),
{
    if entries.len() > 0 && entries[0].index != sel {
        lemma_find_index_in_range(entries.drop_first(), sel);
        match find_index(entries.drop_first(), sel) {
            Some(p) => {
                assert(entries.drop_first()[p] == entries[p + 1]);
            },
            None => {},
        }
    }
}

/// Descending and ascending are inverse on success: when the selection
/// has children, entering it and immediately leaving again restores the
/// prior root, relists its children, and selects the first entry of that
/// listing.
pub proof fn lemma_enter_then_exit(v: AppView)
    requires
        inv_view(v),
        v.focussed == FocussedPane::Main,
        match v.selected {
            Some(n) => sorted_entries_spec(v.tree, n as int, v.sorting).len() > 0,
            None => false,
        },
    ensures
        ({
            let v1 = step(v, Key::Char('o'));
            let v2 = step(v1, Key::Char('u'));
            let es = sorted_entries_spec(v.tree, v.root as int, v.sorting);
            &&& v2.root == v.root
            &&& v2.entries == es
            &&& v2.selected == first_index(es)
        }),
{
    let n = match v.selected {
        Some(n) => n,
        None => arbitrary(),
    };
    let i = choose|i: int| 0 <= i < v.entries.len() && (#[trigger] v.entries[i]).index == n;
    if v.entries == sorted_entries_spec(v.tree, v.root as int, SortMode::SizeAscending) {
        lemma_sorted_entries_elem(v.tree, v.root as int, SortMode::SizeAscending, i);
    } else {
        lemma_sorted_entries_elem(v.tree, v.root as int, SortMode::SizeDescending, i);
    }
    assert(v.tree[n as int].parent == Some(v.root));
    let v1 = step(v, Key::Char('o'));
    assert(v1.root == n && v1.tree == v.tree && v1.sorting == v.sorting && v1.focussed
        == FocussedPane::Main);
}

/// Ascending at the top level: when the current root has no parent, the
/// root, selection and entry list stay as they are and a non-empty
/// top-level notice is set.
pub proof fn lemma_ascend_at_top(v: AppView)
    requires
        inv_view(v),
        v.focussed == FocussedPane::Main,
        v.tree[v.root as int].parent is None,
    ensures
        ({
            let w = step(v, Key::Char('u'));
            &&& w.root == v.root
            &&& w.selected == v.selected
            &&& w.entries == v.entries
            &&& w.message == Some(top_level_msg())
            &&& top_level_msg().len() > 0
        }),
{
    reveal_strlit("Top level reached");
}

/// Descending into a leaf: when the selection has no children, the root,
/// selection and entry list stay as they are and a non-empty notice is
/// set.
pub proof fn lemma_descend_into_leaf(v: AppView)
    requires
        inv_view(v),
        v.focussed == FocussedPane::Main,
        match v.selected {
            Some(n) => sorted_entries_spec(v.tree, n as int, v.sorting).len() == 0,
            None => false,
        },
    ensures
        ({
            let w = step(v, Key::Char('o'));
            &&& w.root == v.root
            &&& w.selected == v.selected
            &&& w.entries == v.entries
            &&& w.message == Some(leaf_msg())
            &&& leaf_msg().len() > 0
        }),
{
    reveal_strlit("Entry is a file or an empty directory");
}

/// Focus on the help pane implies the overlay exists, in every state
/// reachable by key events from one satisfying the invariant. (The
/// converse does not hold: cycling focus away from the help pane leaves
/// the overlay in place, so the overlay may exist while the main pane is
/// focussed.)
pub proof fn lemma_help_focus_has_overlay(v: AppView, keys: Seq<Key>)
    requires
        inv_view(v),
    ensures
        run_view(v, keys).focussed == FocussedPane::Help ==> run_view(v, keys).help is Some,
{
    lemma_selection_stays_valid(v, keys);
}

/// The help scroll floor: while the help pane is focussed with its
/// scroll offset at zero, any run of upward scroll keys keeps the offset
/// exactly at zero — it saturates instead of wrapping around.
pub proof fn lemma_help_scroll_floor(v: AppView, keys: Seq<Key>)
    requires
        v.focussed == FocussedPane::Help,
        v.help == Some(0u16),
        forall|k: int|
            0 <= k < keys.len() ==> (#[trigger] keys[k]) == Key::Char('k') || keys[k] == Key::Ctrl(
                'u',
            ),
    ensures
        run_view(v, keys).help == Some(0u16),
        run_view(v, keys).focussed == FocussedPane::Help,
    decreases keys.len(),
{
    if keys.len() > 0 {
        let k = keys[0];
        assert(!quits(v, k));
        let v1 = step(v, k);
        assert(v1.help == Some(0u16) && v1.focussed == FocussedPane::Help);
        assert(forall|j: int|
            0 <= j < keys.drop_first().len() ==> (#[trigger] keys.drop_first()[j]) == keys[j + 1]);
        lemma_help_scroll_floor(v1, keys.drop_first());
    }
}

/// A sort toggle takes effect at the next movement key: the toggle alone
/// flips the mode and leaves the listing as it was, and the following
/// movement key rebuilds the listing under the new mode.
pub proof fn lemma_sort_toggle_then_move(v: AppView, key: Key, d: CursorDirection)
    requires
        inv_view(v),
        v.focussed == FocussedPane::Main,
        (key == Key::Char('k') && d == CursorDirection::Up) || (key == Key::Char('j') && d
            == CursorDirection::Down) || (key == Key::Ctrl('u') && d == CursorDirection::PageUp)
            || (key == Key::Ctrl('d') && d == CursorDirection::PageDown),
    ensures
        ({
            let v1 = step(v, Key::Char('s'));
            let v2 = step(v1, key);
            &&& v1.sorting == toggled(v.sorting)
            &&& v1.entries == v.entries
            &&& v2.entries == sorted_entries_spec(v.tree, v.root as int, toggled(v.sorting))
            &&& v2.selected == moved_selection(v2.entries, v1.selected, d)
        }),
{
}

} // verus!
