//! Interactive navigation core of a terminal disk-usage explorer.
//!
//! A precomputed directory-size tree is browsed with a selection cursor:
//! keys move the selection, descend into and ascend out of directories,
//! toggle the sort order and open a help overlay. This crate holds the
//! navigation and focus state machine with its key-driven transitions;
//! terminal input, rendering and the filesystem scan live outside it.

pub mod eventloop;
pub mod laws;
pub mod sorting;
pub mod tree;

use vstd::prelude::*;

verus! {

} // verus!
