//! What the command line asks to compare.

use vstd::prelude::*;

verus! {

/// How the paths given on the command line are read.
#[derive(Debug, Clone, Copy, PartialEq, Eq, Structural)]
pub enum InputKind {
    /// Seven paths: git's external diff call (`path old-file old-hex
    /// old-mode new-file new-hex new-mode`).
    GitExternal,
    /// Two files or directories.
    TwoPaths,
    /// No path: the uncommitted changes of the current repository.
    GitUncommitted,
    /// Any other number of paths.
    Unrecognized,
}

/// How `count` command-line paths are read.
pub fn detect_input_kind(count: usize) -> (k: InputKind)
    ensures
        k == (if count == 7 {
            InputKind::GitExternal
        } else if count == 2 {
            InputKind::TwoPaths
        } else if count == 0 {
            InputKind::GitUncommitted
        } else {
            InputKind::Unrecognized
        }),
{
    if count == 7 {
        InputKind::GitExternal
    } else if count == 2 {
        InputKind::TwoPaths
    } else if count == 0 {
        InputKind::GitUncommitted
    } else {
        InputKind::Unrecognized
    }
}

/// The positions of the shown, old and new paths among the command-line
/// paths, for the kinds that name files.
pub fn input_positions(kind: InputKind) -> (r: Option<(usize, usize, usize)>)
    ensures
        r == (match kind {
            InputKind::GitExternal => Some((0usize, 1usize, 4usize)),
            InputKind::TwoPaths => Some((1usize, 0usize, 1usize)),
            _ => None,
        }),
{
    match kind {
        InputKind::GitExternal => Some((0, 1, 4)),
        InputKind::TwoPaths => Some((1, 0, 1)),
        _ => None,
    }
}

} // verus!
