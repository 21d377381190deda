//! Error values surfaced by the catalog.

use vstd::prelude::*;

verus! {

/// Failure of a texture-tree insertion: the requested path collides with an
/// already-recorded leaf (a leaf sits at a strict prefix of the path, or the
/// path addresses an existing branch).
#[derive(Debug, Clone, Copy, PartialEq, Eq, Structural)]
pub enum TreeError {
    PathConflict,
}

} // verus!
