//! The ways in which an editing intent can fail.

use vstd::prelude::*;

verus! {

/// Why an intent was refused. A refused intent changes nothing.
#[derive(Debug, Clone, Copy, PartialEq, Eq, Structural, Hash)]
pub enum Failure {
    /// No anchor has the given name.
    UnknownAnchor,
    /// No tag has the given name.
    UnknownTag,
    /// Nothing of the given kind and name can be removed.
    UnknownTarget,
    /// The palette has no colour under the given index, or there is no
    /// painted pixel to take an index from.
    InvalidColorIndex,
    /// A marking session is already in progress.
    MarkerAlreadyActive,
    /// The intent needs a marking session and none is in progress.
    NoActiveMarker,
    /// The session log could not be written or the clock not read.
    IoFailure,
}

} // verus!
