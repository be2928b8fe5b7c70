//! Small shared types.

use vstd::prelude::*;

verus! {

/// Placeholder for the line editor's undo bookkeeping; the editor's
/// callbacks that would feed it live with the caller and carry no
/// state of their own.
#[derive(Default)]
pub struct Changeset {}

} // verus!
