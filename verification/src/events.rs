//! Markers for the events that the application sends between its parts.
use vstd::prelude::*;

verus! {

/// The source of input events for the editor.
pub struct Input;

/// The source of the ticks that drive the editor forward.
pub struct Crank;

} // verus!
