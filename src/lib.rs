//! The text transformations of a `cat`-like tool: flag parsing and the
//! display pipeline (tabs, squeezed blank lines, line ends, caret notation,
//! line numbers), over byte buffers.
use vstd::prelude::*;

pub mod args;
pub mod laws;
pub mod transform;

verus! {

} // verus!
