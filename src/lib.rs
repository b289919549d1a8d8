//! An auto-clicker's logic: the stored configuration format, the hotkey rules
//! that switch clicking on and off, and the steps of the click loop.
use vstd::prelude::*;

pub mod clicker;
pub mod config;
pub mod hotkey;
pub mod prompt;
pub mod text;

verus! {

} // verus!
