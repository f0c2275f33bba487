//! The editing, formatting and layout rules of the SubTake editor, with
//! their contracts proved.

use vstd::prelude::*;

pub mod annotations;
pub mod clock;
pub mod commands;
pub mod export;
pub mod inspector;
pub mod lanes;
pub mod library;
pub mod nested;
pub mod presets;
pub mod replace;
pub mod selection;
pub mod settings;
pub mod text;
pub mod themes;
pub mod values;
pub mod walkthrough;
pub mod words;

verus! {

} // verus!
