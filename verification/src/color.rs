//! Display colors for characters.

use vstd::prelude::*;

verus! {

/// An RGB display color for a character.
#[derive(Clone, Copy, PartialEq, Eq, Structural, Debug)]
pub struct Color {
    pub red: u8,
    pub green: u8,
    pub blue: u8,
}

} // verus!
