//! Plain geometry shared by the other modules.
use vstd::prelude::*;

verus! {

/// A rectangle in physical pixels: top-left corner and dimensions.
#[derive(Clone, Copy, PartialEq, Eq, Structural, Debug)]
pub struct Rect {
    pub x: i32,
    pub y: i32,
    pub w: i32,
    pub h: i32,
}

} // verus!
