//! The camera that a slot looks through.
use vstd::prelude::*;

verus! {

/// A point in world coordinates.
#[derive(Debug)]
pub struct Point<N> {
    pub x: N,
    pub y: N,
}

/// Where a camera looks and how close.
#[derive(Debug)]
pub struct Transform<N> {
    pub position: Point<N>,
    pub zoom: N,
}

/// A camera: its transform, and what it holds only while it moves (momentum, zone).
#[derive(Debug)]
pub struct Camera<N, T> {
    pub transform: Transform<N>,
    pub transient: T,
}

} // verus!
