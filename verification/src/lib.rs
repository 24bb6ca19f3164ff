//! The decision core of a Wayland compositor.
pub mod camera;
pub mod coordinate;
pub mod coordinate_laws;
pub mod display;
pub mod document;
pub mod geometry;
pub mod ids;
pub mod kernel;
pub mod orchestrator;
pub mod output;
pub mod output_laws;
pub mod pipe;
pub mod pipe_laws;
pub mod reconcile;
pub mod reconcile_laws;
pub mod switch;
pub mod switch_laws;
pub mod teleport;
pub mod viewport;
pub mod viewport_laws;
