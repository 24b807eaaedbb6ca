//! Character-cell user interfaces: a styled text canvas, the widget
//! contract, and a focus container that wires widgets into a mesh that the
//! keyboard can walk.
//!
//! The canvas ([`canvas::Canvas`]) is the only thing that is rendered.
//! Widgets ([`Element`]) draw themselves onto it, answer input symbols with
//! a [`Response`], and are told when the focus enters them. The container
//! ([`Grid`]) owns widgets, moves the focus along the links between them,
//! and is a widget itself, so that containers nest.

pub mod canvas;
pub mod element;
pub mod grid;
pub mod raster;
pub mod style;
pub mod text;
pub mod util;

pub use crate::element::{
    default_response, Direction, Edge, Element, Response, DOWN, LEFT, RIGHT, UP,
};
pub use crate::grid::{ElemHandle, ElemHolder, Entry, Grid, HandleOutOfBounds, Links};
pub use crate::text::Text;
pub use crate::util::{TextScroller, Updater};
