//! The parts of an SVG that are not drawn as vector graphics.

pub mod filter;
