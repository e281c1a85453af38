//! Renders a golf hole as a layered vector drawing.
//!
//! A hole arrives as surface polygons and labelled points in fixed-point
//! geographic coordinates. The library groups the polygons by surface
//! category, fuses neighbouring polygons of the categories that tend to be
//! surveyed in fragments, fits everything into a fixed canvas and emits one
//! styled primitive per region and per labelled point.
//!
//! All coordinates are integers, so every geometric decision is exact and is
//! proved against a mathematical model of the data.

pub mod adjacency;
pub mod geometry;
pub mod markup;
pub mod merger;
pub mod prefix;
pub mod render;
pub mod style;
pub mod survey;
pub mod text;
pub mod transform;
