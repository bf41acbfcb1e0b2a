//! A verified loader for a line-oriented 2.5D ("sector and wall") level
//! format, together with the geometry derivation and spatial queries that a
//! renderer consumes.
//!
//! All coordinates, heights and angles are fixed-point integers: lengths in
//! thousandths of a map unit, angles in thousandths of a degree. The parser
//! turns a byte buffer into a [`level::LevelMap`]; the geometry pass derives
//! one renderable [`level::WallPrimitive`] per solid wall; the point test
//! answers half-plane membership queries against a wall loop.

pub mod geom;
pub mod level;
pub mod num;
pub mod parse;
