//! The geometry type catalog: coordinates, points, line strings and their
//! multi-part collections, each able to parse its own body from a token
//! cursor.

pub mod coord;
pub mod point;
pub mod linestring;
pub mod multilinestring;
