//! Queries against the partition trees of a level, and what is built on
//! them.
//!
//! A level is divided by planes into convex regions, each filled with one
//! kind of contents. `bsp_query` finds the region that holds a point and
//! the first region along a ray that the ray cannot pass; `player` moves an
//! actor through the level by such rays, and `landing` follows an actor
//! over a floor until it rests. All lengths are fixed-point
//! numbers (`fixed`, `vec3`), so that every result is exact and the same on
//! every machine.
//!
//! `bsp_file` decodes level files, `lightmap`, `lightgrid` and `draw` lay
//! out what a renderer needs, and `message`, `conn_handler` and `transport` hold what
//! client and server say to each other.

pub mod bsp;
pub mod bsp_file;
pub mod bsp_query;
pub mod conn_handler;
pub mod contents;
pub mod draw;
pub mod err;
pub mod fixed;
pub mod landing;
pub mod lightgrid;
pub mod lightmap;
pub mod message;
pub mod player;
pub mod text;
pub mod transport;
pub mod tree;
pub mod vec3;
