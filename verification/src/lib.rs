//! Merges the six tile images of a cube map into one unfolded-cross sprite
//! sheet.
//!
//! File paths are classified by the end of their file name into a face of
//! the cube ([`tile`]), the tiles are gathered into groups by the part of the
//! name in front of the suffix ([`group`]), and each complete group is
//! composed from the decoded images of its tiles onto a canvas of four by
//! three tile cells ([`canvas`], [`merge`]). What is left then, writing the
//! canvas and removing the tiles, is laid out step by step for the caller
//! ([`completion`]).
//!
//! The library reads and writes no file. Images come in and go out as plain
//! bytes ([`raster`]); the `image` crate allocates the canvas and copies the
//! tiles into it.

pub mod canvas;
pub mod completion;
pub mod error;
pub mod group;
pub mod merge;
pub mod position;
pub mod raster;
pub mod tile;
