//! A model of a layered cube puzzle and an exhaustive, pruned search for
//! the move sequences that lead from one configuration to another.
//!
//! The cube has an edge length between 1 and 10. Only the bricks on its
//! surface are kept. A move turns one layer of bricks by a quarter turn
//! about one of the three axes. The search lists, in breadth-first order,
//! every move sequence up to a given length that turns a source cube into a
//! destination cube, leaving out sequences that are redundant by
//! construction.
//!
//! - [`geometry`], [`brick`], [`moves`], [`cube`]: the state of the puzzle
//!   and what a move makes of it.
//! - [`layers`], [`trail`], [`search`]: the search, with its model in
//!   [`model`] and what is proved of the model in [`soundness`],
//!   [`completeness`] and [`effort`].
//! - [`lexer`]: moves read from text.
//! - [`render`], [`text`]: the picture of a cube as text for a terminal.
#![allow(non_snake_case)]

pub mod geometry;
pub mod brick;
pub mod moves;
pub mod cube;
pub mod layers;
pub mod text;
pub mod trail;
pub mod model;
pub mod search;
pub mod soundness;
pub mod completeness;
pub mod effort;
pub mod lexer;
pub mod render;
