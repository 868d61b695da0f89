//! A small stochastic path tracer over fixed-point arithmetic.
//!
//! Scalars are signed 16.16 fixed-point numbers stored in `i64`: the raw
//! integer `r` stands for the real number `r / 65536`. All geometry,
//! shading and sampling is carried out in this representation, so every
//! routine of the rendering core has an exact arithmetic contract.

pub mod camera;
pub mod color;
pub mod common;
pub mod image;
pub mod materials;
pub mod maths;
pub mod parser;
pub mod random;
