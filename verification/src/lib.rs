//! Technology trees: technologies that rest on each other, built from a list
//! of names, checked for cycles, measured in depth and laid out as a picture.

pub mod definition;
pub mod model;
pub mod rendering;
pub mod svg_builder;
pub mod text;
pub mod usecase;
