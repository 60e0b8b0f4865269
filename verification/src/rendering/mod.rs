pub mod grid;
pub mod renderer;
pub mod tree;
