pub mod analysis;
pub mod creation;
pub mod validation;
