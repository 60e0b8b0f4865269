pub mod error;
pub mod technology;
