pub mod technology;
