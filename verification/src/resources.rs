//! What is made of the fetched bytes.
pub mod error;
pub mod image;
