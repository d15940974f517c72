//! A sparse octree over the integer lattice, with the small value types that
//! surround it.
pub mod aabb;
pub mod components;
pub mod error;
pub mod instance;
pub mod oc_tree;
pub mod point;
pub mod request;
pub mod resources;

pub use point::toward;
pub use point::Point3;
