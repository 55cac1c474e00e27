pub mod adjust;
pub mod flex;
pub mod profile;
pub mod processing;
pub mod transform;
