//! What holds of the grammar as a whole.

pub mod classes;
pub mod comments;
pub mod flags;
pub mod literals;
pub mod nesting;
pub mod positions;
pub mod reading;
pub mod repetitions;
pub mod shape;
pub mod size;
pub mod space;
pub mod spans;
pub mod verbose;
