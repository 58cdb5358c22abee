pub mod gate;
pub mod map;
mod random;
pub mod registry;
pub mod unique;
