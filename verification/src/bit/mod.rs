pub mod map;
pub mod set;
