pub mod liquid;
pub mod rotation;
