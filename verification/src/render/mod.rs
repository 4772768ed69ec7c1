pub mod atlas;
pub mod glsl;
pub mod model;
