//! Core, platform-independent logic of the Steven Minecraft client:
//! bit-packed storage, chat formatting, protocol encoding, texture atlas
//! packing, shader source assembly and related game rules.

pub mod auth;
pub mod bit;
pub mod chunk_builder;
pub mod console;
pub mod ecs;
pub mod entity;
pub mod format;
pub mod gl;
pub mod hash;
pub mod json;
pub mod model;
pub mod protocol;
pub mod render;
pub mod server;
pub mod settings;
pub mod shared;
pub mod screen;
pub mod text;
