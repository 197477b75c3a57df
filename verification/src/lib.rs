//! Minecraft player and mob faces as pixel images and terminal text.

pub mod builtin;
pub mod cli;
pub mod image;
pub mod layout;
pub mod mojang;
pub mod render;
pub mod resolve;
pub mod skin;
pub mod text;
