//! A maze game's software renderer: a pixel framebuffer with shapes, a
//! bitmap font, maze and wall drawing, ray probing, player movement rules
//! and RGBA textures.

pub mod framebuffer;
pub mod glyphs;
pub mod scene;
pub mod caster;
pub mod player;
pub mod texture;
pub mod maze;
pub mod game;
