//! A small ray-casting maze renderer: a pixel framebuffer, textures of packed
//! RGB colours, maze collision and ray probes, and the drawing routines that
//! paint the map, the minimap and the textured wall columns.

pub mod framebuffer;
pub mod texture;
pub mod maze;
pub mod caster;
pub mod render;
pub mod game;
