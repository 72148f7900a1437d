//! cece: a Burmilla cat that chases the cursor across a Hyprland desktop.
//!
//! This crate is the cat's verified core: its random source and behaviour
//! state machine, the sprite sheet, the pixel compositing of its software
//! renderer, the settings syntax and the audio device's lazy start. The
//! motion, the drawing of toys and beds, and the Wayland plumbing are the
//! program's part.

pub mod bed;
pub mod cat;
pub mod config;
pub mod cursor;
pub mod render;
pub mod sound;
pub mod sprites;
pub mod text;
pub mod toy;
