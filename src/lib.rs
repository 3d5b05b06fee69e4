//! Lighting control for per-key RGB keyboards that take vendor HID reports:
//! the command transport and its profile state, the color parameters and
//! gradients that effects are built from, and the map from the key grid to
//! LED indices.
pub mod color;
pub mod protocol;
pub mod number;
pub mod gradient;
pub mod color_param;
pub mod geometry;
pub mod effects;
pub mod keyboard;
pub mod cli;
pub mod screen;
pub mod plan;
