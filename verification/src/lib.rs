//! Core of a colour picker: a fixed-point colour model, the gradient images
//! of the hue strip and the saturation/value plane, and the press/drag/release
//! rules of the two picker widgets.

pub mod color;
pub mod data;
pub mod feedback;
pub mod fixed;
pub mod geometry;
pub mod gradient;
pub mod hex;
pub mod text;
pub mod theorems;
pub mod views;
