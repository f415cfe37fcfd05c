//! Integer core of a software renderer for a small solar-system scene.
//!
//! Everything here works on whole numbers: packed colours, pixel indices,
//! depth keys, line stepping, and the text formats read and written around
//! the renderer. Every function carries a contract that Verus proves.
//!
//! - [`screen`]: the screen, pixel indices and the depth test.
//! - [`depth`]: depth keys for depths measured as binary32 numbers.
//! - [`bresenham`]: the pixels of a line, in closed form and step by step.
//! - [`line`], [`sphere`], [`ship`]: the depth-tested primitives.
//! - [`skybox`], [`orbit`]: the base layer, drawn without a depth test.
//! - [`color`], [`framebuffer`], [`triangle`], [`obj`]: still images of
//!   triangle meshes.

pub mod bresenham;
pub mod color;
pub mod depth;
pub mod framebuffer;
pub mod line;
pub mod obj;
pub mod orbit;
pub mod screen;
pub mod ship;
pub mod skybox;
pub mod sphere;
pub mod triangle;
