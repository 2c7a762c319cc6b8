//! The core of a Breakout game, verified: a generational arena of entities,
//! swept collisions of axis-aligned boxes, and the frame that moves
//! everything, in saturating fixed-point arithmetic throughout.
//!
//! - [`fixed`]: the numbers.
//! - [`math`]: vectors, segments, the crossing of two lines, the swept test.
//! - [`index_vec`]: the arena and its handles.
//! - [`input`]: what the input devices say in a frame.
//! - [`game`]: entities, levels and the frame itself.
//! - [`line`] and [`software_rendering`]: drawing into a buffer of pixels.
//! - [`index_vec_proofs`], [`math_proofs`], [`game_proofs`], [`frame_proofs`],
//!   [`software_rendering_proofs`]: what holds of these for all inputs.

pub mod fixed;
pub mod frame_proofs;
pub mod game;
pub mod game_proofs;
pub mod index_vec;
pub mod index_vec_proofs;
pub mod input;
pub mod line;
pub mod math;
pub mod math_proofs;
pub mod software_rendering;
pub mod software_rendering_proofs;
