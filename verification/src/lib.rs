//! A scrolling grayscale terrain strip, computed in integers.
//!
//! The strip fills the lower third of a frame. It is drawn in horizontal
//! bands of blocks, and bands and blocks grow towards the bottom of the
//! frame, which makes the strip look as if it receded. Each block is painted
//! in one gray level, taken from a noise field at a point that moves with a
//! camera.
//!
//! The crate decides where the bands and blocks of a frame lie
//! ([`schedule`], [`raster`]), which points a block is made of and which
//! calls paint it ([`paint`]), how the evaluations of the generators at a
//! point become one noise value ([`noise_field`]), which gray level a noise
//! value gets ([`shade`]), and how input events move the camera ([`camera`],
//! [`input`]). It does not evaluate the generators, which compute in
//! floating point, and it opens no window: both are the caller's part.
//!
//! Lengths on the screen are whole pixels. Positions in the noise field are
//! whole world units, ten to a pixel. Noise values are exact fractions.

pub mod camera;
pub mod config;
pub mod input;
pub mod noise_field;
pub mod paint;
pub mod raster;
pub mod roots;
pub mod schedule;
pub mod shade;
