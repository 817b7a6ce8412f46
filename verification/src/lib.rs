//! A weighted color-quantization engine: it reduces the colors observed in a
//! set of images to a small representative palette.
//!
//! The pipeline is: accumulate a dense histogram of 8-bit RGB colors
//! ([`colorcalc::ColorData`]), extract one weighted point per distinct color,
//! then run weighted k-means++ seeding and Lloyd iteration with restarts
//! ([`colorcalc::ColorCalc`]). Colors are carried in fixed-point coordinates
//! ([`colors::Color`]) so that every arithmetic step of the engine is exact
//! and verified. Terminal widgets that present progress keep their layout
//! arithmetic here ([`interface`]); drawing itself is left to the binary.

pub mod colorcalc;
pub mod colors;
pub mod interface;
pub mod rng;
