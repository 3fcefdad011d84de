//! The decision logic of a module player's audio cleanup and of its scope,
//! spectrogram, vinyl and icon displays.
//!
//! Samples and measurements are floating-point numbers outside this crate.
//! Inside it they are IEEE 754 bit patterns (`u32` for single precision, `u64`
//! for double precision). [`float_order`] compares them, limits them and takes
//! their whole part; otherwise they are only moved about.
pub mod float_order;
mod sorting;
pub mod spectrogram;
pub mod stereo;
pub mod upload;
pub mod scope;
pub mod spectro;
pub mod vinyl;
pub mod icon;
pub mod widgets;
pub mod cleanup;
