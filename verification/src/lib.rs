//! Spectral upsampling of RGB images: the model file, the grid lookup and the
//! layout of the spectral cube, with every rule of them stated and proved.
//!
//! A model is a cubic grid of coefficient triples, three grids in one file, one
//! for each channel that can be the largest of a colour. The library reads and
//! writes that file, finds the cell of the grid that a colour falls into and
//! lays out the reflectance samples of an image. Single-precision values pass
//! through it as their bit patterns: it orders and clamps them and never
//! computes with them.

pub mod bands;
pub mod binary32;
pub mod cube;
pub mod engine;
pub mod error;
pub mod format;
pub mod lookup;
pub mod model;
pub mod wire;
