//! Wallpaper cropping for multiple monitor resolutions: crop geometries,
//! aspect ratios, face-aware crop selection, and the steps of adding
//! wallpapers and viewing them.
use vstd::prelude::*;

pub mod app_state;
pub mod aspect_ratio;
pub mod batch;
pub mod cli;
pub mod config;
pub mod cropper;
pub mod faces;
pub mod geometry;
pub mod paths;
pub mod pipeline;
pub mod resolutions;
pub mod shortcuts;
pub mod sorting;
pub mod text;
pub mod wallpapers;

pub use faces::{Bbox, FaceJson};
pub use paths::{filename, filter_images, full_path, is_image, PathBufExt};
pub use sorting::PathBufNumericSort;

verus! {

} // verus!
