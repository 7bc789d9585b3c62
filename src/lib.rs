//! Data preparation and training control for a letter classifier trained on
//! a directory-per-class PNG dataset.

pub mod labels;
pub mod pixels;
pub mod dataset;
pub mod split;
pub mod training;
