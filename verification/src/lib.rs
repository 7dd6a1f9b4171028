//! Conversion of raster and animated images into character grids, and the
//! layout of those grids for a terminal or for a re-encoded image.

pub mod convert_img;
pub mod img_out;
pub mod pixels;
pub mod utils;
