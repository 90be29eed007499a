//! Conversion of a decoded raster picture into the text of a `.coe` file,
//! the format in which block RAM of an FPGA is given its initial contents.
//!
//! Every pixel becomes one memory word of a fixed width. A word holds a
//! colour code, whose width the [`pixel::ColorMode`] decides, followed by an
//! optional alpha code, whose width the [`pixel::AlphaPolicy`] decides.

pub mod document;
pub mod grid;
pub mod numeral;
pub mod pixel;
pub mod separator;
pub mod source;
pub mod vector;
