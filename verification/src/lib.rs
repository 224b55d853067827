//! Date-dependent exponential sums drawn as a desktop picture: the verified core.
//!
//! A run takes a calendar date, sums ten thousand unit-length terms whose
//! phases the date decides, and draws the partial sums as one connected line.
//! This library holds what of that is decided in whole numbers:
//!
//! * [`date`]: the calendar date and the divisors that the generator reads
//!   from it;
//! * [`sequence`]: which terms are summed;
//! * [`binary64`] and [`bounds`]: the bounding box of the partial sums, found
//!   on the bit patterns of their parts;
//! * [`raster`]: the renderer, which draws a path of pixels on a picture;
//! * [`config`] and [`error`]: the settings of a run and the failures of the
//!   renderer.
//!
//! The arithmetic on the numbers themselves is floating point and is done by
//! the program around this library.

pub mod binary64;
pub mod bounds;
pub mod config;
pub mod date;
pub mod error;
pub mod raster;
pub mod sequence;
