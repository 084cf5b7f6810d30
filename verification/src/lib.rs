//! Strip charts in a row of characters, such as `....|.....A..B...`.
//!
//! A [`RoundingColumnizer`] turns a value into the number of a column, an
//! [`AsciiStripChart`] draws marks for values into a row of bytes and takes
//! them off again, and the [`Scaler`]s scale values by fixed coefficients.
//! Values are integers in a unit of the caller's choice.

pub mod rounding;
pub mod columnizer;
pub mod chart;
pub mod scaler;

pub use crate::chart::AsciiStripChart;
pub use crate::columnizer::Columnizer;
pub use crate::columnizer::RoundingColumnizer;
pub use crate::scaler::IdentityScaler;
pub use crate::scaler::IntScaler;
pub use crate::scaler::Scaler;
pub use crate::scaler::ShiftScaler;
