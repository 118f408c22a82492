//! Rental-property cost tracking.
//!
//! The library keeps a list of rental-property entries (beds, baths,
//! deposits, monthly costs), derives the total rent and the per-occupant
//! rent splits from the inputs, sorts entries by any column with a stable
//! order, and reads and writes the JSON document the data set is kept in.
//!
//! Money is held in integer cents; the derived rent splits are held in
//! twelfths of a cent, so dividing a total by 2, 3 or 4 is exact.

pub mod codec;
pub mod digits;
pub mod entry;
pub mod fields;
pub mod sort;
pub mod store;
pub mod text;
