//! Radiocarbon calibration: the decisions about calendar years.
//!
//! A measured radiocarbon age, with its Gaussian measurement error, is turned
//! into a distribution over calendar years by comparing it against a
//! calibration curve. This crate holds every part of that procedure which is
//! decided on integers, and proves it:
//!
//! - where a calendar year is read in a curve tabulated at coarse steps, and
//!   at which share between two tabulated years (`interp`, `calibration`);
//! - which years of a posterior reach the precision threshold, and which
//!   window they span (`c14date`, `caldate`);
//! - the window of a batch, the mode of each date, and the row of the summed
//!   distribution that each density belongs to (`caldate`, `spd`);
//! - the compressed column storage of the same batch as a sparse matrix, and
//!   the terms of its row and column sums (`mat_utils`).
//!
//! Densities and curve values are real numbers, which this crate does not
//! calculate with. Where their order matters, a density is passed in as a
//! `u64` key that grows with the density, key 0 standing for zero. Where they
//! are to be added or scaled, the crate says which numbers go together and
//! leaves the arithmetic to the caller. What is proved about sums is proved
//! for exact arithmetic.

pub mod c14date;
pub mod caldate;
pub mod calibration;
pub mod error;
pub mod interp;
pub mod mat_utils;
pub mod spd;
