//! A simulator for a rotating star whose visible disk carries a
//! time-evolving population of dark or bright active regions, predicting
//! the disk-integrated flux, the apparent radial velocity, and the line
//! bisector that a spectrograph would measure.
//!
//! All quantities are carried as fixed-point integers: a value `v` stands
//! for the real number `v / 1_000_000`.

pub mod config;
pub mod fx;
pub mod line;
pub mod profile;
pub mod region;
pub mod sim;
pub mod star;
pub mod trig;
