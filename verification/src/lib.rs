//! Occupancy sampling and forecasting core: an opening-hours-aware adaptive
//! scheduler, a weekly schedule model, a rolling multi-week historical window
//! with a persistence codec, and a weighted k-nearest-neighbour predictor.

pub mod auth;
pub mod bignum;
pub mod calendar;
pub mod jsonio;
pub mod regressor;
pub mod schedule;
pub mod sleeper;
pub mod timing;
pub mod window;
pub mod wire;
