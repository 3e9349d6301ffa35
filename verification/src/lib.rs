//! Discrete-event simulator of a cellular network of capacity-bounded base
//! stations that admit, serve, redirect, and drop transient users, while
//! stations power up and down to trade energy for capacity.
//!
//! The engine advances a logical clock in microseconds. Every quantity the
//! engine decides on is an integer: rates are carried in millionths
//! (`lambda_micro`), powers in milliwatts, and energy integrals in
//! milliwatt-microseconds, so all control decisions are exact.

pub mod config;
pub mod sampling;
pub mod pool;
pub mod user;
pub mod eventlog;
pub mod basestation;
pub mod wave;
pub mod sim_container;
