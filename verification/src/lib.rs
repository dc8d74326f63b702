//! Radioband: the logic of a browser-based RTL-SDR receiver, verified.

pub mod arithmetic;
pub mod colour;
pub mod config;
pub mod demod;
pub mod demodulate;
pub mod display;
pub mod dongle;
pub mod exact;
pub mod filter;
pub mod mock;
pub mod number;
pub mod operation;
pub mod pipeline;
pub mod receiver;
pub mod registers;
pub mod regular;
pub mod spectrum;
pub mod transfer;
pub mod tuner;
pub mod ui;
pub mod waterfall;
pub mod wire;
pub mod worker;
