//! Communication and timing for a battery-powered weather node: a driver for a
//! serial-attached esp8266 modem, the reads with a deadline and the matching of reply
//! lines that it rests on, a reader for dhtxx humidity and temperature sensors, and a
//! queue that keeps the newest of the errors that could not be sent.
//!
//! Nothing here touches hardware. Each driver is a state machine that names the next
//! thing for the hardware to do and takes what the hardware answered, so that it can be
//! run on a board, from an interrupt, or against a line that exists in memory only.

pub mod anemometer;
pub mod api;
pub mod at;
pub mod communication;
pub mod conversation;
pub mod decimal;
pub mod dhtxx;
pub mod esp8266;
pub mod latest_queue;
pub mod pattern;
pub mod serial;
pub mod signal;
