//! Command/response driver for an Agilent 6612C bench power supply.
//!
//! The library holds the protocol: how commands are written on the wire, how a
//! reply line is decoded into a typed value, and what one request/reply cycle
//! yields for each read outcome. The serial port itself is driven by the caller.
pub mod decimal;
pub mod lexical;
pub mod command;
pub mod error;
pub mod response;
pub mod exchange;
pub mod params;
