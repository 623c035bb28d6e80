//! A Modbus master: a driver that runs one request and response at a time over a byte
//! stream, and a register map that lays named, typed values over the four memory spaces of
//! a slave.
//!
//! Frames are built and taken apart by `rmodbus`; `codec` holds the calls into it and what
//! is taken on trust about them. Everything else is verified.
pub mod codec;
pub mod decoding;
pub mod device;
pub mod driver;
pub mod error_kind;
pub mod frame;
pub mod grouping;
pub mod layout;
pub mod line;
pub mod polling;
pub mod request_types;
pub mod writing;
