//! The wire codec: RESP frames, typed commands and the snapshot payload.

pub mod command;
pub mod number;
pub mod rdb;
pub mod resp;
pub mod roundtrip;
pub mod spelling;
