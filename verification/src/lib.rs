//! An in-memory key/data engine that speaks RESP: the wire codec, the command
//! dispatcher, the key-value, list and stream stores, the transaction
//! registry and the RDB snapshot loader.

pub mod buffer;
pub mod bytemap;
pub mod clock;
pub mod commands;
pub mod decimal;
pub mod engine;
pub mod glob;
pub mod key_value;
pub mod lists;
pub mod rdb;
pub mod redis;
pub mod resp;
pub mod streams;
pub mod transactions;
pub mod waiters;
