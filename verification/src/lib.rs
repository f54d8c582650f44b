//! Verified core of a client for the TDX (通达信) market-data protocol and of a
//! reader for TDX "vipdoc" bar files.

pub mod fixed;
pub mod parse;
pub mod protocol;
pub mod request;
pub mod response;
pub mod server;
pub mod text;
pub mod vipdoc;
