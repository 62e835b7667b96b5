//! Interoperability harness logic for a QPACK-style decoder test rig:
//! a length-prefixed binary frame parser, a decode-driver state machine
//! that sequences control and data frames through an external codec,
//! and the directory-convention search that pairs an encoded file with
//! its plaintext reference.

pub mod error;
pub mod numbytes;
pub mod frame;
pub mod driver;
pub mod fspath;
pub mod locate;
pub mod classify;
