//! Backend logic for a desktop tool that talks to a FaultyCat fault-injection
//! device over a serial link.
//!
//! The crate verifies the device-independent logic: the session life cycle
//! (connect, disconnect, one exchange at a time), the bounded FIFO history of
//! received text lines, the line filter that drops blank lines and echoed
//! commands, and the classification of enumerated ports. The serial I/O
//! itself (opening a port, reading and writing bytes) is performed by the
//! surrounding application, which hands the received bytes to this crate.

pub mod history;
pub mod ports;
pub mod session;
