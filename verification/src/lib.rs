//! The protocol of GPIO character devices, for programs that request, read,
//! write and watch lines.
//!
//! The kernel speaks two generations of the protocol. This library writes
//! and reads the byte layouts of both (`wire`, `v1`, `v2` and the modules
//! beside them), finds the generation that a chip speaks (`negotiate`),
//! keeps what an open chip says of itself (`chip`), turns the names and
//! offsets that a caller gives into lines on chips (`ident`, `resolve`),
//! follows a reservation of lines from its making to its release
//! (`request`), and splits what the kernel reports of edges into events,
//! counting those that were lost (`events`). The command that reads the
//! values of lines is built on them (`get`), and reads the time to wait
//! as callers write it (`period`).
//!
//! The library touches nothing outside itself: it says which bytes to hand
//! to the kernel, and is told what the kernel answered.

pub mod chip;
pub mod error;
pub mod events;
pub mod get;
pub mod ident;
pub mod laws;
pub mod line;
pub mod negotiate;
pub mod period;
pub mod request;
pub mod resolve;
pub mod v1;
pub mod v1_config;
pub mod v1_laws;
pub mod v2;
pub mod v2_config;
pub mod v2_config_laws;
pub mod v2_data;
pub mod v2_laws;
pub mod wire;
