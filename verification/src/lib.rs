//! The core of a hierarchical-deterministic wallet: a signer that derives
//! every secret from one extended private key, and the synchronization of
//! the wallet with an indexing service, written as a state machine that a
//! driver runs.
//!
//! - [`sign`]: the signer and the key material it takes and hands out.
//! - [`watch`]: the synchronization engine, its events, requests and
//!   messages; [`model`] says what each step does, [`trace`] what a sequence
//!   of steps comes to, and [`laws`] what holds of every run.
//! - [`record`]: history and unspent-output records, and how the answers of
//!   the service are filed under the scripts of a window.
//! - [`address`]: the address of an output script.
//! - [`txid`]: transaction identifiers and ascending sets of them, ordered
//!   as [`order`] says.

pub mod address;
pub mod laws;
pub mod model;
pub mod order;
pub mod record;
pub mod trace;
pub mod sign;
pub mod txid;
pub mod watch;
