//! A client for the Golioth LightDB cloud store.
//!
//! The library builds the CoAP messages that read, write and observe values in LightDB, keeps
//! track of the requests that wait for a response, and hands each response to the request that
//! carries its token. It does no I/O: the application sends the bytes that it is given and passes
//! back the bytes that arrive.

pub mod golioth;
pub mod laws;
pub mod packet;
pub mod requests;
pub mod signal;
pub mod utils;

use vstd::prelude::*;

pub use golioth::Golioth;
pub use requests::{register_request, request_wait_complete, PendingRequest};
pub use signal::get_signal_strength;

verus! {

/// Enum for light_db write types
#[derive(Debug)]
pub enum LightDBType {
    State,
    Stream,
}

} // verus!
