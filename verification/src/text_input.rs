//! The `zwp_text_input_v3` state of a seat.
//!
//! Clients fill in pending state request by request and apply it with `commit`. An applied
//! commit is passed on to the input method: to a Wayland input method through its protocol
//! object, and to an input method that is part of the compositor as a sequence of events.
//!
//! - [`protocol`] holds the requests, events and messages of the protocol.
//! - [`state`] is the text-input state of a seat, [`handle`] the operations on it.
//! - [`request`] handles what clients ask for.
//! - [`state_laws`] and [`request_laws`] say what both come down to.
//! - [`laws`] and [`histories`] hold what follows: for the effects of one request, and over time.
pub mod handle;
pub mod histories;
pub mod laws;
pub mod protocol;
pub mod request;
pub mod request_laws;
pub mod state;
pub mod state_laws;
