//! The focus and text-input state of a Wayland seat.
//!
//! The library decides; it sends nothing itself. Every operation takes the state it works on and
//! a snapshot of what is alive on the display, updates the state, and hands back the protocol
//! messages that are to be sent, in the order in which they are to be sent.
//!
//! - [`objects`] names clients, protocol objects, seats and hooks.
//! - [`keys`] holds keycodes, key states and the wire form of pressed keys.
//! - [`hooks`] holds what a surface remembers of the seats whose keyboard focus it has.
//! - [`hook_laws`] holds what is true of those hooks, whichever seats come and go.
//! - [`keyboard`] is the keyboard of a seat and its `wl_keyboard` objects.
//! - [`text_input`] is the `zwp_text_input_v3` state of a seat.
//! - [`seat`] puts them together: entering, leaving, keys and modifiers.
//! - [`keyboard_laws`] and [`seat_laws`] say what these come down to.
pub mod hook_laws;
pub mod hooks;
pub mod keyboard;
pub mod keyboard_laws;
pub mod keys;
pub mod objects;
pub mod seat;
pub mod seat_laws;
pub mod sequences;
pub mod text_input;
