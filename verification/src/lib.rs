//! A controller for one global keyboard shortcut that toggles a window between
//! hidden and visible-and-focused.
//!
//! The controller never touches a window or the operating system itself. It
//! decides which request to make of the windowing host next, and the caller
//! supplies the host as a function from a request to the host's reply. Every
//! decision is stated as a contract over the exchange of requests and replies.

pub mod host;
pub mod shortcut;
pub mod toggle;
pub mod update;
pub mod window;
