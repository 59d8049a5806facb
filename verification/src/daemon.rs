//! The daemon: each request is gated behind an approval, then run for its caller.
//!
//! A request is matched against the rules, its caller is measured, and a live
//! window or a fresh approval lets it run. Everything else is refused.
pub mod conns;
pub mod env;
pub mod fulfil;
pub mod gate;
pub mod laws;
pub mod notices;
pub mod pending;
pub mod plan;
pub mod reload;
pub mod reply;
pub mod request;
pub mod sealed;
pub mod sealing;
pub mod serve;
pub mod ssh;
pub mod state;
pub mod unwrap;
pub mod vault;
pub mod watch;

pub use gate::RemotePairingConfig;
pub use state::Core;
