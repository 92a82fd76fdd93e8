//! A status-broadcast hub: devices report a discrete status, the hub tracks
//! identity, last-known status and liveness, and emits text announcements for
//! every state change, to be fanned out to all connected observers.

pub mod device;
pub mod hub;
pub mod laws;
pub mod ident;
pub mod json;
pub mod msgs;
pub mod parse;
pub mod status;
