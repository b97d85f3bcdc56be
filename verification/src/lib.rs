//! Admission filter for handshake requests.
//!
//! A [`filter::Filter`] decides for each incoming handshake whether it may go on
//! ([`filter::FilterAction::Pass`]), is answered with a cookie
//! ([`filter::FilterAction::SendCookie`]) or is discarded
//! ([`filter::FilterAction::Drop`]). `model` says in mathematical terms what the
//! filter does, and `laws` what follows from it for whole runs of requests. `guarantees` says in
//! plain numbers what callers can rely on.
#![allow(unused_imports)]

pub mod address;
pub mod duration;
pub mod filter;
pub mod guarantees;
pub mod history;
pub mod laws;
pub mod metrics;
pub mod model;
pub mod state;
