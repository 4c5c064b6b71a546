//! Hardware-driver profile matching and reconciliation.
//!
//! Profiles declare which driver packages suit which hardware. The matcher
//! decides which detected devices a profile applies to; the reconciler loads
//! the candidate and installed profile databases and attaches to every
//! device the profiles that match it, best first.

pub mod consts;
pub mod data;
pub mod device;
pub mod document;
pub mod lookup;
pub mod matcher;
pub mod profile;
pub mod ranking;
pub mod text;
pub mod tokens;
pub mod transaction;
