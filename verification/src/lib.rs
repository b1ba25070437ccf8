//! Verified core of the Umbra Exchange threat-intelligence protocol.

pub mod tables;
pub mod accumulator;
pub mod text;
pub mod ip;
pub mod indicator_kind;
pub mod stix;
pub mod misp;
pub mod field;
pub mod poseidon;
pub mod merkle;
pub mod indicator;
pub mod observation;
pub mod encoding;
pub mod relay;
pub mod psi;
pub mod curve;
pub mod ceremony;
pub mod setup;
pub mod phase2;
pub mod phase1;
pub mod bridge;
