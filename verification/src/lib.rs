//! Trust core of a serverless compute platform: a decentralized
//! information-flow-control label algebra, a capability namespace whose
//! entries carry those labels, the dispatch return-code taxonomy with
//! its externally visible response mapping, and a length-prefixed framing
//! layer for the wire protocol.

pub mod buckle;
pub mod codec;
pub mod dent_create;
pub mod dent_open;
pub mod frame;
pub mod fs;
pub mod gate;
pub mod interface;
pub mod message;
