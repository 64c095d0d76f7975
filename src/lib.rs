//! Decoding and encoding of network telemetry streams: monitoring messages
//! framed by a length field, the per-session context that their negotiation
//! messages establish, and flow export sets read through announced templates.
use vstd::prelude::*;

pub mod bgp;
pub mod bmp;
pub mod codec;
pub mod context;
pub mod error;
pub mod ipfix;
pub mod message;
pub mod peer;
pub mod tlv;
pub mod wire;

verus! {

} // verus!
