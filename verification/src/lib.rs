//! Continuous system-audio capture core: loopback device selection, stream
//! format negotiation, realtime downmix and chunking of PCM samples, capture
//! session lifecycle, and encoding of completed chunks for delivery.

pub mod chunk;
pub mod device;
pub mod emit;
pub mod format;
pub mod session;
