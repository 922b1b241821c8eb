//! Stream format negotiation.
//!
//! A device advertises the capture configurations it supports; the
//! negotiator picks the first one whose samples are 32-bit floats, taken at
//! its maximum supported sample rate. When none is, it falls back to stereo
//! at 48 kHz with default buffer sizing. This is a deliberately simple
//! first-acceptable policy, not an optimal-format search.

use vstd::prelude::*;

verus! {

/// The sample encodings a device may advertise for capture.
#[derive(Clone, Copy, Debug, PartialEq, Eq)]
pub enum SampleKind {
    /// 32-bit float samples, the encoding the capture path prefers.
    F32,
    /// Any other encoding.
    Other,
}

/// One advertised capture configuration: a sample encoding, a channel
/// count, and the supported sample-rate range.
#[derive(Clone, Copy, Debug, PartialEq, Eq)]
pub struct SupportedFormat {
    pub kind: SampleKind,
    pub channels: u16,
    pub min_sample_rate: u32,
    pub max_sample_rate: u32,
}

/// The concrete format a capture session runs with; buffer sizing is left
/// to the backend's default policy.
#[derive(Clone, Copy, Debug, PartialEq, Eq)]
pub struct StreamConfig {
    pub channels: u16,
    pub sample_rate: u32,
}

/// The fallback when no advertised format carries 32-bit float samples:
/// two channels at 48 kHz.
pub open spec fn spec_default_config() -> StreamConfig {
    StreamConfig { channels: 2, sample_rate: 48000 }
}

/// First-acceptable negotiation: the first advertised format whose samples
/// are 32-bit floats, at its maximum sample rate; else the fallback.
pub open spec fn spec_negotiate(formats: Seq<SupportedFormat>) -> StreamConfig
    decreases formats.len(),
{
    if formats.len() == 0 {
        spec_default_config()
    } else if formats[0].kind is F32 {
        StreamConfig { channels: formats[0].channels, sample_rate: formats[0].max_sample_rate }
    } else {
        spec_negotiate(formats.drop_first())
    }
}

/// Pick the session format from the advertised capture configurations.
pub fn negotiate(formats: &Vec<SupportedFormat>) -> (c: StreamConfig)
    ensures
        c == spec_negotiate(formats@),
{
    let mut i: usize = 0;
    proof {
        assert(formats@.skip(0) =~= formats@);
    }
    while i < formats.len()
        invariant
            0 <= i <= formats@.len(),
            spec_negotiate(formats@) == spec_negotiate(formats@.skip(i as int)),
        decreases formats@.len() - i,
    {
        let f = formats[i];
        proof {
            assert(formats@.skip(i as int)[0] == formats@[i as int]);
            assert(formats@.skip(i as int).drop_first() =~= formats@.skip(i as int + 1));
        }
        if matches!(f.kind, SampleKind::F32) {
            return StreamConfig { channels: f.channels, sample_rate: f.max_sample_rate };
        }
        i = i + 1;
    }
    proof {
        assert(formats@.skip(formats@.len() as int) =~= Seq::<SupportedFormat>::empty());
    }
    StreamConfig { channels: 2, sample_rate: 48000 }
}

} // verus!
