//! Chunk encoding and event assembly.
//!
//! A completed chunk of mono samples is serialized as little-endian 32-bit
//! values, transport-encoded as base64, and wrapped in an event record with
//! its sample rate and its (always mono) channel count. Emission is
//! fire-and-forget: the host forwards the event and swallows delivery
//! failures so the realtime callback is never blocked.

use vstd::prelude::*;

verus! {

/// The nonnegative integer a sample's 32 bits encode (two's complement).
pub open spec fn sample_bits(s: i32) -> int {
    if s >= 0 {
        s as int
    } else {
        s + 0x1_0000_0000
    }
}

/// The four little-endian bytes of one sample.
pub open spec fn le_bytes_of_sample(s: i32) -> Seq<u8> {
    seq![
        (sample_bits(s) % 256) as u8,
        ((sample_bits(s) / 256) % 256) as u8,
        ((sample_bits(s) / 65536) % 256) as u8,
        ((sample_bits(s) / 16777216) % 256) as u8,
    ]
}

/// The little-endian byte serialization of a whole chunk, sample by sample.
pub open spec fn chunk_le_bytes(samples: Seq<i32>) -> Seq<u8>
    decreases samples.len(),
{
    if samples.len() == 0 {
        Seq::empty()
    } else {
        le_bytes_of_sample(samples[0]) + chunk_le_bytes(samples.drop_first())
    }
}

pub proof fn lemma_chunk_le_bytes_push(s: Seq<i32>, x: i32)
    ensures
        chunk_le_bytes(s.push(x)) == chunk_le_bytes(s) + le_bytes_of_sample(x),
    decreases s.len(),
{
    if s.len() == 0 {
        assert(s.push(x).drop_first() =~= s);
        assert(s.push(x)[0] == x);
        assert(chunk_le_bytes(s) == Seq::<u8>::empty());
        assert(chunk_le_bytes(s.push(x)) == le_bytes_of_sample(x) + chunk_le_bytes(s));
        assert(le_bytes_of_sample(x) + chunk_le_bytes(s) =~= chunk_le_bytes(s)
            + le_bytes_of_sample(x));
    } else {
        assert(s.push(x).drop_first() =~= s.drop_first().push(x));
        lemma_chunk_le_bytes_push(s.drop_first(), x);
        assert(chunk_le_bytes(s.push(x)) =~= chunk_le_bytes(s) + le_bytes_of_sample(x));
    }
}

/// Serialization produces exactly four bytes per sample.
pub proof fn lemma_chunk_le_bytes_len(s: Seq<i32>)
    ensures
        chunk_le_bytes(s).len() == 4 * s.len(),
    decreases s.len(),
{
    if s.len() > 0 {
        lemma_chunk_le_bytes_len(s.drop_first());
    }
}

/// Append the four little-endian bytes of one sample.
fn push_sample_le(out: &mut Vec<u8>, s: i32)
    ensures
        final(out)@ == old(out)@ + le_bytes_of_sample(s),
{
    let u: u32 = if s >= 0 {
        s as u32
    } else {
        ((s as i64) + 0x1_0000_0000i64) as u32
    };
    proof {
        assert(u == sample_bits(s));
    }
    out.push((u % 256) as u8);
    out.push(((u / 256) % 256) as u8);
    out.push(((u / 65536) % 256) as u8);
    out.push(((u / 16777216) % 256) as u8);
    proof {
        assert(final(out)@ =~= old(out)@ + le_bytes_of_sample(s));
    }
}

/// Serialize a chunk of mono samples as little-endian 32-bit values.
pub fn encode_samples_le(samples: &Vec<i32>) -> (bytes: Vec<u8>)
    ensures
        bytes@ == chunk_le_bytes(samples@),
        bytes@.len() == 4 * samples@.len(),
{
    let mut bytes: Vec<u8> = Vec::new();
    let mut i: usize = 0;
    proof {
        assert(bytes@ =~= chunk_le_bytes(samples@.take(0)));
    }
    while i < samples.len()
        invariant
            0 <= i <= samples@.len(),
            bytes@ == chunk_le_bytes(samples@.take(i as int)),
        decreases samples@.len() - i,
    {
        let s = samples[i];
        proof {
            assert(samples@.take(i as int + 1) =~= samples@.take(i as int).push(samples@[i as int]));
            lemma_chunk_le_bytes_push(samples@.take(i as int), s);
        }
        push_sample_le(&mut bytes, s);
        i = i + 1;
    }
    proof {
        assert(samples@.take(samples@.len() as int) =~= samples@);
        lemma_chunk_le_bytes_len(samples@);
    }
    bytes
}

/// What base64's standard alphabet with padding encodes a byte sequence to.
pub uninterp spec fn base64_of(bytes: Seq<u8>) -> Seq<char>;

/// Relies on base64's `Engine::encode` with the `STANDARD` engine: the
/// output is a pure function of the input bytes, four characters for every
/// three-byte group, the last group padded.
#[verifier::external_body]
fn b64_encode(bytes: &Vec<u8>) -> (r: String)
    requires
        bytes@.len() <= usize::MAX / 4,
    ensures
        r@ == base64_of(bytes@),
        r@.len() == 4 * ((bytes@.len() + 2) / 3),
{
    base64::Engine::encode(&base64::engine::general_purpose::STANDARD, bytes.as_slice())
}

/// One externally visible capture event: the transport-encoded bytes of one
/// completed chunk, with its sample rate and its channel count (always one
/// after the downmix).
pub struct PcmEvent {
    pub pcm_base64: String,
    pub sample_rate: u32,
    pub channels: u16,
}

/// Assemble the event for one completed chunk already serialized as bytes.
pub fn make_pcm_event(bytes: &Vec<u8>, sample_rate: u32) -> (e: PcmEvent)
    requires
        bytes@.len() <= usize::MAX / 4,
    ensures
        e.pcm_base64@ == base64_of(bytes@),
        e.sample_rate == sample_rate,
        e.channels == 1,
{
    PcmEvent { pcm_base64: b64_encode(bytes), sample_rate, channels: 1 }
}

/// Serialize and transport-encode one completed chunk of mono samples and
/// assemble its event.
pub fn emit_chunk(samples: &Vec<i32>, sample_rate: u32) -> (e: PcmEvent)
    requires
        samples@.len() <= usize::MAX / 16,
    ensures
        e.pcm_base64@ == base64_of(chunk_le_bytes(samples@)),
        e.sample_rate == sample_rate,
        e.channels == 1,
{
    let bytes = encode_samples_le(samples);
    make_pcm_event(&bytes, sample_rate)
}

} // verus!
