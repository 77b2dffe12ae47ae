//! Audio frames: the model's frame length and 16-bit PCM decoding.
use vstd::prelude::*;

verus! {

/// Samples in one model frame (32 ms at 16 kHz).
pub const MODEL_FRAME_SAMPLES: usize = 512;

/// The model accepts exactly one frame of [`MODEL_FRAME_SAMPLES`] samples.
pub fn is_model_frame(len: usize) -> (b: bool)
    ensures
        b == (len == MODEL_FRAME_SAMPLES),
{
    len == MODEL_FRAME_SAMPLES
}

/// A buffer holds at least one model frame (it is neither empty nor shorter
/// than a frame).
pub fn has_model_frame(len: usize) -> (b: bool)
    ensures
        b == (len >= MODEL_FRAME_SAMPLES),
{
    !(len == 0) && !(len < MODEL_FRAME_SAMPLES)
}

/// The signed 16-bit value of two little-endian bytes.
pub open spec fn le_i16(lo: u8, hi: u8) -> int {
    let v = hi * 256 + lo;
    if v >= 32768 {
        v - 65536
    } else {
        v
    }
}

/// Decodes little-endian 16-bit PCM: each pair of bytes is one sample; a
/// trailing odd byte is ignored.
pub fn samples_from_le_bytes(bytes: &[u8]) -> (samples: Vec<i16>)
    ensures
        samples.len() == bytes.len() / 2,
        forall|i: int| 0 <= i < samples.len() ==>
            #[trigger] samples[i] == le_i16(bytes[2 * i], bytes[2 * i + 1]),
{
    let n = bytes.len() / 2;
    let mut samples: Vec<i16> = Vec::with_capacity(n);
    let mut i: usize = 0;
    while i < n
        invariant
            n == bytes.len() / 2,
            i <= n,
            samples.len() == i,
            forall|j: int| 0 <= j < i ==>
                #[trigger] samples[j] == le_i16(bytes[2 * j], bytes[2 * j + 1]),
        decreases n - i,
    {
        let lo = bytes[2 * i];
        let hi = bytes[2 * i + 1];
        let v: i32 = (hi as i32) * 256 + (lo as i32);
        let s: i16 = if v >= 32768 {
            (v - 65536) as i16
        } else {
            v as i16
        };
        samples.push(s);
        i = i + 1;
    }
    samples
}

} // verus!
