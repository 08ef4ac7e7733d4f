//! Fixed-point audio amplitudes.
//!
//! An amplitude is stored as a signed fixed-point value: `AMP_ONE` stands for
//! full scale 1.0, `-AMP_ONE` for -1.0. A normalized sample lies in
//! `[-AMP_ONE, AMP_ONE]`. Conversions to the integer PCM widths that output
//! devices consume (16-bit signed and 16-bit unsigned) clamp first and then
//! scale, so that out-of-range sums saturate instead of wrapping.

use vstd::prelude::*;

verus! {

/// Full scale: the fixed-point representation of amplitude 1.0.
pub const AMP_ONE: i64 = 65536;

/// The mathematical clamping rule: values beyond full scale saturate.
pub open spec fn clamp_amp_spec(s: int) -> int {
    if s > AMP_ONE {
        AMP_ONE as int
    } else if s < -AMP_ONE {
        -AMP_ONE as int
    } else {
        s
    }
}

/// Clamp a summed amplitude into the normalized range `[-AMP_ONE, AMP_ONE]`.
pub fn clamp_amp(s: i64) -> (r: i64)
    ensures
        r == clamp_amp_spec(s as int),
{
    if s > AMP_ONE {
        AMP_ONE
    } else if s < -AMP_ONE {
        -AMP_ONE
    } else {
        s
    }
}

/// What a normalized amplitude becomes as a signed 16-bit PCM value:
/// positive amplitudes scale onto `0..=32767`, negative ones onto
/// `-32768..=-1`, so both full-scale endpoints are reached exactly.
pub open spec fn amp_to_i16_spec(s: int) -> int {
    let c = clamp_amp_spec(s);
    if c >= 0 {
        (c * 32767) / 65536
    } else {
        -(((-c) * 32768) / 65536)
    }
}

/// What a normalized amplitude becomes as an unsigned 16-bit PCM value:
/// the range `[-AMP_ONE, AMP_ONE]` maps onto `0..=65535`, with silence at
/// the midpoint 32767.
pub open spec fn amp_to_u16_spec(s: int) -> int {
    ((clamp_amp_spec(s) + 65536) * 65535) / 131072
}

/// Convert an amplitude to signed 16-bit PCM.
pub fn amp_to_i16(s: i64) -> (r: i16)
    ensures
        r == amp_to_i16_spec(s as int),
{
    let c = clamp_amp(s);
    if c >= 0 {
        ((c * 32767) / 65536) as i16
    } else {
        let m = -c;
        (-((m * 32768) / 65536)) as i16
    }
}

/// Convert an amplitude to unsigned 16-bit PCM.
pub fn amp_to_u16(s: i64) -> (r: u16)
    ensures
        r == amp_to_u16_spec(s as int),
{
    let c = clamp_amp(s);
    (((c + 65536) * 65535) / 131072) as u16
}

/// Silence converts to 0 in signed PCM and to the midpoint in unsigned PCM,
/// which is what an output device is fed when no sample is available.
pub proof fn lemma_silence_pcm()
    ensures
        amp_to_i16_spec(0) == 0,
        amp_to_u16_spec(0) == 32767,
{
}

} // verus!
