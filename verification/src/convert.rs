//! Per-source format conversion.
//!
//! Every registered source is converted to the mixer's target format before
//! its samples are summed. The conversion is specified sample-for-sample:
//!
//! * Channel rule: a mono source is duplicated onto every target channel;
//!   otherwise the first channels are passed through, missing target
//!   channels are filled with silence, and surplus source channels are
//!   dropped.
//! * Rate rule: output frame `k` at the target rate takes the source frame
//!   at position `floor(k * from_rate / to_rate)` — nearest-neighbour
//!   resampling, which keeps pitch in the steady state.
//!
//! A source of `n` complete frames therefore emits exactly
//! `ceil(n * to_rate / from_rate)` frames of `to_channels` samples each:
//! the target format's nominal count, so conversion never starves the
//! output buffer.

use vstd::prelude::*;
use vstd::arithmetic::div_mod::{
    lemma_div_is_ordered, lemma_fundamental_div_mod, lemma_fundamental_div_mod_converse,
};
use crate::sample::AMP_ONE;

verus! {

/// Ceiling division on naturals (the divisor must be positive).
pub open spec fn ceil_div(a: nat, b: nat) -> nat {
    ((a + b - 1) / (b as int)) as nat
}

/// How many output frames a source of `n_in` complete frames yields when
/// resampled from `from_rate` to `to_rate`.
pub open spec fn conv_frames(n_in: nat, from_rate: nat, to_rate: nat) -> nat {
    ceil_div(n_in * to_rate, from_rate)
}

/// Total number of samples the converted source emits.
pub open spec fn conv_len(
    input_len: nat,
    from_ch: nat,
    from_rate: nat,
    to_ch: nat,
    to_rate: nat,
) -> nat {
    conv_frames(input_len / from_ch, from_rate, to_rate) * to_ch
}

/// The `k`-th sample of the converted stream (interleaved target frames).
pub open spec fn conv_sample(
    input: Seq<i64>,
    from_ch: nat,
    from_rate: nat,
    to_ch: nat,
    to_rate: nat,
    k: nat,
) -> i64 {
    let of = k / to_ch;
    let ch = k % to_ch;
    let inf = (of * from_rate) / to_rate;
    if from_ch == 1 {
        input[inf as int]
    } else if ch < from_ch {
        input[(inf * from_ch + ch) as int]
    } else {
        0
    }
}

/// The whole converted stream, as a finite sequence of target samples.
pub open spec fn converted_seq(
    input: Seq<i64>,
    from_ch: nat,
    from_rate: nat,
    to_ch: nat,
    to_rate: nat,
) -> Seq<i64> {
    Seq::new(
        conv_len(input.len(), from_ch, from_rate, to_ch, to_rate),
        |k: int| conv_sample(input, from_ch, from_rate, to_ch, to_rate, k as nat),
    )
}

/// Well-formedness of a conversion: positive channel counts and rates.
pub open spec fn conv_wf(from_ch: nat, from_rate: nat, to_ch: nat, to_rate: nat) -> bool {
    from_ch >= 1 && from_rate >= 1 && to_ch >= 1 && to_rate >= 1
}

/// All samples of a sequence are normalized amplitudes.
pub open spec fn all_in_range(s: Seq<i64>) -> bool {
    forall|i: int| 0 <= i < s.len() ==> -AMP_ONE <= #[trigger] s[i] <= AMP_ONE
}

/// An output frame index below the converted frame count maps to a source
/// frame index below the source frame count.
pub proof fn lemma_out_frame_in_bounds(of: nat, n_in: nat, from_rate: nat, to_rate: nat)
    requires
        from_rate >= 1,
        to_rate >= 1,
        of < conv_frames(n_in, from_rate, to_rate),
    ensures
        (of * from_rate) / to_rate < n_in,
        of * from_rate < n_in * to_rate,
{
    let a = (n_in * to_rate) as int;
    let fr = from_rate as int;
    let tr = to_rate as int;
    let q = (a + fr - 1) / fr;
    lemma_fundamental_div_mod(a + fr - 1, fr);
    assert(q * fr <= a + fr - 1);
    assert(of + 1 <= q);
    assert((of + 1) * fr <= q * fr) by (nonlinear_arith)
        requires
            of + 1 <= q,
            fr >= 1,
    ;
    assert(of * fr + fr == (of + 1) * fr) by (nonlinear_arith);
    assert(of * fr <= a - 1);
    assert(n_in >= 1) by {
        if n_in == 0 {
            assert(a == 0) by (nonlinear_arith)
                requires
                    n_in == 0,
                    a == n_in * to_rate,
            ;
        }
    }
    assert(a - 1 == tr * (n_in - 1) + (tr - 1)) by (nonlinear_arith)
        requires
            a == n_in * tr,
    ;
    lemma_fundamental_div_mod_converse(a - 1, tr, n_in as int - 1, tr - 1);
    assert((a - 1) / tr == n_in - 1);
    lemma_div_is_ordered(of as int * fr, a - 1, tr);
}

/// A converted sample only reads in-bounds source samples, so conversion of
/// a normalized source stays normalized.
pub proof fn lemma_conv_sample_in_range(
    input: Seq<i64>,
    from_ch: nat,
    from_rate: nat,
    to_ch: nat,
    to_rate: nat,
    k: nat,
)
    requires
        conv_wf(from_ch, from_rate, to_ch, to_rate),
        all_in_range(input),
        k < conv_len(input.len(), from_ch, from_rate, to_ch, to_rate),
    ensures
        -AMP_ONE <= conv_sample(input, from_ch, from_rate, to_ch, to_rate, k) <= AMP_ONE,
{
    lemma_conv_index_bounds(input.len(), from_ch, from_rate, to_ch, to_rate, k);
    let of = k / to_ch;
    let ch = k % to_ch;
    let inf = (of * from_rate) / to_rate;
    if from_ch == 1 {
        assert(inf < input.len());
        assert(-AMP_ONE <= input[inf as int] <= AMP_ONE);
    } else if ch < from_ch {
        assert(inf * from_ch + ch < input.len());
        assert(-AMP_ONE <= input[(inf * from_ch + ch) as int] <= AMP_ONE);
    }
}

/// Index arithmetic behind `conv_sample`: for `k` below the converted
/// length, the source frame index is below the source frame count, and the
/// interleaved source index is below the source length.
pub proof fn lemma_conv_index_bounds(
    input_len: nat,
    from_ch: nat,
    from_rate: nat,
    to_ch: nat,
    to_rate: nat,
    k: nat,
)
    requires
        conv_wf(from_ch, from_rate, to_ch, to_rate),
        k < conv_len(input_len, from_ch, from_rate, to_ch, to_rate),
    ensures
        k / to_ch < conv_frames(input_len / from_ch, from_rate, to_rate),
        ((k / to_ch) * from_rate) / to_rate < input_len / from_ch,
        k % to_ch < from_ch ==> ((k / to_ch) * from_rate) / to_rate * from_ch + k % to_ch
            < input_len,
        input_len / from_ch * from_ch <= input_len,
{
    let n_in = input_len / from_ch;
    let nf = conv_frames(n_in, from_rate, to_rate);
    assert(k < nf * to_ch);
    assert(k / to_ch < nf) by (nonlinear_arith)
        requires
            k < nf * to_ch,
            to_ch >= 1,
    ;
    let of = k / to_ch;
    lemma_out_frame_in_bounds(of, n_in, from_rate, to_rate);
    let inf = (of * from_rate) / to_rate;
    assert(k % to_ch < to_ch) by (nonlinear_arith)
        requires
            to_ch >= 1,
    ;
    assert(inf * from_ch + from_ch <= n_in * from_ch) by (nonlinear_arith)
        requires
            inf < n_in,
            from_ch >= 1,
    ;
    lemma_fundamental_div_mod(input_len as int, from_ch as int);
    assert(n_in * from_ch <= input_len);
    if k % to_ch < from_ch {
        assert(inf * from_ch + k % to_ch < inf * from_ch + from_ch);
        assert(inf * from_ch + k % to_ch < input_len);
    }
}

/// The converted sample count equals the target format's nominal count:
/// `ceil(n * to_rate / from_rate)` frames of `to_ch` samples for a source
/// of `n` complete frames. Conversion neither drops nor invents frames.
pub proof fn lemma_converted_count_matches_target(
    input: Seq<i64>,
    from_ch: nat,
    from_rate: nat,
    to_ch: nat,
    to_rate: nat,
)
    requires
        conv_wf(from_ch, from_rate, to_ch, to_rate),
    ensures
        converted_seq(input, from_ch, from_rate, to_ch, to_rate).len()
            == ceil_div((input.len() / from_ch) * to_rate, from_rate) * to_ch,
{
}

} // verus!
