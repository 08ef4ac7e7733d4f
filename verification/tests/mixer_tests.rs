use rusty_backend::mixer::Mixer;
use rusty_backend::sample::{amp_to_i16, amp_to_u16, clamp_amp, AMP_ONE};
use rusty_backend::source::Source;

// Mixing two constant sources: 0.5 and 0.3 of full scale on two channels
// into a two-channel target gives 0.8 per channel until the shorter source
// exhausts, then 0.3 alone, then silence.
#[test]
fn mix_two_constant_sources_end_to_end() {
    let half = AMP_ONE / 2; // 0.5
    let threetenths: i64 = 19661; // 0.3 of full scale, rounded
    let mut mixer = Mixer::new(2, 44100);
    mixer.add(Source::constant(2, 44100, half, 2)); // 4 samples
    mixer.add(Source::constant(2, 44100, threetenths, 4)); // 8 samples
    let out = mixer.fill(12);
    let mixed = half + threetenths;
    assert_eq!(
        out,
        vec![
            mixed,
            mixed,
            mixed,
            mixed,
            threetenths,
            threetenths,
            threetenths,
            threetenths,
            0,
            0,
            0,
            0
        ]
    );
    assert_eq!(mixer.active_sources(), 0);
}

// Any number of silent sources mixes to silence at every index.
#[test]
fn silent_sources_mix_to_zero() {
    let mut mixer = Mixer::new(2, 48000);
    for _ in 0..5 {
        mixer.add(Source::silence(2, 48000, 3));
    }
    for _ in 0..6 {
        assert_eq!(mixer.next(), 0);
    }
    // past exhaustion the mixer stays silent
    for _ in 0..4 {
        assert_eq!(mixer.next(), 0);
    }
}

// With no sources registered the mixer produces silence indefinitely and
// never stops yielding samples.
#[test]
fn idle_mixer_never_ends() {
    let mut mixer = Mixer::new(1, 8000);
    let out = mixer.fill(100);
    assert_eq!(out.len(), 100);
    assert!(out.iter().all(|&s| s == 0));
    assert_eq!(mixer.next(), 0);
}

// A source at another channel count and rate emits exactly the target
// format's nominal sample count before silence takes over.
#[test]
fn conversion_emits_nominal_count() {
    // 3 mono frames at 22050 Hz into a stereo 44100 Hz target:
    // ceil(3 * 44100 / 22050) = 6 frames of 2 samples = 12 samples.
    let mut mixer = Mixer::new(2, 44100);
    mixer.add(Source::constant(1, 22050, 1000, 3));
    let out = mixer.fill(14);
    for k in 0..12 {
        assert_eq!(out[k], 1000, "sample {k}");
    }
    assert_eq!(out[12], 0);
    assert_eq!(out[13], 0);
}

// Registering, exhausting, and registering an equivalent source again
// behaves exactly like the first registration.
#[test]
fn reregistration_behaves_identically() {
    let mut mixer = Mixer::new(2, 44100);
    mixer.add(Source::new(2, 44100, vec![10, 20, 30, 40]));
    let first = mixer.fill(2);
    let _ = mixer.fill(10); // exhaust well past the end
    assert_eq!(mixer.active_sources(), 0);
    mixer.add(Source::new(2, 44100, vec![10, 20, 30, 40]));
    let second = mixer.fill(2);
    assert_eq!(first, second);
}

// Summed amplitude beyond full scale is clamped, not wrapped.
#[test]
fn overflowing_sum_is_clamped() {
    let mut mixer = Mixer::new(1, 44100);
    mixer.add(Source::constant(1, 44100, AMP_ONE, 2));
    mixer.add(Source::constant(1, 44100, AMP_ONE, 2));
    assert_eq!(mixer.next(), AMP_ONE);
    let mut mixer2 = Mixer::new(1, 44100);
    mixer2.add(Source::constant(1, 44100, -AMP_ONE, 2));
    mixer2.add(Source::constant(1, 44100, -AMP_ONE, 2));
    assert_eq!(mixer2.next(), -AMP_ONE);
}

// Mono is duplicated onto every target channel.
#[test]
fn mono_upmix_duplicates() {
    let mut mixer = Mixer::new(2, 44100);
    mixer.add(Source::new(1, 44100, vec![5, 7]));
    assert_eq!(mixer.fill(4), vec![5, 5, 7, 7]);
}

// A two-channel source into a three-channel target keeps its channels and
// fills the missing one with silence.
#[test]
fn upmix_pads_with_silence() {
    let mut mixer = Mixer::new(3, 44100);
    mixer.add(Source::new(2, 44100, vec![10, 20]));
    assert_eq!(mixer.fill(3), vec![10, 20, 0]);
}

// Downmixing keeps the first target channels and drops the surplus.
#[test]
fn downmix_drops_surplus_channels() {
    let mut mixer = Mixer::new(1, 44100);
    mixer.add(Source::new(2, 44100, vec![10, 20, 30, 40]));
    assert_eq!(mixer.fill(2), vec![10, 30]);
}

// Upsampling repeats the nearest source frame: output frame k reads
// source frame floor(k * from_rate / to_rate).
#[test]
fn upsampling_nearest_neighbour() {
    let mut mixer = Mixer::new(1, 3);
    mixer.add(Source::new(1, 2, vec![1, 2]));
    assert_eq!(mixer.fill(3), vec![1, 1, 2]);
}

// Downsampling skips source frames by the same rule.
#[test]
fn downsampling_nearest_neighbour() {
    let mut mixer = Mixer::new(1, 2);
    mixer.add(Source::new(1, 4, vec![1, 2, 3, 4]));
    assert_eq!(mixer.fill(2), vec![1, 3]);
}

// A registration in mid-stream does not disturb the position of the
// sources already playing.
#[test]
fn registration_does_not_perturb_others() {
    let mut mixer = Mixer::new(1, 44100);
    mixer.add(Source::new(1, 44100, vec![100, 200, 300]));
    assert_eq!(mixer.next(), 100);
    mixer.add(Source::new(1, 44100, vec![1, 1, 1]));
    assert_eq!(mixer.next(), 201);
    assert_eq!(mixer.next(), 301);
    assert_eq!(mixer.next(), 1);
}

// The PCM renderings of the mixed stream: full scale and silence land on
// the exact integer endpoints and midpoints.
#[test]
fn pcm_renderings() {
    let mut mixer = Mixer::new(1, 44100);
    mixer.add(Source::new(1, 44100, vec![AMP_ONE, -AMP_ONE]));
    assert_eq!(mixer.fill_i16(3), vec![32767, -32768, 0]);
    let mut mixer2 = Mixer::new(1, 44100);
    mixer2.add(Source::new(1, 44100, vec![AMP_ONE, -AMP_ONE]));
    assert_eq!(mixer2.fill_u16(3), vec![65535, 0, 32767]);
}

#[test]
fn sample_conversion_values() {
    assert_eq!(clamp_amp(AMP_ONE + 5), AMP_ONE);
    assert_eq!(clamp_amp(-AMP_ONE - 5), -AMP_ONE);
    assert_eq!(clamp_amp(123), 123);
    assert_eq!(amp_to_i16(0), 0);
    assert_eq!(amp_to_i16(AMP_ONE / 2), 16383);
    assert_eq!(amp_to_i16(-(AMP_ONE / 2)), -16384);
    assert_eq!(amp_to_u16(0), 32767);
}

// A source yields Some until exhausted, then None on every further pull.
#[test]
fn source_exhaustion_is_final() {
    let mut s = Source::new(1, 44100, vec![4, 5]);
    assert_eq!(s.next_sample(), Some(4));
    assert_eq!(s.next_sample(), Some(5));
    assert_eq!(s.next_sample(), None);
    assert_eq!(s.next_sample(), None);
}

// A partially pulled source registers with only its remaining samples.
#[test]
fn partially_pulled_source_registers_remainder() {
    let mut s = Source::new(1, 44100, vec![1, 2, 3]);
    assert_eq!(s.next_sample(), Some(1));
    let mut mixer = Mixer::new(1, 44100);
    mixer.add(s);
    assert_eq!(mixer.fill(3), vec![2, 3, 0]);
}
