//! Output streams and device/format negotiation.
//!
//! The hardware audio subsystem is a collaborator that this engine sees
//! through a small capability set: a host that can name its output devices,
//! a device that can report its default and supported configurations and
//! accept or refuse a stream built at a concrete configuration. Here a
//! device is modelled by exactly the plain data those capabilities answer
//! with, so the whole negotiation — ranking, candidate generation, the
//! try-in-order / keep-first-success / remember-first-error combinator, and
//! the fallback across devices — is verified end to end.
//!
//! Stream ownership follows an owner/observer split: a [`StreamRegistry`]
//! stands for the table of live streams, an
//! [`OutputStream`] is the owning handle, and an [`OutputStreamHandle`] is
//! a lookup-only observer that fails gracefully (never crashes) once the
//! owner has been dropped.

use vstd::prelude::*;
use crate::mixer::Mixer;
use crate::source::Source;

verus! {

/// The PCM sample formats the hardware may ask for.
#[derive(Clone, Copy, PartialEq, Eq, Structural, Debug)]
pub enum SampleFormat {
    /// Normalized amplitudes, delivered here as fixed point.
    F32,
    /// Signed 16-bit PCM.
    I16,
    /// Unsigned 16-bit PCM.
    U16,
}

/// A concrete stream configuration a device can be asked to open.
#[derive(Clone, Copy, PartialEq, Eq, Structural, Debug)]
pub struct StreamConfig {
    pub channels: u16,
    pub sample_rate: u32,
    pub sample_format: SampleFormat,
}

impl StreamConfig {
    pub open spec fn wf(&self) -> bool {
        self.channels >= 1 && self.sample_rate >= 1
    }
}

/// A range of configurations a device advertises as supported.
#[derive(Clone, Copy, PartialEq, Eq, Structural, Debug)]
pub struct SupportedConfigRange {
    pub channels: u16,
    pub min_sample_rate: u32,
    pub max_sample_rate: u32,
    pub sample_format: SampleFormat,
}

impl SupportedConfigRange {
    pub open spec fn wf(&self) -> bool {
        self.channels >= 1 && 1 <= self.min_sample_rate <= self.max_sample_rate
    }

    /// The concrete configuration at one rate of this range.
    pub open spec fn at_rate_spec(&self, rate: u32) -> StreamConfig {
        StreamConfig {
            channels: self.channels,
            sample_rate: rate,
            sample_format: self.sample_format,
        }
    }

    /// Pick one sample rate inside this range.
    pub fn at_rate(&self, rate: u32) -> (r: StreamConfig)
        ensures
            r == self.at_rate_spec(rate),
    {
        StreamConfig {
            channels: self.channels,
            sample_rate: rate,
            sample_format: self.sample_format,
        }
    }
}

/// The device could not report its default configuration.
#[derive(Clone, Copy, PartialEq, Eq, Structural, Debug)]
pub enum DefaultStreamConfigError {
    DeviceNotAvailable,
    StreamTypeNotSupported,
    BackendSpecific,
}

/// The device could not report its supported configurations.
#[derive(Clone, Copy, PartialEq, Eq, Structural, Debug)]
pub enum SupportedStreamConfigsError {
    DeviceNotAvailable,
    InvalidArgument,
    BackendSpecific,
}

/// A concrete device+configuration pair failed to open a stream.
#[derive(Clone, Copy, PartialEq, Eq, Structural, Debug)]
pub enum BuildStreamError {
    DeviceNotAvailable,
    StreamConfigNotSupported,
    InvalidArgument,
    BackendSpecific,
}

/// A built stream refused to start playing.
#[derive(Clone, Copy, PartialEq, Eq, Structural, Debug)]
pub enum PlayStreamError {
    DeviceNotAvailable,
    BackendSpecific,
}

/// The host could not enumerate its output devices.
#[derive(Clone, Copy, PartialEq, Eq, Structural, Debug)]
pub enum DevicesError {
    BackendSpecific,
}

/// Why no output stream could be produced.
#[derive(Clone, Copy, PartialEq, Eq, Structural, Debug)]
pub enum StreamError {
    PlayStreamError(PlayStreamError),
    DefaultStreamConfigError(DefaultStreamConfigError),
    BuildStreamError(BuildStreamError),
    SupportedStreamConfigsError(SupportedStreamConfigsError),
    NoDevice,
}

/// A failure of the external decode collaborator, surfaced at play time.
#[derive(Clone, Copy, PartialEq, Eq, Structural, Debug)]
pub enum DecoderError {
    UnrecognizedFormat,
    DecodeFailed,
}

/// Why one play call failed. A failed play never disturbs the playback of
/// sources that are already registered.
#[derive(Clone, Copy, PartialEq, Eq, Structural, Debug)]
pub enum PlayError {
    /// Attempting to decode the audio failed.
    DecoderError(DecoderError),
    /// The output device was lost.
    NoDevice,
}

impl core::convert::From<DefaultStreamConfigError> for StreamError {
    fn from(err: DefaultStreamConfigError) -> Self {
        StreamError::DefaultStreamConfigError(err)
    }
}

impl vstd::std_specs::convert::FromSpecImpl<DefaultStreamConfigError> for StreamError {
    open spec fn obeys_from_spec() -> bool {
        true
    }

    open spec fn from_spec(err: DefaultStreamConfigError) -> Self {
        StreamError::DefaultStreamConfigError(err)
    }
}

impl core::convert::From<SupportedStreamConfigsError> for StreamError {
    fn from(err: SupportedStreamConfigsError) -> Self {
        StreamError::SupportedStreamConfigsError(err)
    }
}

impl vstd::std_specs::convert::FromSpecImpl<SupportedStreamConfigsError> for StreamError {
    open spec fn obeys_from_spec() -> bool {
        true
    }

    open spec fn from_spec(err: SupportedStreamConfigsError) -> Self {
        StreamError::SupportedStreamConfigsError(err)
    }
}

impl core::convert::From<BuildStreamError> for StreamError {
    fn from(err: BuildStreamError) -> Self {
        StreamError::BuildStreamError(err)
    }
}

impl vstd::std_specs::convert::FromSpecImpl<BuildStreamError> for StreamError {
    open spec fn obeys_from_spec() -> bool {
        true
    }

    open spec fn from_spec(err: BuildStreamError) -> Self {
        StreamError::BuildStreamError(err)
    }
}

impl core::convert::From<PlayStreamError> for StreamError {
    fn from(err: PlayStreamError) -> Self {
        StreamError::PlayStreamError(err)
    }
}

impl vstd::std_specs::convert::FromSpecImpl<PlayStreamError> for StreamError {
    open spec fn obeys_from_spec() -> bool {
        true
    }

    open spec fn from_spec(err: PlayStreamError) -> Self {
        StreamError::PlayStreamError(err)
    }
}

impl core::convert::From<DecoderError> for PlayError {
    fn from(err: DecoderError) -> Self {
        PlayError::DecoderError(err)
    }
}

impl vstd::std_specs::convert::FromSpecImpl<DecoderError> for PlayError {
    open spec fn obeys_from_spec() -> bool {
        true
    }

    open spec fn from_spec(err: DecoderError) -> Self {
        PlayError::DecoderError(err)
    }
}

/// The canonical rate tried between a range's extremes.
pub const HZ_44100: u32 = 44100;

/// Rank of a sample format in the default-likeness heuristic.
pub open spec fn format_rank(f: SampleFormat) -> int {
    match f {
        SampleFormat::F32 => 2,
        SampleFormat::I16 => 1,
        SampleFormat::U16 => 0,
    }
}

/// The fixed default-likeness heuristic, encoded as one integer key so
/// that "ranks higher" is plain integer comparison. In falling priority:
/// stereo, richer sample format, mono, more channels, the canonical rate
/// inside the range, a higher maximum rate.
pub open spec fn rank_key(r: SupportedConfigRange) -> int {
    (if r.channels == 2 {
        0x40000000000000int
    } else {
        0int
    }) + format_rank(r.sample_format) * 0x8000000000000 + (if r.channels == 1 {
        0x4000000000000int
    } else {
        0int
    }) + r.channels * 0x200000000 + (if r.min_sample_rate <= HZ_44100 <= r.max_sample_rate {
        0x100000000int
    } else {
        0int
    }) + r.max_sample_rate
}

/// Compute the ranking key of one supported range.
pub fn config_rank_key(r: &SupportedConfigRange) -> (k: u64)
    ensures
        k == rank_key(*r),
{
    let stereo: u64 = if r.channels == 2 { 0x40000000000000 } else { 0 };
    let fmt: u64 = match r.sample_format {
        SampleFormat::F32 => 2,
        SampleFormat::I16 => 1,
        SampleFormat::U16 => 0,
    };
    let mono: u64 = if r.channels == 1 { 0x4000000000000 } else { 0 };
    let canon: u64 = if r.min_sample_rate <= HZ_44100 && HZ_44100 <= r.max_sample_rate {
        0x100000000
    } else {
        0
    };
    stereo + fmt * 0x8000000000000 + mono + (r.channels as u64) * 0x200000000 + canon + (
    r.max_sample_rate as u64)
}

/// Stable insertion of one range into a run already sorted by falling
/// rank: it lands after every range that ranks at least as high.
pub open spec fn insert_ranked(
    x: SupportedConfigRange,
    s: Seq<SupportedConfigRange>,
) -> Seq<SupportedConfigRange>
    decreases s.len(),
{
    if s.len() > 0 && rank_key(x) <= rank_key(s.first()) {
        seq![s.first()] + insert_ranked(x, s.drop_first())
    } else {
        seq![x] + s
    }
}

/// The stable sort of the advertised ranges by falling rank: the order in
/// which configurations are tried.
pub open spec fn sort_ranked(s: Seq<SupportedConfigRange>) -> Seq<SupportedConfigRange>
    decreases s.len(),
{
    if s.len() == 0 {
        s
    } else {
        insert_ranked(s.last(), sort_ranked(s.drop_last()))
    }
}

/// Sorted by falling rank: no range stands after one it outranks.
pub open spec fn sorted_by_rank(s: Seq<SupportedConfigRange>) -> bool {
    forall|i: int, j: int|
        0 <= i <= j < s.len() ==> rank_key(#[trigger] s[j]) <= rank_key(#[trigger] s[i])
}

/// Where `insert_ranked` lands: the first position whose occupant the new
/// element strictly outranks.
pub open spec fn insert_pos(x: SupportedConfigRange, s: Seq<SupportedConfigRange>) -> int
    decreases s.len(),
{
    if s.len() == 0 || rank_key(x) > rank_key(s.first()) {
        0
    } else {
        1 + insert_pos(x, s.drop_first())
    }
}

proof fn lemma_insert_pos_props(x: SupportedConfigRange, s: Seq<SupportedConfigRange>)
    ensures
        0 <= insert_pos(x, s) <= s.len(),
        forall|t: int| 0 <= t < insert_pos(x, s) ==> rank_key(x) <= rank_key(#[trigger] s[t]),
        insert_pos(x, s) < s.len() ==> rank_key(x) > rank_key(s[insert_pos(x, s)]),
    decreases s.len(),
{
    if s.len() == 0 || rank_key(x) > rank_key(s.first()) {
    } else {
        lemma_insert_pos_props(x, s.drop_first());
        assert forall|t: int| 0 <= t < insert_pos(x, s) implies rank_key(x) <= rank_key(
            #[trigger] s[t],
        ) by {
            if t > 0 {
                assert(s[t] == s.drop_first()[t - 1]);
            }
        }
    }
}

/// Inserting into a run sorted by falling rank keeps it sorted.
pub proof fn lemma_insert_ranked_keeps_sorted(
    x: SupportedConfigRange,
    s: Seq<SupportedConfigRange>,
)
    requires
        sorted_by_rank(s),
    ensures
        sorted_by_rank(insert_ranked(x, s)),
{
    let m = insert_pos(x, s);
    lemma_insert_pos_props(x, s);
    lemma_insert_ranked_at(x, s, m);
    let r = insert_ranked(x, s);
    assert forall|i: int, j: int| 0 <= i <= j < r.len() implies rank_key(#[trigger] r[j])
        <= rank_key(#[trigger] r[i]) by {
        if i < m {
            assert(r[i] == s[i]);
        }
        if j < m {
            assert(r[j] == s[j]);
        }
        if i > m {
            assert(r[i] == s[i - 1]);
        }
        if j > m {
            assert(r[j] == s[j - 1]);
        }
    }
}

/// The ranked ordering of the advertised ranges is in fact sorted by
/// falling rank: what negotiation tries first ranks highest.
pub proof fn lemma_sort_ranked_sorted(s: Seq<SupportedConfigRange>)
    ensures
        sorted_by_rank(sort_ranked(s)),
    decreases s.len(),
{
    if s.len() == 0 {
    } else {
        lemma_sort_ranked_sorted(s.drop_last());
        lemma_insert_ranked_keeps_sorted(s.last(), sort_ranked(s.drop_last()));
    }
}

/// Inserting into the ranked run adds exactly the new element: nothing is
/// lost or invented.
pub proof fn lemma_insert_ranked_permutes(x: SupportedConfigRange, s: Seq<SupportedConfigRange>)
    ensures
        insert_ranked(x, s).to_multiset() =~= s.to_multiset().insert(x),
{
    broadcast use vstd::seq_lib::group_to_multiset_ensures;

    let m = insert_pos(x, s);
    lemma_insert_pos_props(x, s);
    lemma_insert_ranked_at(x, s, m);
    let r = insert_ranked(x, s);
    assert(r[m] == x);
    assert(r.remove(m) =~= s);
    assert(r.remove(m).to_multiset() =~= r.to_multiset().remove(x));
    assert(r.contains(x)) by {
        assert(r[m] == x);
    }
    assert(r.to_multiset().count(x) > 0);
    assert forall|a: SupportedConfigRange|
        #[trigger] r.to_multiset().count(a) == s.to_multiset().insert(x).count(a) by {
        if a == x {
            assert(s.to_multiset().count(x) == r.to_multiset().remove(x).count(x));
        } else {
            assert(s.to_multiset().count(a) == r.to_multiset().remove(x).count(a));
        }
    }
}

/// The ranked ordering holds exactly the advertised ranges: a permutation,
/// with ties kept in their advertised order by the stable insertion.
pub proof fn lemma_sort_ranked_permutes(s: Seq<SupportedConfigRange>)
    ensures
        sort_ranked(s).to_multiset() =~= s.to_multiset(),
    decreases s.len(),
{
    broadcast use vstd::seq_lib::group_to_multiset_ensures;

    if s.len() == 0 {
    } else {
        lemma_sort_ranked_permutes(s.drop_last());
        lemma_insert_ranked_permutes(s.last(), sort_ranked(s.drop_last()));
        assert(s.drop_last().push(s.last()) =~= s);
        assert(s.drop_last().push(s.last()).to_multiset() =~= s.drop_last().to_multiset().insert(
            s.last(),
        ));
    }
}

/// Where `insert_ranked` puts the new element: at the first position whose
/// occupant it strictly outranks.
proof fn lemma_insert_ranked_at(
    x: SupportedConfigRange,
    s: Seq<SupportedConfigRange>,
    m: int,
)
    requires
        0 <= m <= s.len(),
        forall|t: int| 0 <= t < m ==> rank_key(x) <= rank_key(#[trigger] s[t]),
        m < s.len() ==> rank_key(x) > rank_key(s[m]),
    ensures
        insert_ranked(x, s) == s.subrange(0, m) + seq![x] + s.skip(m),
    decreases s.len(),
{
    if m == 0 {
        assert(insert_ranked(x, s) =~= s.subrange(0, 0) + seq![x] + s.skip(0));
    } else {
        assert(rank_key(x) <= rank_key(s[0]));
        lemma_insert_ranked_at(x, s.drop_first(), m - 1);
        assert(s.drop_first().subrange(0, m - 1) =~= s.subrange(1, m));
        assert(s.drop_first().skip(m - 1) =~= s.skip(m));
        assert(seq![s.first()] + (s.subrange(1, m) + seq![x] + s.skip(m)) =~= s.subrange(0, m)
            + seq![x] + s.skip(m));
    }
}

/// Insert one range into a vector sorted by falling rank, keeping it
/// sorted and stable.
fn insert_sorted(out: &mut Vec<SupportedConfigRange>, x: SupportedConfigRange)
    ensures
        final(out)@ == insert_ranked(x, old(out)@),
{
    let kx = config_rank_key(&x);
    let mut idx: usize = 0;
    while idx < out.len()
        invariant_except_break
            idx <= out@.len(),
            kx == rank_key(x),
            out@ == old(out)@,
            forall|t: int| 0 <= t < idx ==> rank_key(x) <= rank_key(#[trigger] out@[t]),
        ensures
            idx <= out@.len(),
            out@ == old(out)@,
            forall|t: int| 0 <= t < idx ==> rank_key(x) <= rank_key(#[trigger] out@[t]),
            idx < out@.len() ==> rank_key(x) > rank_key(out@[idx as int]),
        decreases out@.len() - idx,
    {
        let ki = config_rank_key(&out[idx]);
        if kx > ki {
            break;
        }
        idx = idx + 1;
    }
    proof {
        lemma_insert_ranked_at(x, out@, idx as int);
    }
    out.insert(idx, x);
    proof {
        assert(out@ =~= old(out)@.subrange(0, idx as int) + seq![x] + old(out)@.skip(idx as int));
    }
}

/// Sort the advertised ranges by the default-likeness heuristic, best
/// first; equal ranks keep their order.
pub fn sort_by_rank(input: Vec<SupportedConfigRange>) -> (out: Vec<SupportedConfigRange>)
    ensures
        out@ == sort_ranked(input@),
{
    let mut out: Vec<SupportedConfigRange> = Vec::new();
    let mut i: usize = 0;
    proof {
        assert(input@.take(0) =~= Seq::<SupportedConfigRange>::empty());
    }
    while i < input.len()
        invariant
            i <= input@.len(),
            out@ == sort_ranked(input@.take(i as int)),
        decreases input@.len() - i,
    {
        insert_sorted(&mut out, input[i]);
        i = i + 1;
        proof {
            assert(input@.take(i as int).drop_last() =~= input@.take(i as int - 1));
            assert(input@.take(i as int).last() == input@[i as int - 1]);
        }
    }
    proof {
        assert(input@.take(input@.len() as int) =~= input@);
    }
    out
}

/// The candidate rates tried for one supported range, in priority order:
/// its maximum rate, the canonical rate if it lies strictly inside the
/// range, then its minimum rate.
pub open spec fn candidates_of(r: SupportedConfigRange) -> Seq<StreamConfig> {
    seq![r.at_rate_spec(r.max_sample_rate)] + (if r.min_sample_rate < HZ_44100
        < r.max_sample_rate {
        seq![r.at_rate_spec(HZ_44100)]
    } else {
        Seq::<StreamConfig>::empty()
    }) + seq![r.at_rate_spec(r.min_sample_rate)]
}

/// All candidate configurations of a run of ranges, in order.
pub open spec fn candidate_list(rs: Seq<SupportedConfigRange>) -> Seq<StreamConfig>
    decreases rs.len(),
{
    if rs.len() == 0 {
        Seq::empty()
    } else {
        candidates_of(rs.first()) + candidate_list(rs.drop_first())
    }
}

proof fn lemma_candidate_list_push(rs: Seq<SupportedConfigRange>, x: SupportedConfigRange)
    ensures
        candidate_list(rs.push(x)) == candidate_list(rs) + candidates_of(x),
    decreases rs.len(),
{
    if rs.len() == 0 {
        assert(rs.push(x).drop_first() =~= rs);
        assert(candidate_list(rs.push(x)) =~= candidate_list(rs) + candidates_of(x));
    } else {
        assert(rs.push(x).drop_first() =~= rs.drop_first().push(x));
        lemma_candidate_list_push(rs.drop_first(), x);
        assert(candidate_list(rs.push(x)) =~= candidate_list(rs) + candidates_of(x));
    }
}

/// The full ordered candidate list a device's advertised ranges give rise
/// to: ranges sorted by falling rank, then each expanded to its rates.
pub open spec fn ranked_candidates(rs: Seq<SupportedConfigRange>) -> Seq<StreamConfig> {
    candidate_list(sort_ranked(rs))
}

/// Expand the device's advertised ranges into the ordered list of
/// configurations negotiation will try.
pub fn expand_candidates(ranges: Vec<SupportedConfigRange>) -> (out: Vec<StreamConfig>)
    ensures
        out@ == ranked_candidates(ranges@),
{
    let ghost input = ranges@;
    let sorted = sort_by_rank(ranges);
    let mut out: Vec<StreamConfig> = Vec::new();
    let mut i: usize = 0;
    proof {
        assert(sorted@.take(0) =~= Seq::<SupportedConfigRange>::empty());
        assert(out@ =~= candidate_list(sorted@.take(0)));
    }
    while i < sorted.len()
        invariant
            i <= sorted@.len(),
            sorted@ == sort_ranked(input),
            out@ == candidate_list(sorted@.take(i as int)),
        decreases sorted@.len() - i,
    {
        let r = sorted[i];
        out.push(r.at_rate(r.max_sample_rate));
        if r.min_sample_rate < HZ_44100 && HZ_44100 < r.max_sample_rate {
            out.push(r.at_rate(HZ_44100));
        }
        out.push(r.at_rate(r.min_sample_rate));
        proof {
            lemma_candidate_list_push(sorted@.take(i as int), sorted@[i as int]);
            assert(sorted@.take(i as int).push(sorted@[i as int]) =~= sorted@.take(i as int + 1));
            assert(out@ =~= candidate_list(sorted@.take(i as int)) + candidates_of(
                sorted@[i as int],
            ));
        }
        i = i + 1;
    }
    proof {
        assert(sorted@.take(sorted@.len() as int) =~= sorted@);
    }
    out
}

/// An output device, seen through the capability set the engine needs:
/// what it reports as its default configuration, what it advertises as
/// supported, which concrete configurations actually open a stream, and
/// whether a built stream starts playing.
pub struct Device {
    /// The answer to "what is your default output configuration".
    pub default_config: Result<StreamConfig, DefaultStreamConfigError>,
    /// The answer to "which output configurations do you support".
    pub supported_configs: Result<Vec<SupportedConfigRange>, SupportedStreamConfigsError>,
    /// The configurations at which building a stream succeeds.
    pub working_configs: Vec<StreamConfig>,
    /// Whether a built stream accepts the request to start playing.
    pub play_ok: bool,
}

/// Building a stream on this device at this configuration succeeds.
pub open spec fn device_builds(d: Device, c: StreamConfig) -> bool {
    d.working_configs@.contains(c)
}

impl Device {
    pub open spec fn wf(&self) -> bool {
        &&& (self.default_config matches Ok(c) ==> c.wf())
        &&& (self.supported_configs matches Ok(rs) ==> forall|i: int|
            0 <= i < rs@.len() ==> (#[trigger] rs@[i]).wf())
        &&& forall|i: int| 0 <= i < self.working_configs@.len() ==> (
        #[trigger] self.working_configs@[i]).wf()
    }
}

/// The host audio subsystem: a possible default device and the outcome of
/// enumerating all output devices.
pub struct Host {
    pub default_device: Option<Device>,
    pub output_devices: Result<Vec<Device>, DevicesError>,
}

impl Host {
    pub open spec fn wf(&self) -> bool {
        &&& (self.default_device matches Some(d) ==> d.wf())
        &&& (self.output_devices matches Ok(ds) ==> forall|i: int|
            0 <= i < ds@.len() ==> (#[trigger] ds@[i]).wf())
    }
}

/// A live hardware stream, bound to the configuration it was built at.
#[derive(Clone, Copy, PartialEq, Eq, Structural, Debug)]
pub struct Stream {
    /// The negotiated configuration.
    pub config: StreamConfig,
    /// Whether playback has been started.
    pub playing: bool,
    /// Whether the owning device honours the request to play.
    pub play_works: bool,
}

impl Stream {
    /// Ask the stream to start playing.
    pub fn play(&mut self) -> (r: Result<(), PlayStreamError>)
        ensures
            final(self).config == old(self).config,
            final(self).play_works == old(self).play_works,
            old(self).play_works ==> (r is Ok && final(self).playing),
            !old(self).play_works ==> (r == Err::<(), PlayStreamError>(
                PlayStreamError::DeviceNotAvailable,
            ) && final(self).playing == old(self).playing),
    {
        if self.play_works {
            self.playing = true;
            Ok(())
        } else {
            Err(PlayStreamError::DeviceNotAvailable)
        }
    }
}

/// Whether building a stream at `c` succeeds on `device`.
fn device_builds_exec(device: &Device, c: &StreamConfig) -> (r: bool)
    ensures
        r == device_builds(*device, *c),
{
    let mut i: usize = 0;
    while i < device.working_configs.len()
        invariant
            i <= device.working_configs@.len(),
            forall|t: int| 0 <= t < i ==> device.working_configs@[t] != *c,
        decreases device.working_configs@.len() - i,
    {
        if device.working_configs[i] == *c {
            return true;
        }
        i = i + 1;
    }
    false
}

impl Device {
    /// Attempt to open a stream at one concrete configuration. On success
    /// the pair of the stream's fresh mixer and the stream itself comes
    /// back, exactly as the fallback search needs them.
    pub fn new_output_stream_with_format(&self, format: StreamConfig) -> (r: Result<
        (Mixer, Stream),
        BuildStreamError,
    >)
        requires
            format.wf(),
        ensures
            device_builds(*self, format) ==> (r matches Ok(p) && p.0.wf() && p.0.channels
                == format.channels && p.0.sample_rate == format.sample_rate
                && p.0.source_views() == Seq::<Seq<i64>>::empty() && p.1 == (Stream {
                config: format,
                playing: false,
                play_works: self.play_ok,
            })),
            !device_builds(*self, format) ==> r == Err::<(Mixer, Stream), BuildStreamError>(
                BuildStreamError::StreamConfigNotSupported,
            ),
    {
        if device_builds_exec(self, &format) {
            let mixer = Mixer::new(format.channels, format.sample_rate);
            let stream = Stream { config: format, playing: false, play_works: self.play_ok };
            Ok((mixer, stream))
        } else {
            Err(BuildStreamError::StreamConfigNotSupported)
        }
    }
}

/// What negotiation on one device must come to: the default configuration
/// if it opens; otherwise the first of the ranked candidates that opens;
/// otherwise the error that tells why — with a failure to report
/// configurations surfacing as such, and a fruitless search surfacing the
/// original build failure.
pub open spec fn negotiated_config(d: Device) -> Result<StreamConfig, StreamError> {
    match d.default_config {
        Err(e) => Err(StreamError::DefaultStreamConfigError(e)),
        Ok(dc) => if device_builds(d, dc) {
            Ok(dc)
        } else {
            match d.supported_configs {
                Err(e) => Err(StreamError::SupportedStreamConfigsError(e)),
                Ok(rs) => match first_building(d, ranked_candidates(rs@)) {
                    Some(c) => Ok(c),
                    None => Err(StreamError::BuildStreamError(
                        BuildStreamError::StreamConfigNotSupported,
                    )),
                },
            }
        },
    }
}

/// The first candidate in the list that opens a stream on `d`.
pub open spec fn first_building(d: Device, cands: Seq<StreamConfig>) -> Option<StreamConfig>
    decreases cands.len(),
{
    if cands.len() == 0 {
        None
    } else if device_builds(d, cands.first()) {
        Some(cands.first())
    } else {
        first_building(d, cands.drop_first())
    }
}

/// When some candidate builds, the search finds one — and what it finds
/// builds.
pub proof fn lemma_first_building_some(d: Device, cands: Seq<StreamConfig>)
    requires
        exists|i: int| 0 <= i < cands.len() && device_builds(d, #[trigger] cands[i]),
    ensures
        first_building(d, cands) matches Some(c) && device_builds(d, c),
    decreases cands.len(),
{
    let i = choose|i: int| 0 <= i < cands.len() && device_builds(d, #[trigger] cands[i]);
    if device_builds(d, cands.first()) {
    } else {
        assert(i != 0);
        assert(cands.drop_first()[i - 1] == cands[i]);
        lemma_first_building_some(d, cands.drop_first());
    }
}

/// Negotiation fallback: when the default configuration fails to build
/// but some ranked candidate builds, negotiation settles on the first
/// building candidate — it does not fail.
pub proof fn lemma_negotiation_fallback(d: Device, rs: Seq<SupportedConfigRange>)
    requires
        d.default_config matches Ok(dc) && !device_builds(d, dc),
        d.supported_configs matches Ok(rsv) && rsv@ == rs,
        exists|i: int|
            0 <= i < ranked_candidates(rs).len() && device_builds(
                d,
                #[trigger] ranked_candidates(rs)[i],
            ),
    ensures
        negotiated_config(d) matches Ok(c) && device_builds(d, c) && Some(c) == first_building(
            d,
            ranked_candidates(rs),
        ),
{
    lemma_first_building_some(d, ranked_candidates(rs));
}

proof fn lemma_first_building_prefix(d: Device, cands: Seq<StreamConfig>, i: int)
    requires
        0 <= i <= cands.len(),
        forall|t: int| 0 <= t < i ==> !device_builds(d, #[trigger] cands[t]),
    ensures
        first_building(d, cands) == first_building(d, cands.skip(i)),
    decreases i,
{
    if i == 0 {
        assert(cands.skip(0) =~= cands);
    } else {
        lemma_first_building_prefix(d, cands, i - 1);
        assert(cands.skip(i - 1).first() == cands[i - 1]);
        assert(cands.skip(i - 1).drop_first() =~= cands.skip(i));
    }
}

/// All the supported output formats of a device, in the order the
/// fallback search tries them.
pub fn supported_output_formats(device: &Device) -> (r: Result<Vec<StreamConfig>, StreamError>)
    ensures
        device.supported_configs matches Err(e) ==> r == Err::<Vec<StreamConfig>, StreamError>(
            StreamError::SupportedStreamConfigsError(e),
        ),
        device.supported_configs matches Ok(rs) ==> (r matches Ok(v) && v@ == ranked_candidates(
            rs@,
        )),
{
    match &device.supported_configs {
        Err(e) => Err(StreamError::SupportedStreamConfigsError(*e)),
        Ok(rs) => {
            let mut ranges: Vec<SupportedConfigRange> = Vec::new();
            let mut i: usize = 0;
            proof {
                assert(ranges@ =~= rs@.take(0));
            }
            while i < rs.len()
                invariant
                    i <= rs@.len(),
                    ranges@ == rs@.take(i as int),
                decreases rs@.len() - i,
            {
                ranges.push(rs[i]);
                i = i + 1;
                proof {
                    assert(ranges@ =~= rs@.take(i as int));
                }
            }
            proof {
                assert(rs@.take(rs@.len() as int) =~= rs@);
            }
            Ok(expand_candidates(ranges))
        },
    }
}

impl Device {
    /// Negotiate a working stream on this device: try the default
    /// configuration first, then every ranked candidate in order; the
    /// first success wins, and a fruitless search reports the original
    /// failure.
    pub fn try_new_output_stream(&self) -> (r: Result<(Mixer, Stream), StreamError>)
        requires
            self.wf(),
        ensures
            negotiated_config(*self) matches Err(e) ==> r == Err::<(Mixer, Stream), StreamError>(
                e,
            ),
            negotiated_config(*self) matches Ok(c) ==> (r matches Ok(p) && p.0.wf()
                && p.0.channels == c.channels && p.0.sample_rate == c.sample_rate
                && p.0.source_views() == Seq::<Seq<i64>>::empty() && p.1 == (Stream {
                config: c,
                playing: false,
                play_works: self.play_ok,
            })),
    {
        let default_format = match &self.default_config {
            Ok(dc) => *dc,
            Err(e) => {
                return Err(StreamError::DefaultStreamConfigError(*e));
            },
        };
        match self.new_output_stream_with_format(default_format) {
            Ok(p) => Ok(p),
            Err(_build_err) => {
                let cands = match supported_output_formats(self) {
                    Ok(v) => v,
                    Err(e) => {
                        return Err(e);
                    },
                };
                let mut i: usize = 0;
                while i < cands.len()
                    invariant
                        i <= cands@.len(),
                        self.wf(),
                        self.default_config matches Ok(dc) && !device_builds(*self, dc),
                        self.supported_configs matches Ok(rs) && cands@ == ranked_candidates(rs@),
                        forall|t: int| 0 <= t < i ==> !device_builds(*self, #[trigger] cands@[t]),
                    decreases cands@.len() - i,
                {
                    if device_builds_exec(self, &cands[i]) {
                        proof {
                            lemma_first_building_prefix(*self, cands@, i as int);
                        }
                        match self.new_output_stream_with_format(cands[i]) {
                            Ok(p) => {
                                return Ok(p);
                            },
                            Err(_) => {
                                proof {
                                    assert(false);
                                }
                            },
                        }
                    }
                    i = i + 1;
                }
                proof {
                    lemma_first_building_prefix(*self, cands@, cands@.len() as int);
                    assert(cands@.skip(cands@.len() as int) =~= Seq::<StreamConfig>::empty());
                }
                Err(StreamError::BuildStreamError(BuildStreamError::StreamConfigNotSupported))
            },
        }
    }
}

/// One live stream: its identity, its mixer, and the hardware stream.
pub struct LiveStream {
    pub id: u64,
    pub mixer: Mixer,
    pub stream: Stream,
}

/// The table of live output streams. It stands for the shared state that
/// the owning [`OutputStream`] keeps alive and that every
/// [`OutputStreamHandle`] can only look up by identity: once the owner has
/// dropped its stream from the table, the handles' lookups miss and their
/// play calls fail with [`PlayError::NoDevice`] instead of crashing.
pub struct StreamRegistry {
    /// The identity the next stream will get; past ids are never reused.
    pub next_id: u64,
    /// The live streams, oldest first.
    pub live: Vec<LiveStream>,
}

impl StreamRegistry {
    pub open spec fn wf(&self) -> bool {
        &&& forall|i: int|
            0 <= i < self.live@.len() ==> {
                let ls = #[trigger] self.live@[i];
                &&& ls.id < self.next_id
                &&& ls.mixer.wf()
                &&& ls.stream.config.wf()
                &&& ls.mixer.channels == ls.stream.config.channels
                &&& ls.mixer.sample_rate == ls.stream.config.sample_rate
            }
        &&& forall|i: int, j: int|
            0 <= i < j < self.live@.len() ==> (#[trigger] self.live@[i]).id != (
            #[trigger] self.live@[j]).id
    }

    /// Whether a stream with this identity is still live.
    pub open spec fn has_id(&self, id: u64) -> bool {
        exists|i: int| 0 <= i < self.live@.len() && (#[trigger] self.live@[i]).id == id
    }

    /// An empty table: no stream is live yet.
    pub fn new() -> (r: StreamRegistry)
        ensures
            r.wf(),
            r.next_id == 0,
            r.live@.len() == 0,
    {
        StreamRegistry { next_id: 0, live: Vec::new() }
    }

    /// Drop an output stream: it leaves the table, playback over it ends,
    /// and every handle derived from it starts failing gracefully.
    pub fn drop_stream(&mut self, stream: OutputStream)
        requires
            old(self).wf(),
        ensures
            final(self).wf(),
            final(self).next_id == old(self).next_id,
            !final(self).has_id(stream.id),
            old(self).has_id(stream.id) ==> exists|i: int|
                0 <= i < old(self).live@.len() && old(self).live@[i].id == stream.id
                    && final(self).live@ == old(self).live@.remove(i),
            !old(self).has_id(stream.id) ==> final(self).live@ == old(self).live@,
    {
        let mut i: usize = 0;
        while i < self.live.len()
            invariant
                i <= self.live@.len(),
                self.wf(),
                *self == *old(self),
                forall|t: int| 0 <= t < i ==> (#[trigger] self.live@[t]).id != stream.id,
            decreases self.live@.len() - i,
        {
            if self.live[i].id == stream.id {
                self.live.remove(i);
                proof {
                    assert(old(self).live@[i as int].id == stream.id);
                    assert forall|t: int|
                        0 <= t < self.live@.len() implies (#[trigger] self.live@[t]).id
                        != stream.id by {
                        if t < i {
                        } else {
                            assert(self.live@[t] == old(self).live@[t + 1]);
                        }
                    }
                    assert forall|t: int|
                        0 <= t < self.live@.len() implies {
                            let ls = #[trigger] self.live@[t];
                            &&& ls.id < self.next_id
                            &&& ls.mixer.wf()
                            &&& ls.stream.config.wf()
                            &&& ls.mixer.channels == ls.stream.config.channels
                            &&& ls.mixer.sample_rate == ls.stream.config.sample_rate
                        } by {
                        if t < i {
                            assert(self.live@[t] == old(self).live@[t]);
                        } else {
                            assert(self.live@[t] == old(self).live@[t + 1]);
                        }
                    }
                    assert forall|a: int, b: int|
                        0 <= a < b < self.live@.len() implies (#[trigger] self.live@[a]).id != (
                        #[trigger] self.live@[b]).id by {
                        let a2: int = if a < i { a } else { a + 1 };
                        let b2: int = if b < i { b } else { b + 1 };
                        assert(self.live@[a] == old(self).live@[a2]);
                        assert(self.live@[b] == old(self).live@[b2]);
                    }
                }
                return ;
            }
            i = i + 1;
        }
    }
}

/// The owning handle of a live hardware stream. While it exists, playback
/// runs; dropping it (through [`StreamRegistry::drop_stream`]) stops
/// playback and strands every observer handle.
#[derive(Debug)]
pub struct OutputStream {
    /// The identity of the live stream this owner holds.
    pub id: u64,
    /// The configuration negotiation settled on.
    pub config: StreamConfig,
}

/// A clonable, non-owning handle that can submit sources for playback for
/// as long as the owning [`OutputStream`] is alive.
#[derive(Clone, Copy, PartialEq, Eq, Structural, Debug)]

pub struct OutputStreamHandle {
    /// The identity of the stream this handle observes.
    pub id: u64,
}

/// What `try_from_device` must come to: the negotiated configuration if
/// one both builds and starts playing, else the error, with a refusal to
/// play surfacing as such.
pub open spec fn try_from_device_spec(d: Device) -> Result<StreamConfig, StreamError> {
    match negotiated_config(d) {
        Err(e) => Err(e),
        Ok(c) => if d.play_ok {
            Ok(c)
        } else {
            Err(StreamError::PlayStreamError(PlayStreamError::DeviceNotAvailable))
        },
    }
}

/// The shape of a registry after one stream was registered on it.
pub open spec fn registered_one(
    pre: StreamRegistry,
    post: StreamRegistry,
    c: StreamConfig,
) -> bool {
    &&& post.next_id == pre.next_id + 1
    &&& post.live@.len() == pre.live@.len() + 1
    &&& post.live@.drop_last() == pre.live@
    &&& post.live@.last().id == pre.next_id
    &&& post.live@.last().mixer.wf()
    &&& post.live@.last().mixer.channels == c.channels
    &&& post.live@.last().mixer.sample_rate == c.sample_rate
    &&& post.live@.last().mixer.source_views() == Seq::<Seq<i64>>::empty()
    &&& post.live@.last().stream == (Stream { config: c, playing: true, play_works: true })
}

impl OutputStream {
    /// Returns a new stream & handle using the given output device,
    /// registered as live. On failure nothing is registered and the
    /// reason is exactly the negotiation's.
    pub fn try_from_device(device: &Device, reg: &mut StreamRegistry) -> (r: Result<
        (OutputStream, OutputStreamHandle),
        StreamError,
    >)
        requires
            device.wf(),
            old(reg).wf(),
            old(reg).next_id < u64::MAX,
        ensures
            final(reg).wf(),
            try_from_device_spec(*device) matches Err(e) ==> (r == Err::<
                (OutputStream, OutputStreamHandle),
                StreamError,
            >(e) && *final(reg) == *old(reg)),
            try_from_device_spec(*device) matches Ok(c) ==> (r matches Ok(p) && p.0.id
                == old(reg).next_id && p.0.config == c && p.1.id == p.0.id && registered_one(
                *old(reg),
                *final(reg),
                c,
            )),
    {
        let (mixer, mut stream) = match device.try_new_output_stream() {
            Ok(p) => p,
            Err(e) => {
                return Err(e);
            },
        };
        match stream.play() {
            Ok(_) => {},
            Err(e) => {
                return Err(StreamError::PlayStreamError(e));
            },
        }
        let id = reg.next_id;
        let config = stream.config;
        reg.next_id = id + 1;
        reg.live.push(LiveStream { id, mixer, stream });
        proof {
            assert(reg.live@.drop_last() =~= old(reg).live@);
        }
        Ok((OutputStream { id, config }, OutputStreamHandle { id }))
    }

    /// The first device that yields a working stream, tried in order.
    pub open spec fn first_working_device(devs: Seq<Device>) -> Option<StreamConfig>
        decreases devs.len(),
    {
        if devs.len() == 0 {
            None
        } else {
            match try_from_device_spec(devs.first()) {
                Ok(c) => Some(c),
                Err(_) => Self::first_working_device(devs.drop_first()),
            }
        }
    }

    /// What `try_default` must come to: the default device's outcome, and
    /// on its failure the first other device that works — with the
    /// original error preserved when none does.
    pub open spec fn try_default_spec(h: Host) -> Result<StreamConfig, StreamError> {
        match h.default_device {
            None => Err(StreamError::NoDevice),
            Some(d) => match try_from_device_spec(d) {
                Ok(c) => Ok(c),
                Err(e0) => match h.output_devices {
                    Err(_) => Err(e0),
                    Ok(devs) => match Self::first_working_device(devs@) {
                        Some(c) => Ok(c),
                        None => Err(e0),
                    },
                },
            },
        }
    }

    /// Return a new stream & handle using the host's default output
    /// device; on failure fall back to every other output device in turn.
    pub fn try_default(host: &Host, reg: &mut StreamRegistry) -> (r: Result<
        (OutputStream, OutputStreamHandle),
        StreamError,
    >)
        requires
            host.wf(),
            old(reg).wf(),
            old(reg).next_id < u64::MAX,
        ensures
            final(reg).wf(),
            Self::try_default_spec(*host) matches Err(e) ==> (r == Err::<
                (OutputStream, OutputStreamHandle),
                StreamError,
            >(e) && *final(reg) == *old(reg)),
            Self::try_default_spec(*host) matches Ok(c) ==> (r matches Ok(p) && p.0.id
                == old(reg).next_id && p.0.config == c && p.1.id == p.0.id && registered_one(
                *old(reg),
                *final(reg),
                c,
            )),
    {
        let default_device = match &host.default_device {
            None => {
                return Err(StreamError::NoDevice);
            },
            Some(d) => d,
        };
        let original_err = match Self::try_from_device(default_device, reg) {
            Ok(p) => {
                return Ok(p);
            },
            Err(e) => e,
        };
        let devices = match &host.output_devices {
            Err(_) => {
                return Err(original_err);
            },
            Ok(ds) => ds,
        };
        let mut i: usize = 0;
        while i < devices.len()
            invariant
                i <= devices@.len(),
                reg.wf(),
                reg.next_id < u64::MAX,
                *reg == *old(reg),
                host.wf(),
                host.default_device matches Some(dd) && try_from_device_spec(dd) is Err,
                host.output_devices matches Ok(ds) && ds@ == devices@,
                forall|t: int|
                    0 <= t < i ==> try_from_device_spec(#[trigger] devices@[t]) is Err,
            decreases devices@.len() - i,
        {
            match Self::try_from_device(&devices[i], reg) {
                Ok(p) => {
                    proof {
                        Self::lemma_first_working_prefix(devices@, i as int);
                    }
                    return Ok(p);
                },
                Err(_) => {},
            }
            i = i + 1;
        }
        proof {
            Self::lemma_first_working_prefix(devices@, devices@.len() as int);
            assert(devices@.skip(devices@.len() as int) =~= Seq::<Device>::empty());
        }
        Err(original_err)
    }

    /// When some enumerated device yields a working stream, the fallback
    /// search finds one.
    pub proof fn lemma_first_working_some(devs: Seq<Device>)
        requires
            exists|i: int|
                0 <= i < devs.len() && try_from_device_spec(#[trigger] devs[i]) is Ok,
        ensures
            Self::first_working_device(devs) is Some,
        decreases devs.len(),
    {
        let i = choose|i: int|
            0 <= i < devs.len() && try_from_device_spec(#[trigger] devs[i]) is Ok;
        if try_from_device_spec(devs.first()) is Ok {
        } else {
            assert(i != 0);
            assert(devs.drop_first()[i - 1] == devs[i]);
            Self::lemma_first_working_some(devs.drop_first());
        }
    }

    /// Device fallback: when the default device fails outright but some
    /// other enumerated device yields a working stream, the default
    /// search succeeds using one of them.
    pub proof fn lemma_device_fallback(h: Host, devs: Seq<Device>)
        requires
            h.default_device matches Some(d) && try_from_device_spec(d) is Err,
            h.output_devices matches Ok(dsv) && dsv@ == devs,
            exists|i: int|
                0 <= i < devs.len() && try_from_device_spec(#[trigger] devs[i]) is Ok,
        ensures
            Self::try_default_spec(h) is Ok,
    {
        Self::lemma_first_working_some(devs);
    }

    proof fn lemma_first_working_prefix(devs: Seq<Device>, i: int)
        requires
            0 <= i <= devs.len(),
            forall|t: int| 0 <= t < i ==> try_from_device_spec(#[trigger] devs[t]) is Err,
        ensures
            Self::first_working_device(devs) == Self::first_working_device(devs.skip(i)),
        decreases i,
    {
        if i == 0 {
            assert(devs.skip(0) =~= devs);
        } else {
            Self::lemma_first_working_prefix(devs, i - 1);
            assert(devs.skip(i - 1).first() == devs[i - 1]);
            assert(devs.skip(i - 1).drop_first() =~= devs.skip(i));
        }
    }
}

impl OutputStreamHandle {
    /// Plays a source until it ends: look the live stream up by identity
    /// and register the source into its mixer. Registration is isolated —
    /// it never disturbs what is already playing — and once the owning
    /// stream is gone the call fails with `NoDevice` rather than crash.
    pub fn play_raw(&self, reg: &mut StreamRegistry, source: Source) -> (r: Result<
        (),
        PlayError,
    >)
        requires
            old(reg).wf(),
            source.wf(),
        ensures
            final(reg).wf(),
            final(reg).next_id == old(reg).next_id,
            final(reg).live@.len() == old(reg).live@.len(),
            !old(reg).has_id(self.id) ==> (r == Err::<(), PlayError>(PlayError::NoDevice)
                && *final(reg) == *old(reg)),
            old(reg).has_id(self.id) ==> r is Ok,
            forall|t: int|
                0 <= t < old(reg).live@.len() && (#[trigger] old(reg).live@[t]).id != self.id
                    ==> final(reg).live@[t] == old(reg).live@[t],
            forall|t: int|
                0 <= t < old(reg).live@.len() && (#[trigger] old(reg).live@[t]).id == self.id
                    ==> {
                    let pre = old(reg).live@[t];
                    let post = final(reg).live@[t];
                    let c = crate::convert::converted_seq(
                        source.remaining(),
                        source.channels as nat,
                        source.sample_rate as nat,
                        pre.mixer.channels as nat,
                        pre.mixer.sample_rate as nat,
                    );
                    &&& post.id == pre.id
                    &&& post.stream == pre.stream
                    &&& post.mixer.channels == pre.mixer.channels
                    &&& post.mixer.sample_rate == pre.mixer.sample_rate
                    &&& post.mixer.source_views() == if c.len() > 0 {
                        pre.mixer.source_views().push(c)
                    } else {
                        pre.mixer.source_views()
                    }
                },
    {
        let mut i: usize = 0;
        while i < reg.live.len()
            invariant
                i <= reg.live@.len(),
                reg.wf(),
                source.wf(),
                *reg == *old(reg),
                forall|t: int| 0 <= t < i ==> (#[trigger] reg.live@[t]).id != self.id,
            decreases reg.live@.len() - i,
        {
            if reg.live[i].id == self.id {
                let mut ls = reg.live.remove(i);
                proof {
                    assert(old(reg).live@[i as int].mixer.wf());
                }
                ls.mixer.add(source);
                reg.live.insert(i, ls);
                proof {
                    assert(reg.live@ =~= old(reg).live@.update(i as int, reg.live@[i as int]));
                    assert forall|t: int| 0 <= t < reg.live@.len() implies {
                        let ls2 = #[trigger] reg.live@[t];
                        &&& ls2.id < reg.next_id
                        &&& ls2.mixer.wf()
                        &&& ls2.stream.config.wf()
                        &&& ls2.mixer.channels == ls2.stream.config.channels
                        &&& ls2.mixer.sample_rate == ls2.stream.config.sample_rate
                    } by {
                        if t != i {
                            assert(reg.live@[t] == old(reg).live@[t]);
                        }
                    }
                }
                return Ok(());
            }
            i = i + 1;
        }
        Err(PlayError::NoDevice)
    }
}

impl StreamRegistry {
    /// The hardware callback's pull on a live stream: fill a buffer of
    /// `n` samples from its mixer. `None` exactly when the stream is no
    /// longer live.
    pub fn fill_output(&mut self, stream: &OutputStream, n: usize) -> (r: Option<Vec<i64>>)
        requires
            old(self).wf(),
        ensures
            final(self).wf(),
            final(self).next_id == old(self).next_id,
            final(self).live@.len() == old(self).live@.len(),
            !old(self).has_id(stream.id) ==> (r is None && *final(self) == *old(self)),
            old(self).has_id(stream.id) ==> r is Some,
            forall|t: int|
                0 <= t < old(self).live@.len() && (#[trigger] old(self).live@[t]).id != stream.id
                    ==> final(self).live@[t] == old(self).live@[t],
            forall|t: int|
                0 <= t < old(self).live@.len() && (#[trigger] old(self).live@[t]).id == stream.id
                    ==> {
                    let pre = old(self).live@[t];
                    let post = final(self).live@[t];
                    &&& post.id == pre.id
                    &&& post.stream == pre.stream
                    &&& post.mixer.channels == pre.mixer.channels
                    &&& post.mixer.sample_rate == pre.mixer.sample_rate
                    &&& (r matches Some(v) && v@ == crate::mixer::mix_seq(
                        pre.mixer.source_views(),
                        n as nat,
                    ))
                    &&& post.mixer.source_views() == crate::mixer::advance_n(
                        pre.mixer.source_views(),
                        n as nat,
                    )
                },
    {
        let mut i: usize = 0;
        while i < self.live.len()
            invariant
                i <= self.live@.len(),
                self.wf(),
                *self == *old(self),
                forall|t: int| 0 <= t < i ==> (#[trigger] self.live@[t]).id != stream.id,
            decreases self.live@.len() - i,
        {
            if self.live[i].id == stream.id {
                let mut ls = self.live.remove(i);
                proof {
                    assert(old(self).live@[i as int].mixer.wf());
                }
                let out = ls.mixer.fill(n);
                self.live.insert(i, ls);
                proof {
                    assert(self.live@ =~= old(self).live@.update(i as int, self.live@[i as int]));
                    assert forall|t: int| 0 <= t < self.live@.len() implies {
                        let ls2 = #[trigger] self.live@[t];
                        &&& ls2.id < self.next_id
                        &&& ls2.mixer.wf()
                        &&& ls2.stream.config.wf()
                        &&& ls2.mixer.channels == ls2.stream.config.channels
                        &&& ls2.mixer.sample_rate == ls2.stream.config.sample_rate
                    } by {
                        if t != i {
                            assert(self.live@[t] == old(self).live@[t]);
                        }
                    }
                }
                return Some(out);
            }
            i = i + 1;
        }
        None
    }
}

} // verus!
