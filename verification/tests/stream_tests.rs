use rusty_backend::source::Source;
use rusty_backend::stream::{
    BuildStreamError, DefaultStreamConfigError, DecoderError, Device, DevicesError, Host,
    OutputStream, PlayError, PlayStreamError, SampleFormat, StreamConfig, StreamError,
    StreamRegistry, SupportedConfigRange, SupportedStreamConfigsError, supported_output_formats,
};

fn cfg(channels: u16, rate: u32, fmt: SampleFormat) -> StreamConfig {
    StreamConfig { channels, sample_rate: rate, sample_format: fmt }
}

// Negotiation fallback: the default configuration fails to build, the
// first-ranked candidates fail too, and the second-ranked range's best
// candidate succeeds — that is the stream that comes back, not an error.
#[test]
fn negotiation_falls_back_to_second_ranked_config() {
    let r1 = SupportedConfigRange {
        channels: 2,
        min_sample_rate: 8000,
        max_sample_rate: 48000,
        sample_format: SampleFormat::F32,
    };
    let r2 = SupportedConfigRange {
        channels: 1,
        min_sample_rate: 22050,
        max_sample_rate: 22050,
        sample_format: SampleFormat::I16,
    };
    let working = cfg(1, 22050, SampleFormat::I16);
    let device = Device {
        default_config: Ok(cfg(2, 48000, SampleFormat::F32)),
        supported_configs: Ok(vec![r1, r2]),
        working_configs: vec![working],
        play_ok: true,
    };
    let mut reg = StreamRegistry::new();
    let (out, handle) = OutputStream::try_from_device(&device, &mut reg).unwrap();
    assert_eq!(out.config, working);
    assert_eq!(handle.id, out.id);
    assert_eq!(reg.live.len(), 1);
}

// Device fallback: every configuration of the default device fails, and a
// second device works — the default search succeeds using that device.
#[test]
fn default_search_falls_back_to_other_device() {
    let broken = Device {
        default_config: Ok(cfg(2, 44100, SampleFormat::F32)),
        supported_configs: Ok(vec![SupportedConfigRange {
            channels: 2,
            min_sample_rate: 8000,
            max_sample_rate: 48000,
            sample_format: SampleFormat::F32,
        }]),
        working_configs: vec![],
        play_ok: true,
    };
    let working_cfg = cfg(2, 48000, SampleFormat::I16);
    let good = Device {
        default_config: Ok(working_cfg),
        supported_configs: Ok(vec![]),
        working_configs: vec![working_cfg],
        play_ok: true,
    };
    let broken2 = Device {
        default_config: Ok(cfg(2, 44100, SampleFormat::F32)),
        supported_configs: Ok(vec![]),
        working_configs: vec![],
        play_ok: true,
    };
    let host = Host {
        default_device: Some(broken),
        output_devices: Ok(vec![broken2, good]),
    };
    let mut reg = StreamRegistry::new();
    let (out, _handle) = OutputStream::try_default(&host, &mut reg).unwrap();
    assert_eq!(out.config, working_cfg);
    assert_eq!(reg.live.len(), 1);
}

// When nothing works anywhere, the original failure is preserved: the
// build error of the first device, not the last error seen.
#[test]
fn fruitless_search_preserves_original_error() {
    let broken = Device {
        default_config: Ok(cfg(2, 44100, SampleFormat::F32)),
        supported_configs: Ok(vec![]),
        working_configs: vec![],
        play_ok: true,
    };
    let unreadable = Device {
        default_config: Err(DefaultStreamConfigError::DeviceNotAvailable),
        supported_configs: Err(SupportedStreamConfigsError::DeviceNotAvailable),
        working_configs: vec![],
        play_ok: true,
    };
    let host = Host {
        default_device: Some(broken),
        output_devices: Ok(vec![unreadable]),
    };
    let mut reg = StreamRegistry::new();
    let err = OutputStream::try_default(&host, &mut reg).unwrap_err();
    assert_eq!(
        err,
        StreamError::BuildStreamError(BuildStreamError::StreamConfigNotSupported)
    );
    assert_eq!(reg.live.len(), 0);
}

#[test]
fn no_default_device_is_no_device() {
    let host = Host { default_device: None, output_devices: Ok(vec![]) };
    let mut reg = StreamRegistry::new();
    let err = OutputStream::try_default(&host, &mut reg).unwrap_err();
    assert_eq!(err, StreamError::NoDevice);
}

#[test]
fn devices_enumeration_failure_preserves_original_error() {
    let broken = Device {
        default_config: Err(DefaultStreamConfigError::StreamTypeNotSupported),
        supported_configs: Ok(vec![]),
        working_configs: vec![],
        play_ok: true,
    };
    let host = Host {
        default_device: Some(broken),
        output_devices: Err(DevicesError::BackendSpecific),
    };
    let mut reg = StreamRegistry::new();
    let err = OutputStream::try_default(&host, &mut reg).unwrap_err();
    assert_eq!(
        err,
        StreamError::DefaultStreamConfigError(DefaultStreamConfigError::StreamTypeNotSupported)
    );
}

#[test]
fn unreportable_supported_configs_surface_as_such() {
    let device = Device {
        default_config: Ok(cfg(2, 44100, SampleFormat::F32)),
        supported_configs: Err(SupportedStreamConfigsError::BackendSpecific),
        working_configs: vec![],
        play_ok: true,
    };
    let mut reg = StreamRegistry::new();
    let err = OutputStream::try_from_device(&device, &mut reg).unwrap_err();
    assert_eq!(
        err,
        StreamError::SupportedStreamConfigsError(SupportedStreamConfigsError::BackendSpecific)
    );
}

#[test]
fn refused_play_surfaces_as_play_error() {
    let working_cfg = cfg(2, 44100, SampleFormat::F32);
    let device = Device {
        default_config: Ok(working_cfg),
        supported_configs: Ok(vec![]),
        working_configs: vec![working_cfg],
        play_ok: false,
    };
    let mut reg = StreamRegistry::new();
    let err = OutputStream::try_from_device(&device, &mut reg).unwrap_err();
    assert_eq!(err, StreamError::PlayStreamError(PlayStreamError::DeviceNotAvailable));
    assert_eq!(reg.live.len(), 0);
}

// The candidate list: ranges sorted by the default-likeness heuristic
// (stereo float first), each expanded to max rate, the canonical rate if
// strictly inside, then min rate.
#[test]
fn candidate_order_follows_ranking() {
    let mono = SupportedConfigRange {
        channels: 1,
        min_sample_rate: 8000,
        max_sample_rate: 8000,
        sample_format: SampleFormat::U16,
    };
    let stereo = SupportedConfigRange {
        channels: 2,
        min_sample_rate: 8000,
        max_sample_rate: 48000,
        sample_format: SampleFormat::F32,
    };
    let device = Device {
        default_config: Ok(cfg(2, 48000, SampleFormat::F32)),
        supported_configs: Ok(vec![mono, stereo]),
        working_configs: vec![],
        play_ok: true,
    };
    let cands = supported_output_formats(&device).unwrap();
    assert_eq!(
        cands,
        vec![
            cfg(2, 48000, SampleFormat::F32),
            cfg(2, 44100, SampleFormat::F32),
            cfg(2, 8000, SampleFormat::F32),
            cfg(1, 8000, SampleFormat::U16),
            cfg(1, 8000, SampleFormat::U16),
        ]
    );
}

// Playing through a handle reaches the live mixer; once the owning stream
// is dropped the handle fails gracefully with NoDevice.
#[test]
fn handle_plays_until_owner_dropped() {
    let working_cfg = cfg(2, 44100, SampleFormat::F32);
    let device = Device {
        default_config: Ok(working_cfg),
        supported_configs: Ok(vec![]),
        working_configs: vec![working_cfg],
        play_ok: true,
    };
    let mut reg = StreamRegistry::new();
    let (out, handle) = OutputStream::try_from_device(&device, &mut reg).unwrap();
    let handle2 = handle.clone();
    assert_eq!(handle2.play_raw(&mut reg, Source::constant(2, 44100, 100, 2)), Ok(()));
    let samples = reg.fill_output(&out, 6).unwrap();
    assert_eq!(samples, vec![100, 100, 100, 100, 0, 0]);
    reg.drop_stream(out);
    assert_eq!(
        handle.play_raw(&mut reg, Source::constant(2, 44100, 100, 2)),
        Err(PlayError::NoDevice)
    );
}

#[test]
fn fill_output_misses_after_drop() {
    let working_cfg = cfg(1, 8000, SampleFormat::I16);
    let device = Device {
        default_config: Ok(working_cfg),
        supported_configs: Ok(vec![]),
        working_configs: vec![working_cfg],
        play_ok: true,
    };
    let mut reg = StreamRegistry::new();
    let (out, _handle) = OutputStream::try_from_device(&device, &mut reg).unwrap();
    assert!(reg.fill_output(&out, 3).is_some());
    let stale = OutputStream { id: out.id, config: out.config };
    reg.drop_stream(out);
    assert!(reg.fill_output(&stale, 3).is_none());
}

// The error wrappers carry the underlying reason through unchanged.
#[test]
fn error_conversions() {
    assert_eq!(
        StreamError::from(BuildStreamError::DeviceNotAvailable),
        StreamError::BuildStreamError(BuildStreamError::DeviceNotAvailable)
    );
    assert_eq!(
        StreamError::from(DefaultStreamConfigError::BackendSpecific),
        StreamError::DefaultStreamConfigError(DefaultStreamConfigError::BackendSpecific)
    );
    assert_eq!(
        StreamError::from(SupportedStreamConfigsError::InvalidArgument),
        StreamError::SupportedStreamConfigsError(SupportedStreamConfigsError::InvalidArgument)
    );
    assert_eq!(
        StreamError::from(PlayStreamError::BackendSpecific),
        StreamError::PlayStreamError(PlayStreamError::BackendSpecific)
    );
    assert_eq!(
        PlayError::from(DecoderError::UnrecognizedFormat),
        PlayError::DecoderError(DecoderError::UnrecognizedFormat)
    );
}

// A play failure is isolated: what was already registered keeps playing.
#[test]
fn failed_play_leaves_playback_alone() {
    let working_cfg = cfg(1, 44100, SampleFormat::F32);
    let device = Device {
        default_config: Ok(working_cfg),
        supported_configs: Ok(vec![]),
        working_configs: vec![working_cfg],
        play_ok: true,
    };
    let mut reg = StreamRegistry::new();
    let (out, handle) = OutputStream::try_from_device(&device, &mut reg).unwrap();
    handle.play_raw(&mut reg, Source::constant(1, 44100, 7, 4)).unwrap();
    let ghost_handle = rusty_backend::stream::OutputStreamHandle { id: out.id + 1000 };
    assert_eq!(
        ghost_handle.play_raw(&mut reg, Source::constant(1, 44100, 9, 4)),
        Err(PlayError::NoDevice)
    );
    assert_eq!(reg.fill_output(&out, 2).unwrap(), vec![7, 7]);
}
