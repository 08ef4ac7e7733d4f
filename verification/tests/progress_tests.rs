use rusty_backend::progress::{Model, ProgressState, Status, TrackInfo};

fn model_with_widget() -> Model {
    Model {
        progress: Some(ProgressState {
            title: "Playing".to_owned(),
            progress_millis: 0,
            label: "Song Name".to_owned(),
        }),
        current_song: None,
        volume: 75,
        time_pos: 0,
        status: None,
    }
}

// A normal reading updates the bar value, the elapsed/total label (through
// the real duration formatting), and the remembered position.
#[test]
fn progress_update_displays_reading() {
    let mut m = model_with_widget();
    m.progress_update(500, 61, 119);
    assert_eq!(m.time_pos, 61);
    let p = m.progress.as_ref().unwrap();
    assert_eq!(p.progress_millis, 500);
    assert_eq!(p.label, "1m 1s     :     1m 59s ");
    assert_eq!(p.title, "Playing");
    assert_eq!(m.status, None);
}

// The known spurious tuple is ignored entirely: a signal to poll again.
#[test]
fn progress_update_ignores_spurious_tuple() {
    let mut m = model_with_widget();
    m.progress_update(900, 0, 119);
    assert_eq!(m.time_pos, 0);
    assert_eq!(m.progress.as_ref().unwrap().progress_millis, 0);
    assert_eq!(m.progress.as_ref().unwrap().label, "Song Name");
}

// A reading without a duration (an unsupported file) changes nothing.
#[test]
fn progress_update_ignores_zero_duration() {
    let mut m = model_with_widget();
    m.progress_update(400, 10, 0);
    assert_eq!(m.time_pos, 0);
    assert_eq!(m.progress.as_ref().unwrap().progress_millis, 0);
}

// A position at or past the end marks playback stopped and leaves the
// display alone.
#[test]
fn progress_update_marks_stopped_at_end() {
    let mut m = model_with_widget();
    m.progress_update(1000, 119, 119);
    assert_eq!(m.status, Some(Status::Stopped));
    assert_eq!(m.time_pos, 0);
    assert_eq!(m.progress.as_ref().unwrap().progress_millis, 0);
}

// Without a mounted widget the position still advances; the display
// update is dropped.
#[test]
fn progress_update_without_widget() {
    let mut m = model_with_widget();
    m.progress = None;
    m.progress_update(500, 30, 100);
    assert_eq!(m.time_pos, 30);
    assert!(m.progress.is_none());
}

// Remounting gives the fresh widget, then the title from the current
// song: artist and title truncated to 20 characters, volume in decimal.
#[test]
fn progress_reload_with_song() {
    let mut m = model_with_widget();
    m.current_song = Some(TrackInfo {
        artist: Some("An Artist With A Very Long Name".to_owned()),
        title: Some("Tune".to_owned()),
    });
    m.progress_reload();
    let p = m.progress.as_ref().unwrap();
    assert_eq!(p.progress_millis, 0);
    assert_eq!(p.label, "Song Name");
    assert_eq!(p.title, "Playing: An Artist With A Ver - Tune | Volume: 75");
}

#[test]
fn progress_reload_without_song() {
    let mut m = model_with_widget();
    m.progress_update(500, 61, 119);
    m.progress_reload();
    let p = m.progress.as_ref().unwrap();
    assert_eq!(p.title, "Playing");
    assert_eq!(p.progress_millis, 0);
    assert_eq!(p.label, "Song Name");
}

// Missing metadata falls back to the fixed placeholders.
#[test]
fn progress_title_uses_placeholders() {
    let mut m = model_with_widget();
    m.current_song = Some(TrackInfo { artist: None, title: None });
    m.progress_update_title();
    let p = m.progress.as_ref().unwrap();
    assert_eq!(p.title, "Playing: Unknown Artist - Unknown Title | Volume: 75");
}

// Without a current song the title update does nothing.
#[test]
fn progress_title_without_song() {
    let mut m = model_with_widget();
    m.progress_update_title();
    assert_eq!(m.progress.as_ref().unwrap().title, "Playing");
}
