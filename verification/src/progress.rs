//! The playback progress display model.
//!
//! The terminal widget itself is rendering glue and lives outside this
//! crate; what is modelled and verified here is everything the widget is
//! told: its title line, its progress value (in thousandths), and its
//! label text — and above all the decisions taken on every progress
//! reading polled from the player: which readings are ignored as spurious,
//! when playback is marked stopped, and what exactly is displayed.

use vstd::prelude::*;

verus! {

/// Playback status as the progress logic sees it.
#[derive(Clone, Copy, PartialEq, Eq, Structural, Debug)]
pub enum Status {
    Running,
    Stopped,
    Paused,
}

/// What the progress display needs to know of the current song.
pub struct TrackInfo {
    pub artist: Option<String>,
    pub title: Option<String>,
}

/// The attributes of the mounted progress widget.
pub struct ProgressState {
    /// The widget's title line.
    pub title: String,
    /// Progress through the song, in thousandths of the whole.
    pub progress_millis: u32,
    /// The label on the bar: elapsed and total time.
    pub label: String,
}

/// The model behind the progress display.
pub struct Model {
    /// The mounted progress widget, if any.
    pub progress: Option<ProgressState>,
    /// The song now playing.
    pub current_song: Option<TrackInfo>,
    /// The configured volume.
    pub volume: u16,
    /// The last elapsed-seconds value that was displayed.
    pub time_pos: u64,
    /// Playback status, once known.
    pub status: Option<Status>,
}

/// What `humantime` renders a whole number of seconds as; the text
/// depends on that number alone.
pub uninterp spec fn duration_text_of(secs: u64) -> Seq<char>;

/// The bar label: elapsed time, a fixed separator, total time.
pub open spec fn progress_label(time_pos: u64, duration: u64) -> Seq<char> {
    duration_text_of(time_pos) + "     :     "@ + duration_text_of(duration) + " "@
}

/// Relies on `humantime::format_duration` and std formatting: the elapsed
/// and total seconds, rendered and joined by the fixed separator.
#[verifier::external_body]
fn progress_label_text(time_pos: u64, duration: u64) -> (r: String)
    ensures
        r@ == duration_text_of(time_pos) + "     :     "@ + duration_text_of(duration) + " "@,
{
    format!(
        "{}     :     {} ",
        humantime::format_duration(core::time::Duration::from_secs(time_pos)),
        humantime::format_duration(core::time::Duration::from_secs(duration)),
    )
}

/// A name truncated to at most 20 characters, as the title line shows it.
pub open spec fn truncated_20(s: Seq<char>) -> Seq<char> {
    if s.len() <= 20 {
        s
    } else {
        s.take(20)
    }
}

/// The decimal digit characters of a number.
pub open spec fn dec_digits(n: nat) -> Seq<char>
    decreases n,
{
    if n < 10 {
        seq![digit_char(n)]
    } else {
        dec_digits(n / 10).push(digit_char(n % 10))
    }
}

/// The character for one decimal digit.
pub open spec fn digit_char(d: nat) -> char {
    if d == 0 {
        '0'
    } else if d == 1 {
        '1'
    } else if d == 2 {
        '2'
    } else if d == 3 {
        '3'
    } else if d == 4 {
        '4'
    } else if d == 5 {
        '5'
    } else if d == 6 {
        '6'
    } else if d == 7 {
        '7'
    } else if d == 8 {
        '8'
    } else {
        '9'
    }
}

/// The whole title line over the shown artist, title and volume.
pub open spec fn title_line(artist: Seq<char>, title: Seq<char>, volume: u16) -> Seq<char> {
    "Playing: "@ + truncated_20(artist) + " - "@ + truncated_20(title) + " | Volume: "@
        + dec_digits(volume as nat)
}

/// Relies on std formatting: a fixed template around the artist and the
/// title, each truncated to 20 characters by the format precision, and
/// the volume written in decimal.
#[verifier::external_body]
fn title_text(artist: &str, title: &str, volume: u16) -> (r: String)
    ensures
        r@ == title_line(artist@, title@, volume),
{
    format!("Playing: {:^.20} - {:^.20} | Volume: {}", artist, title, volume)
}

/// The artist line shown for a song: its artist, or the fixed fallback.
pub open spec fn shown_artist(song: TrackInfo) -> Seq<char> {
    match song.artist {
        Some(a) => a@,
        None => "Unknown Artist"@,
    }
}

/// The title shown for a song: its title, or the fixed fallback.
pub open spec fn shown_title(song: TrackInfo) -> Seq<char> {
    match song.title {
        Some(t) => t@,
        None => "Unknown Title"@,
    }
}

impl Model {
    /// Rewrite the mounted widget's title line from the current song and
    /// volume. Without a current song, or without a mounted widget,
    /// nothing changes (the attribute update is simply dropped).
    pub fn progress_update_title(&mut self)
        ensures
            final(self).current_song == old(self).current_song,
            final(self).volume == old(self).volume,
            final(self).time_pos == old(self).time_pos,
            final(self).status == old(self).status,
            old(self).current_song is None ==> final(self).progress == old(self).progress,
            old(self).progress is None ==> final(self).progress is None,
            old(self).current_song matches Some(song) ==> (old(self).progress matches Some(p)
                ==> (final(self).progress matches Some(p2) && p2.progress_millis
                == p.progress_millis && p2.label == p.label && p2.title@ == title_line(
                shown_artist(song),
                shown_title(song),
                old(self).volume,
            ))),
    {
        match &self.current_song {
            None => {},
            Some(song) => {
                let artist: &str = match &song.artist {
                    Some(a) => a.as_str(),
                    None => "Unknown Artist",
                };
                let title: &str = match &song.title {
                    Some(t) => t.as_str(),
                    None => "Unknown Title",
                };
                let new_title = title_text(artist, title, self.volume);
                match &self.progress {
                    None => {},
                    Some(p) => {
                        let p2 = ProgressState {
                            title: new_title,
                            progress_millis: p.progress_millis,
                            label: p.label.clone(),
                        };
                        self.progress = Some(p2);
                    },
                }
            },
        }
    }

    /// Remount the progress widget in its fresh state — title "Playing",
    /// an empty bar, the placeholder label — then rewrite its title from
    /// the current song.
    pub fn progress_reload(&mut self)
        ensures
            final(self).current_song == old(self).current_song,
            final(self).volume == old(self).volume,
            final(self).time_pos == old(self).time_pos,
            final(self).status == old(self).status,
            final(self).progress matches Some(p) && p.progress_millis == 0 && p.label@
                == "Song Name"@ && (match old(self).current_song {
                None => p.title@ == "Playing"@,
                Some(song) => p.title@ == title_line(
                    shown_artist(song),
                    shown_title(song),
                    old(self).volume,
                ),
            }),
    {
        let fresh = ProgressState {
            title: "Playing".to_owned(),
            progress_millis: 0,
            label: "Song Name".to_owned(),
        };
        self.progress = Some(fresh);
        self.progress_update_title();
    }

    /// Judge one progress reading polled from the player and update the
    /// display. The known spurious reading (nine tenths through a
    /// 119-second song at position zero — an inconsistent tuple) and
    /// readings without a duration are ignored as a signal to poll again;
    /// a position at or past the end marks playback stopped; any other
    /// reading is displayed: the bar takes the new value and the label
    /// the elapsed and total time.
    pub fn progress_update(&mut self, new_prog_millis: u32, time_pos: u64, duration: u64)
        ensures
            final(self).current_song == old(self).current_song,
            final(self).volume == old(self).volume,
            (new_prog_millis == 900 && time_pos == 0 && duration == 119) ==> *final(self)
                == *old(self),
            !(new_prog_millis == 900 && time_pos == 0 && duration == 119) && duration == 0
                ==> *final(self) == *old(self),
            !(new_prog_millis == 900 && time_pos == 0 && duration == 119) && duration > 0
                && time_pos >= duration ==> (final(self).status == Some(Status::Stopped)
                && final(self).time_pos == old(self).time_pos && final(self).progress == old(
                self,
            ).progress),
            !(new_prog_millis == 900 && time_pos == 0 && duration == 119) && duration > 0
                && time_pos < duration ==> {
                &&& final(self).status == old(self).status
                &&& final(self).time_pos == time_pos
                &&& (old(self).progress is None ==> final(self).progress is None)
                &&& (old(self).progress matches Some(p) ==> (final(self).progress matches Some(
                    p2,
                ) && p2.title == p.title && p2.progress_millis == new_prog_millis && p2.label@
                    == progress_label(time_pos, duration)))
            },
    {
        if new_prog_millis == 900 && time_pos == 0 && duration == 119 {
            return ;
        }
        if duration == 0 {
            return ;
        }
        if time_pos >= duration {
            self.status = Some(Status::Stopped);
            return ;
        }
        self.time_pos = time_pos;
        match &self.progress {
            None => {},
            Some(p) => {
                let p2 = ProgressState {
                    title: p.title.clone(),
                    progress_millis: new_prog_millis,
                    label: progress_label_text(time_pos, duration),
                };
                self.progress = Some(p2);
            },
        }
    }
}

} // verus!
