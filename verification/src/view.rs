//! What the window shows of the editor: which buttons work, and the texts of
//! its panes. Times come in as shown.

use crate::editor::App;
use crate::message::TimeField;
use crate::mix;
use crate::project::{SongView, TrackSettings};
use crate::state::AppState;
use crate::text;
use crate::text::{decimal_text, padded_text};
use vstd::prelude::*;
use vstd::string::*;

verus! {

/// The bar of buttons.
#[derive(Debug)]
pub struct Toolbar {
    /// The name of the recording, with a dot where there is something to save.
    pub file_label: String,
    pub play_label: &'static str,
    /// Whether there is a recording to save, play or add songs to.
    pub has_recording: bool,
    /// Whether a song is selected.
    pub has_song: bool,
    pub can_export_song: bool,
    pub can_export_all: bool,
}

pub open spec fn file_label(s: AppState) -> Seq<char> {
    match s.tape {
        Some(t) => if s.dirty {
            t.name + "  •"@
        } else {
            t.name
        },
        None => "No file loaded"@,
    }
}

/// The row of a song in the list.
#[derive(Debug)]
pub struct SongRow {
    pub id: u64,
    /// The number, with two digits at least.
    pub number: String,
    pub selected: bool,
    pub start: usize,
    pub end: usize,
    /// How many of the tracks the song uses.
    pub used: String,
}

/// The row of a track in the mixer.
#[derive(Debug)]
pub struct TrackRow {
    pub name: String,
    pub settings: TrackSettings,
    /// How many frames the track is heard for, where it is.
    pub heard: Option<usize>,
}

pub open spec fn row_of(s: AppState, i: int) -> (u64, Seq<char>, bool, usize, usize, Seq<char>) {
    let song = s.songs[i];
    (
        song.id,
        text::padded((i + 1) as nat, 2),
        s.selected == Some(song.id),
        song.start,
        song.end,
        text::decimal(song.used().len()) + "/"@ + text::decimal(song.tracks.len()),
    )
}

pub open spec fn row_view(r: SongRow) -> (u64, Seq<char>, bool, usize, usize, Seq<char>) {
    (r.id, r.number@, r.selected, r.start, r.end, r.used@)
}

/// How many frames a track is heard for.
pub open spec fn heard_frames(song: SongView, ch: int) -> Option<usize> {
    match song.range(ch) {
        Some((s, e)) => Some((e - s) as usize),
        None => None,
    }
}

pub open spec fn track_row_of(s: AppState, song: SongView, ch: int) -> (
    Seq<char>,
    TrackSettings,
    Option<usize>,
) {
    (
        if ch < s.track_names.len() {
            s.track_names[ch]
        } else {
            Seq::empty()
        },
        song.tracks[ch],
        heard_frames(song, ch),
    )
}

pub open spec fn track_row_view(r: TrackRow) -> (Seq<char>, TrackSettings, Option<usize>) {
    (r.name@, r.settings, r.heard)
}

impl App {
    /// The bar of buttons.
    pub fn toolbar(&self) -> (r: Toolbar)
        ensures
            r.file_label@ == file_label(self@),
            r.play_label@ == if self.playing {
                "Pause"@
            } else {
                "Play"@
            },
            r.has_recording == (self@.tape is Some),
            r.has_song == (self@.selected_song() is Some),
            r.can_export_song == (self@.selected_song() is Some && !self.exporting),
            r.can_export_all == (self@.tape is Some && self@.songs.len() > 0 && !self.exporting),
    {
        let label = match &self.tape {
            Some(t) => {
                let mut name = t.name.clone();
                if self.dirty {
                    name.append("  •");
                }
                name
            },
            None => String::from_str("No file loaded"),
        };
        let has_song = self.selected_index().is_some();
        let has_recording = self.tape.is_some();
        assert(self@.songs.len() == self.songs@.len());
        Toolbar {
            file_label: label,
            play_label: if self.playing {
                "Pause"
            } else {
                "Play"
            },
            has_recording,
            has_song,
            can_export_song: has_song && !self.exporting,
            can_export_all: has_recording && self.songs.len() > 0 && !self.exporting,
        }
    }

    /// What stands where the waveform would be.
    pub fn waveform_placeholder(&self) -> (r: &'static str)
        ensures
            r@ == if self.loading {
                "Loading…"@
            } else {
                "Open a multitrack WAV or FLAC file to see its tracks here."@
            },
    {
        if self.loading {
            "Loading…"
        } else {
            "Open a multitrack WAV or FLAC file to see its tracks here."
        }
    }

    /// The heading of the song list.
    pub fn songs_heading(&self) -> (r: String)
        ensures
            r@ == "Songs ("@ + text::decimal(self@.songs.len()) + ")"@,
    {
        assert(self@.songs.len() == self.songs@.len());
        let mut heading = String::from_str("Songs (");
        heading.append(decimal_text(self.songs.len() as u64).as_str());
        heading.append(")");
        heading
    }

    /// What stands in an empty song list.
    pub fn songs_placeholder(&self) -> (r: &'static str)
        ensures
            r@ == if self@.tape is Some {
                "No songs yet. Move the playhead to where a song starts and press N (or the + Song button)."@
            } else {
                ""@
            },
    {
        if self.tape.is_some() {
            "No songs yet. Move the playhead to where a song starts and press N (or the + Song button)."
        } else {
            ""
        }
    }

    /// The rows of the song list.
    pub fn songs_pane(&self) -> (r: Vec<SongRow>)
        ensures
            r@.len() == self@.songs.len(),
            forall|i: int| 0 <= i < r@.len() ==> row_view(#[trigger] r@[i]) == row_of(self@, i),
    {
        let n: usize = self.songs.len();
        let mut rows: Vec<SongRow> = Vec::new();
        let mut i: usize = 0;
        while i < n
            invariant
                i <= n == self.songs@.len() == self@.songs.len(),
                rows@.len() == i,
                forall|k: int|
                    0 <= k < i ==> row_view(#[trigger] rows@[k]) == row_of(self@, k),
            decreases n - i,
        {
            let song = &self.songs[i];
            assert(self@.songs[i as int] == song@);
            let channels = song.active_channels();
            assert(channels@ == song@.used());
            let mut used = decimal_text(channels.len() as u64);
            used.append("/");
            used.append(decimal_text(song.tracks.len() as u64).as_str());
            let selected = match self.selected {
                Some(id) => id == song.id,
                None => false,
            };
            rows.push(
                SongRow {
                    id: song.id,
                    number: padded_text((i + 1) as u64, 2),
                    selected,
                    start: song.start,
                    end: song.end,
                    used,
                },
            );
            i += 1;
        }
        rows
    }

    /// What stands in the mixer while no song is selected.
    pub fn mixer_placeholder(&self) -> (r: &'static str)
        ensures
            r@ == if self@.songs.len() == 0 {
                "The mixer for the selected song appears here."@
            } else {
                "Select a song to edit which tracks it uses and their mix."@
            },
    {
        assert(self@.songs.len() == self.songs@.len());
        if self.songs.len() == 0 {
            "The mixer for the selected song appears here."
        } else {
            "Select a song to edit which tracks it uses and their mix."
        }
    }

    /// The rows of the mixer: the tracks of the selected song.
    pub fn mixer_pane(&self) -> (r: Option<Vec<TrackRow>>)
        requires
            self@.sound(),
        ensures
            r is Some <==> self@.selected_song() is Some,
            r matches Some(rows) ==> {
                let song = self@.selected_song()->0;
                &&& rows@.len() == song.tracks.len()
                &&& forall|ch: int|
                    0 <= ch < rows@.len() ==> track_row_view(#[trigger] rows@[ch])
                        == track_row_of(self@, song, ch)
            },
    {
        let p: usize = match self.selected_index() {
            Some(p) => p,
            None => {
                return None;
            },
        };
        let song = &self.songs[p];
        assert(self@.keeps(self@.songs[p as int]));
        let n: usize = song.tracks.len();
        let mut rows: Vec<TrackRow> = Vec::new();
        let mut ch: usize = 0;
        while ch < n
            invariant
                ch <= n == song.tracks@.len(),
                song.start <= song.end,
                rows@.len() == ch,
                forall|k: int|
                    0 <= k < ch ==> track_row_view(#[trigger] rows@[k]) == track_row_of(
                        self@,
                        song@,
                        k,
                    ),
            decreases n - ch,
        {
            let name = if ch < self.track_names.len() {
                assert(self@.track_names[ch as int] == self.track_names@[ch as int]@);
                self.track_names[ch].clone()
            } else {
                let none = String::new();
                assert(none@ =~= Seq::empty());
                none
            };
            let heard: Option<usize> = match song.track_range(ch) {
                Some((s, e)) => Some(e - s),
                None => None,
            };
            rows.push(TrackRow { name, settings: song.tracks[ch], heard });
            ch += 1;
        }
        Some(rows)
    }

    /// What a field for a time shows: what is being typed into it, or its
    /// value.
    pub fn time_input(&self, field: TimeField, value: &str) -> (r: String)
        ensures
            r@ == match self@.draft {
                Some((f, typed)) => if f == field {
                    typed
                } else {
                    value@
                },
                None => value@,
            },
    {
        match &self.draft {
            Some((f, typed)) => if *f == field {
                typed.clone()
            } else {
                String::from_str(value)
            },
            None => String::from_str(value),
        }
    }
}

/// The title of the mixer: the number and the title of the song, and its
/// start, end and length as shown.
pub fn mixer_title(number: usize, title: &str, start: &str, end: &str, length: &str) -> (r: String)
    ensures
        r@ == "Song "@ + text::padded(number as nat, 2) + (if title@.len() == 0 {
            ""@
        } else {
            " · "@ + title@
        }) + " — "@ + start@ + " to "@ + end@ + " ("@ + length@ + ")"@,
{
    let middle = if title.unicode_len() == 0 {
        String::from_str("")
    } else {
        let mut t = String::from_str(" · ");
        t.append(title);
        t
    };
    let mut out = String::from_str("Song ");
    out.append(padded_text(number as u64, 2).as_str());
    out.append(middle.as_str());
    out.append(" — ");
    out.append(start);
    out.append(" to ");
    out.append(end);
    out.append(" (");
    out.append(length);
    out.append(")");
    out
}

/// The readout of the playhead, given its time and the length of the
/// recording, if there is one.
pub fn playhead_readout(playhead: &str, length: Option<&str>) -> (r: String)
    ensures
        r@ == "Playhead: "@ + playhead@ + "  /  "@ + (match length {
            Some(l) => l@,
            None => "--:--"@,
        }),
{
    let mut out = String::from_str("Playhead: ");
    out.append(playhead);
    out.append("  /  ");
    match length {
        Some(l) => out.append(l),
        None => out.append("--:--"),
    }
    out
}

/// The list shows of each song its number, counted from one, its start and end, how
/// many of its tracks it uses, and whether it is the selected one.
pub proof fn law_song_is_listed(s: AppState, i: int)
    requires
        0 <= i < s.songs.len(),
    ensures
        ({
            let (id, number, selected, start, end, used) = row_of(s, i);
            &&& id == s.songs[i].id
            &&& number == text::padded((i + 1) as nat, 2)
            &&& selected == (s.selected == Some(s.songs[i].id))
            &&& start == s.songs[i].start && end == s.songs[i].end
            &&& used == text::decimal(s.songs[i].used().len()) + "/"@ + text::decimal(
                s.songs[i].tracks.len(),
            )
        }),
{
}

/// The mixer shows of each track its name, its settings, and how many frames it is
/// heard for, where it is.
pub proof fn law_track_is_listed(
    s: AppState,
    song: SongView,
    ch: int,
    start: usize,
    end: usize,
)
    requires
        0 <= ch < song.tracks.len(),
        ch < s.track_names.len(),
        song.start <= song.end,
        mix::runs(song, ch, start, end),
    ensures
        ({
            let (name, settings, heard) = track_row_of(s, song, ch);
            &&& name == s.track_names[ch]
            &&& settings == song.tracks[ch]
            &&& song.tracks[ch].active && start < end ==> heard == Some((end - start) as usize)
            &&& !song.tracks[ch].active || end <= start ==> heard is None
        }),
{
}

/// The window names the recording, with a dot behind it where there is something to
/// save, and says where none is loaded.
pub proof fn law_recording_is_named(s: AppState)
    ensures
        s.tape matches Some(t) ==> {
            &&& !s.dirty ==> file_label(s) == t.name
            &&& s.dirty ==> file_label(s) == t.name + "  •"@
        },
        s.tape is None ==> file_label(s) == "No file loaded"@,
{
}

}
