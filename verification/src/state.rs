//! The state of the editor, and the state that each message leads to.

use crate::export;
use crate::formats::{MixFormat, StemFormat, FLAC_MAX_CHANNELS};
use crate::message::{EffectView, Message, TapeView, TimeField};
use crate::mix;
use crate::mix::TrackMix;
use crate::natural;
use crate::path;
use crate::path::PathStyle;
use crate::project;
use crate::project::{Project, ProjectView, SongView, TrackSettings};
use crate::single::{Single, ONE_BITS, ZERO_BITS};
use crate::songs;
use crate::text;
use crate::time;
use vstd::prelude::*;

verus! {

/// The name of the output device that the system picks.
pub const DEFAULT_DEVICE: &'static str = "System default";

/// How long a new song is before its end is set.
pub const NEW_SONG_SECS: usize = 240;

/// The sample rate that stands in while nothing is loaded.
pub const USUAL_RATE: u32 = 44100;

/// The editor by its contents.
pub struct AppState {
    /// How paths are written.
    pub style: PathStyle,
    pub tape: Option<TapeView>,
    pub loading: bool,
    pub exporting: bool,
    pub project_path: Option<Seq<char>>,
    pub pending_project: Option<ProjectView>,
    pub dirty: bool,
    pub track_names: Seq<Seq<char>>,
    pub songs: Seq<SongView>,
    pub next_id: u64,
    pub selected: Option<u64>,
    pub draft: Option<(TimeField, Seq<char>)>,
    pub playhead: usize,
    pub playing: bool,
    pub play_anchor: Option<usize>,
    pub play_end: usize,
    pub selected_device: Seq<char>,
    pub mix_format: MixFormat,
    pub stem_format: StemFormat,
    pub status: Seq<char>,
    pub effects: Seq<EffectView>,
}

pub open spec fn least(a: int, b: int) -> usize {
    if a < b {
        a as usize
    } else {
        b as usize
    }
}

pub open spec fn most(a: int, b: int) -> usize {
    if a > b {
        a as usize
    } else {
        b as usize
    }
}

/// The difference, zero where it would be negative.
pub open spec fn minus(a: int, b: int) -> usize {
    if a > b {
        (a - b) as usize
    } else {
        0
    }
}

/// The start of a track, kept inside the song and short of the end of the
/// track. A start at or before that of the song is no start of its own.
pub open spec fn track_start_for(s: SongView, ch: int, value: Option<usize>) -> Option<usize> {
    match value {
        Some(f) => if f > s.start {
            Some(least(f as int, minus(s.track_end(ch) as int, 1) as int))
        } else {
            None
        },
        None => None,
    }
}

/// The end of a track, kept inside the song and past the start of the track.
/// An end at or behind that of the song is no end of its own.
pub open spec fn track_end_for(s: SongView, ch: int, value: Option<usize>) -> Option<usize> {
    match value {
        Some(f) => if f < s.end {
            Some(most(f as int, s.track_start(ch) + 1))
        } else {
            None
        },
        None => None,
    }
}

impl AppState {
    /// Asks for something to be done outside.
    pub open spec fn emit(self, e: EffectView) -> AppState {
        AppState { effects: self.effects.push(e), ..self }
    }

    pub open spec fn frames(self) -> usize {
        match self.tape {
            Some(t) => t.frames,
            None => 0,
        }
    }

    pub open spec fn channels(self) -> usize {
        match self.tape {
            Some(t) => t.channels,
            None => 0,
        }
    }

    pub open spec fn rate(self) -> u32 {
        match self.tape {
            Some(t) => t.sample_rate,
            None => USUAL_RATE,
        }
    }

    /// The shortest song: half a second.
    pub open spec fn min_range(self) -> usize {
        (self.rate() / 2) as usize
    }

    pub open spec fn selected_song(self) -> Option<SongView> {
        match self.selected {
            Some(id) => songs::song_of(self.songs, id),
            None => None,
        }
    }

    /// Whether a song does not end before it starts, and leaves room to count
    /// the shortest song from its start on.
    pub open spec fn keeps(self, s: SongView) -> bool {
        &&& s.start <= s.end < usize::MAX
        &&& s.start + self.min_range() < usize::MAX
    }

    /// No song ends before it starts. The songs lie where their ends can be
    /// counted, and so would a new one at the end of the recording.
    pub open spec fn sound(self) -> bool {
        &&& self.frames() + NEW_SONG_SECS * self.rate() < usize::MAX
        &&& forall|i: int| 0 <= i < self.songs.len() ==> self.keeps(#[trigger] self.songs[i])
    }

    // ----- playback -------------------------------------------------------

    /// What to play: the selected song with its mix, or the whole tape.
    pub open spec fn plan(self) -> (usize, usize, Seq<TrackMix>) {
        match self.selected_song() {
            Some(s) => (s.start, least(s.end as int, self.frames() as int), mix::mixes_of(s)),
            None => (0, self.frames(), mix::flat(self.channels(), self.frames())),
        }
    }

    /// Starts playback: at the playhead where it lies in the range to play,
    /// otherwise at the start of the range.
    pub open spec fn started(self) -> AppState {
        match self.tape {
            Some(_) => {
                let (from, to, mixes) = self.plan();
                let start = if from <= self.playhead < to { self.playhead } else { from };
                AppState {
                    playhead: start,
                    playing: true,
                    play_anchor: Some(start),
                    play_end: to,
                    ..self.emit(EffectView::Play { start, end: to, mixes })
                }
            },
            None => self,
        }
    }

    pub open spec fn stopped(self) -> AppState {
        AppState { playing: false, play_anchor: None, ..self.emit(EffectView::StopPlayer) }
    }

    /// Hands the mix to the playback that is running.
    pub open spec fn refreshed(self) -> AppState {
        if self.playing {
            self.emit(EffectView::SetMix(self.plan().2))
        } else {
            self
        }
    }

    // ----- songs ----------------------------------------------------------

    /// After a change to the songs: they are put in order, there is something
    /// to save, the waveform is drawn anew, and playback follows.
    pub open spec fn changed(self) -> AppState {
        AppState { songs: songs::by_start(self.songs), dirty: true, ..self }.emit(
            EffectView::Redraw,
        ).refreshed()
    }

    /// Where the start of a song is moved to, leaving it the shortest length.
    pub open spec fn start_for(self, s: SongView, frame: usize) -> usize {
        least(frame as int, minus(s.end as int, self.min_range() as int) as int)
    }

    /// Where the end of a song is moved to: within the recording, leaving the
    /// song the shortest length.
    pub open spec fn end_for(self, s: SongView, frame: usize) -> usize {
        most(least(frame as int, self.frames() as int) as int, s.start + self.min_range())
    }

    /// Moves the start of a song.
    pub open spec fn song_start_set(self, id: u64, frame: usize) -> AppState {
        match songs::song_of(self.songs, id) {
            Some(s) => AppState {
                songs: songs::with_start(self.songs, id, self.start_for(s, frame)),
                ..self
            },
            None => self,
        }.changed()
    }

    /// Moves the end of a song.
    pub open spec fn song_end_set(self, id: u64, frame: usize) -> AppState {
        match songs::song_of(self.songs, id) {
            Some(s) => AppState {
                songs: songs::with_end(self.songs, id, self.end_for(s, frame)),
                ..self
            },
            None => self,
        }.changed()
    }

    /// Sets the start of a track.
    pub open spec fn track_start_set(self, id: u64, ch: usize, value: Option<usize>) -> AppState {
        match (songs::song_of(self.songs, id), songs::track_of(self.songs, id, ch as int)) {
            (Some(s), Some(t)) => {
                let start = track_start_for(s, ch as int, value);
                AppState {
                    songs: songs::with_track(
                        self.songs,
                        id,
                        ch as int,
                        TrackSettings { start, ..t },
                    ),
                    ..self
                }
            },
            _ => self,
        }.changed()
    }

    /// Sets the end of a track.
    pub open spec fn track_end_set(self, id: u64, ch: usize, value: Option<usize>) -> AppState {
        match (songs::song_of(self.songs, id), songs::track_of(self.songs, id, ch as int)) {
            (Some(s), Some(t)) => {
                let end = track_end_for(s, ch as int, value);
                AppState {
                    songs: songs::with_track(self.songs, id, ch as int, TrackSettings { end, ..t }),
                    ..self
                }
            },
            _ => self,
        }.changed()
    }

    /// Selects a song, or none; playback stops and the playhead goes to the
    /// start of the song.
    pub open spec fn song_selected(self, id: Option<u64>) -> AppState {
        if self.selected == id {
            self
        } else {
            let s = AppState { selected: id, draft: None, ..self.stopped() };
            match s.selected_song() {
                Some(song) => AppState { playhead: song.start, ..s }.emit(
                    EffectView::ScrollTo(song.start),
                ),
                None => s,
            }.emit(EffectView::Redraw)
        }
    }

    /// Where a song that is added starts: at the playhead, but not closer to
    /// the end of the recording than the shortest song is long.
    pub open spec fn new_start(self) -> usize {
        least(self.playhead as int, minus(self.frames() as int, self.min_range() as int) as int)
    }

    /// The song that is added at the playhead: four minutes long, as far as
    /// the recording goes.
    pub open spec fn new_song(self) -> SongView {
        SongView {
            id: self.next_id,
            title: "Song "@ + text::decimal(self.songs.len() + 1),
            start: self.new_start(),
            end: least(self.new_start() + NEW_SONG_SECS * self.rate(), self.frames() as int),
            tracks: Seq::new(self.channels() as nat, |i: int| project::untouched()),
        }
    }

    /// Adds a song at the playhead and selects it.
    pub open spec fn song_added(self) -> AppState {
        if self.frames() == 0 {
            self
        } else {
            AppState {
                songs: self.songs.push(self.new_song()),
                next_id: (self.next_id + 1) as u64,
                ..self
            }.changed().song_selected(Some(self.next_id)).emit(
                EffectView::ReportAdded(self.new_start()),
            )
        }
    }

    pub open spec fn song_deleted(self, id: u64) -> AppState {
        let s = if self.selected == Some(id) {
            AppState { selected: None, ..self.stopped() }
        } else {
            self
        };
        AppState { songs: songs::without(s.songs, id), draft: None, ..s }.changed()
    }

    pub open spec fn song_titled(self, id: u64, title: Seq<char>) -> AppState {
        AppState {
            songs: songs::with_title(self.songs, id, title),
            dirty: true,
            ..self
        }.emit(EffectView::Redraw)
    }

    // ----- tracks ---------------------------------------------------------

    /// Replaces what a song says of a track.
    pub open spec fn track_put(self, id: u64, ch: usize, t: TrackSettings) -> AppState {
        AppState { songs: songs::with_track(self.songs, id, ch as int, t), ..self }
    }

    pub open spec fn track_activated(self, id: u64, ch: usize, active: bool) -> AppState {
        match songs::track_of(self.songs, id, ch as int) {
            Some(t) => self.track_put(id, ch, TrackSettings { active, ..t }),
            None => self,
        }.changed()
    }

    pub open spec fn track_toggled(self, id: u64, ch: usize) -> AppState {
        match songs::track_of(self.songs, id, ch as int) {
            Some(t) => self.track_put(id, ch, TrackSettings { active: !t.active, ..t }),
            None => self,
        }.changed()
    }

    /// After a change to the mix of a track: there is something to save, and
    /// playback follows.
    pub open spec fn mixed(self) -> AppState {
        AppState { dirty: true, ..self }.refreshed()
    }

    pub open spec fn volume_set(self, id: u64, ch: usize, volume: Single) -> AppState {
        match songs::track_of(self.songs, id, ch as int) {
            Some(t) => self.track_put(id, ch, TrackSettings { volume, ..t }),
            None => self,
        }.mixed()
    }

    pub open spec fn pan_set(self, id: u64, ch: usize, pan: Single) -> AppState {
        match songs::track_of(self.songs, id, ch as int) {
            Some(t) => self.track_put(id, ch, TrackSettings { pan, ..t }),
            None => self,
        }.mixed()
    }

    pub open spec fn mute_set(self, id: u64, ch: usize, mute: bool) -> AppState {
        match songs::track_of(self.songs, id, ch as int) {
            Some(t) => self.track_put(id, ch, TrackSettings { mute, ..t }),
            None => self,
        }.mixed()
    }

    pub open spec fn solo_set(self, id: u64, ch: usize, solo: bool) -> AppState {
        match songs::track_of(self.songs, id, ch as int) {
            Some(t) => self.track_put(id, ch, TrackSettings { solo, ..t }),
            None => self,
        }.mixed()
    }

    pub open spec fn mix_reset(self, id: u64, ch: usize) -> AppState {
        match songs::track_of(self.songs, id, ch as int) {
            Some(t) => self.track_put(
                id,
                ch,
                TrackSettings {
                    volume: (Single { bits: ONE_BITS }),
                    pan: (Single { bits: ZERO_BITS }),
                    mute: false,
                    solo: false,
                    ..t
                },
            ),
            None => self,
        }.mixed()
    }

    pub open spec fn track_named(self, ch: usize, name: Seq<char>) -> AppState {
        AppState {
            track_names: if ch < self.track_names.len() {
                self.track_names.update(ch as int, name)
            } else {
                self.track_names
            },
            dirty: true,
            ..self
        }.emit(EffectView::Redraw)
    }

    // ----- times ----------------------------------------------------------

    /// Applies a typed time; none clears the start or end of a track.
    pub open spec fn time_applied(self, field: TimeField, frame: Option<usize>) -> AppState {
        match (field, frame) {
            (TimeField::SongStart(id), Some(f)) => self.song_start_set(id, f),
            (TimeField::SongEnd(id), Some(f)) => self.song_end_set(id, f),
            (TimeField::TrackStart(id, ch), f) => self.track_start_set(id, ch, f),
            (TimeField::TrackEnd(id, ch), f) => self.track_end_set(id, ch, f),
            _ => self,
        }
    }

    /// Takes in the time that was typed into a field. An empty text clears the
    /// start or end of a track.
    pub open spec fn time_committed(self, field: TimeField) -> AppState {
        match self.draft {
            None => self,
            Some((f, draft)) => {
                let s = AppState { draft: None, ..self };
                let typed = text::trimmed(draft);
                if f != field {
                    s
                } else if typed.len() == 0 && (field is TrackStart || field is TrackEnd) {
                    s.time_applied(field, None)
                } else {
                    match time::time_parts(typed) {
                        Some(parts) => s.emit(EffectView::ReadTime { field, text: typed, parts }),
                        None => AppState { status: no_time_message(typed), ..s },
                    }
                }
            },
        }
    }

    pub open spec fn time_read(
        self,
        field: TimeField,
        typed: Seq<char>,
        frame: Option<usize>,
    ) -> AppState {
        match frame {
            Some(_) => self.time_applied(field, frame),
            None => AppState { status: no_time_message(typed), ..self },
        }
    }
}

pub open spec fn no_time_message(typed: Seq<char>) -> Seq<char> {
    "\""@ + typed + "\" is not a time. Use mm:ss.mmm or seconds."@
}

/// Whether a path is that of a project file.
pub open spec fn is_project(style: PathStyle, p: Seq<char>) -> bool {
    path::extension(style, p) matches Some(e) && text::ascii_lower(e) == "json"@
}

/// What to say while files are being loaded.
pub open spec fn loading_message(files: Seq<Seq<char>>) -> Seq<char> {
    if files.len() == 1 {
        "Loading "@ + files[0] + "…"@
    } else {
        "Loading "@ + text::decimal(files.len()) + " files…"@
    }
}

pub open spec fn missing_message(file: Seq<char>) -> Seq<char> {
    "Recording \""@ + file + "\" referenced by the project was not found next to it."@
}

/// The first file that was not found; the number of files where all were.
pub open spec fn first_missing(found: Seq<Option<String>>) -> nat
    decreases found.len(),
{
    if found.len() == 0 || found[0] is None {
        0
    } else {
        1 + first_missing(found.drop_first())
    }
}

/// Where the files were found.
pub open spec fn found_paths(found: Seq<Option<String>>) -> Seq<Seq<char>> {
    found.map_values(|f: Option<String>| f->0@)
}

/// What to say of a recording.
pub open spec fn tape_info(t: TapeView) -> Seq<char> {
    "Loaded "@ + t.name + " — "@ + text::decimal(t.channels as nat) + " tracks, "@ + text::decimal(
        t.sample_rate as nat,
    ) + " Hz, "@ + text::decimal(t.bits_per_sample as nat) + " bit, "@ + t.duration
}

/// The names of the tracks of a recording, as a project has them.
pub open spec fn project_names(names: Seq<Seq<char>>, channels: nat) -> Seq<Seq<char>> {
    Seq::new(
        channels,
        |i: int|
            if i < names.len() && names[i].len() > 0 {
                names[i]
            } else {
                "Track "@ + text::decimal((i + 1) as nat)
            },
    )
}

/// A song of a project, cut to a recording.
pub open spec fn cut_song(s: SongView, id: int, channels: usize, frames: usize) -> SongView {
    let end = least(s.end as int, frames as int);
    SongView {
        id: id as u64,
        start: least(s.start as int, end as int),
        end,
        ..s.fitted(channels as nat)
    }
}

/// The songs of a project that have a part in a recording, among the first
/// `n`.
pub open spec fn cut_songs(
    songs: Seq<SongView>,
    n: nat,
    channels: usize,
    frames: usize,
) -> Seq<SongView>
    decreases n,
{
    if n == 0 {
        Seq::empty()
    } else {
        let front = cut_songs(songs, (n - 1) as nat, channels, frames);
        let s = cut_song(songs[n - 1], n - 1, channels, frames);
        if s.end > s.start {
            front.push(s)
        } else {
            front
        }
    }
}

impl AppState {
    // ----- files ----------------------------------------------------------

    /// Files were picked: a project file is read; for a recording a project
    /// next to it is looked for.
    pub open spec fn files_chosen(self, files: Seq<Seq<char>>) -> AppState {
        if files.len() == 0 {
            self
        } else if is_project(self.style, files[0]) {
            self.emit(EffectView::ReadProject(files[0]))
        } else {
            let ordered = natural::in_order(self.style, files);
            AppState { pending_project: None, project_path: None, ..self }.emit(
                EffectView::ProbeSidecar {
                    sidecar: project::sidecar(self.style, ordered),
                    files: ordered,
                },
            )
        }
    }

    /// Starts to load the files of a recording.
    pub open spec fn load_started(self, files: Seq<Seq<char>>) -> AppState {
        AppState { loading: true, status: loading_message(files), ..self.stopped() }.emit(
            EffectView::LoadRecording(files),
        )
    }

    /// A project file was read, and its recording was looked for.
    pub open spec fn project_read(
        self,
        path: Seq<char>,
        outcome: Result<Project, String>,
        found: Seq<Option<String>>,
    ) -> AppState {
        match outcome {
            Err(e) => AppState { status: e@, ..self },
            Ok(p) => {
                let files = p@.recording();
                let missing = first_missing(found);
                if files.len() == 0 {
                    AppState { status: missing_message(""@), ..self }
                } else if missing < found.len() {
                    AppState { status: missing_message(files[missing as int]), ..self }
                } else {
                    AppState {
                        pending_project: Some(p@),
                        project_path: Some(path),
                        ..self
                    }.load_started(found_paths(found))
                }
            },
        }
    }

    /// A project was looked for next to a recording.
    pub open spec fn sidecar_probed(
        self,
        sidecar: Seq<char>,
        files: Seq<Seq<char>>,
        outcome: Option<Result<Project, String>>,
    ) -> AppState {
        match outcome {
            None => self,
            Some(Ok(p)) => AppState {
                pending_project: Some(p@),
                project_path: Some(sidecar),
                ..self
            },
            Some(Err(e)) => AppState { status: "Ignoring "@ + sidecar + ": "@ + e@, ..self },
        }.load_started(files)
    }

    /// Applies a project to the recording: its songs are cut to it, and the
    /// first is selected. The next id is one that no song of the project had.
    pub open spec fn project_applied(self, p: ProjectView) -> AppState {
        let kept = cut_songs(p.songs, p.songs.len(), self.channels(), self.frames());
        let s = AppState {
            track_names: project_names(p.track_names, self.channels() as nat),
            songs: kept,
            next_id: p.songs.len() as u64,
            selected: None,
            mix_format: match p.mix_format {
                Some(f) => f,
                None => MixFormat::Float32,
            },
            stem_format: match p.stem_format {
                Some(f) => f,
                None => StemFormat {
                    format: crate::formats::Format::Flac,
                    layout: crate::formats::StemLayout::Interleaved,
                },
            },
            ..self
        };
        AppState {
            dirty: false,
            ..s.song_selected(
                if kept.len() > 0 {
                    Some(kept[0].id)
                } else {
                    None
                },
            )
        }.emit(EffectView::Redraw)
    }

    /// A recording is loaded: a waiting project is applied, otherwise there
    /// are no songs yet.
    pub open spec fn tape_loaded(self, t: TapeView) -> AppState {
        let s = AppState {
            tape: Some(t),
            playhead: 0,
            selected: None,
            draft: None,
            songs: Seq::empty(),
            pending_project: None,
            ..AppState { loading: false, ..self }.stopped()
        };
        match self.pending_project {
            Some(p) => {
                let applied = s.project_applied(p);
                AppState {
                    status: tape_info(t) + " — "@ + text::decimal(applied.songs.len())
                        + " songs from "@ + (match self.project_path {
                        Some(path) => path,
                        None => ""@,
                    }) + (if p.channels != t.channels {
                        ". Warning: the project was made for a different track count."@
                    } else {
                        ""@
                    }),
                    ..applied
                }
            },
            None => AppState {
                track_names: t.track_names,
                next_id: 0,
                dirty: false,
                status: tape_info(t) + ". Press N to add a song at the playhead."@,
                ..s
            },
        }.emit(EffectView::ZoomFit)
    }

    pub open spec fn load_failed(self, e: Seq<char>) -> AppState {
        AppState {
            loading: false,
            pending_project: None,
            status: "Load failed: "@ + e,
            ..self
        }
    }

    /// The project as it is saved to a path.
    pub open spec fn project_for(self, path: Seq<char>, t: TapeView) -> ProjectView {
        ProjectView {
            audio_files: project::references(self.style, path, t.sources),
            audio_file: ""@,
            sample_rate: t.sample_rate,
            channels: t.channels,
            track_names: self.track_names,
            songs: self.songs,
            mix_format: Some(self.mix_format),
            stem_format: Some(self.stem_format),
        }
    }

    pub open spec fn save_started(self, path: Seq<char>) -> AppState {
        match self.tape {
            Some(t) => self.emit(
                EffectView::WriteProject { path, project: self.project_for(path, t) },
            ),
            None => self,
        }
    }

    /// Lets a path for the project be picked, with the present one or the one
    /// next to the recording as proposal.
    pub open spec fn save_as(self) -> AppState {
        match self.tape {
            Some(t) => {
                let default = match self.project_path {
                    Some(p) => p,
                    None => project::sidecar(self.style, t.sources),
                };
                self.emit(
                    EffectView::PickProjectPath {
                        name: path::file_name(self.style, default),
                        dir: path::parent(self.style, default),
                    },
                )
            },
            None => self,
        }
    }

    pub open spec fn save(self) -> AppState {
        match (self.tape, self.project_path) {
            (Some(_), Some(p)) => self.save_started(p),
            (Some(_), None) => self.save_as(),
            _ => self,
        }
    }

    pub open spec fn saved(self, path: Seq<char>, outcome: Result<(), String>) -> AppState {
        match outcome {
            Ok(_) => AppState {
                project_path: Some(path),
                dirty: false,
                status: "Saved project "@ + path + " ("@ + text::decimal(self.songs.len())
                    + " songs)."@,
                ..self
            },
            Err(e) => AppState { status: e@, ..self },
        }
    }

    // ----- playhead -------------------------------------------------------

    pub open spec fn playhead_set(self, frame: usize) -> AppState {
        let s = AppState { playhead: frame, ..self };
        if self.playing {
            s.started()
        } else {
            s
        }
    }

    /// Stops; the playhead goes back to the start of the selected song.
    pub open spec fn stopped_at_start(self) -> AppState {
        let s = self.stopped();
        match s.selected_song() {
            Some(song) => AppState { playhead: song.start, ..s },
            None => s,
        }
    }

    pub open spec fn seeked(self, frame: usize) -> AppState {
        if self.tape is Some {
            self.playhead_set(least(frame as int, self.frames() as int))
        } else {
            self
        }
    }

    /// So many frames have passed: the playhead follows, up to where the
    /// playback ends.
    pub open spec fn ticked(self, elapsed: usize) -> AppState {
        match (self.tape, self.play_anchor) {
            (Some(_), Some(anchor)) => if anchor + elapsed >= self.play_end {
                AppState { playhead: self.play_end, ..self }.stopped()
            } else {
                AppState { playhead: (anchor + elapsed) as usize, ..self }.emit(
                    EffectView::ScrollTo((anchor + elapsed) as usize),
                )
            },
            _ => self,
        }
    }

    pub open spec fn song_played(self, id: u64) -> AppState {
        let s = self.song_selected(Some(id));
        match songs::song_of(s.songs, id) {
            Some(song) => AppState { playhead: song.start, ..s }.started(),
            None => s,
        }
    }

    // ----- exports --------------------------------------------------------

    /// The directory of the recording.
    pub open spec fn tape_dir(self) -> Option<Seq<char>> {
        match self.tape {
            Some(t) => path::parent(self.style, t.path),
            None => None,
        }
    }

    /// The name of the selected song in file names.
    pub open spec fn selected_stem(self, s: SongView) -> Seq<char> {
        export::song_stem((songs::place_of(self.songs, s.id) + 1) as nat, s.title)
    }

    pub open spec fn mix_export_asked(self) -> AppState {
        match self.selected_song() {
            Some(s) => if self.exporting {
                self
            } else {
                self.emit(
                    EffectView::PickMixPath {
                        name: self.selected_stem(s) + " (mix)."@
                            + self.mix_format.container().extension_text(),
                        dir: self.tape_dir(),
                    },
                )
            },
            None => self,
        }
    }

    pub open spec fn multi_export_asked(self) -> AppState {
        match self.selected_song() {
            Some(s) => if self.exporting {
                self
            } else {
                self.emit(
                    EffectView::PickMultiPath {
                        name: self.selected_stem(s) + (if s.used().len() > FLAC_MAX_CHANNELS {
                            ".wav"@
                        } else {
                            ".flac"@
                        }),
                        dir: self.tape_dir(),
                    },
                )
            },
            None => self,
        }
    }

    /// Whether a path is one of the files of the recording.
    pub open spec fn is_source(self, path: Seq<char>) -> bool {
        match self.tape {
            Some(t) => exists|i: int|
                0 <= i < t.sources.len() && path::same_path(
                    self.style,
                    #[trigger] t.sources[i],
                    path,
                ),
            None => false,
        }
    }

    /// Starts an export to a path, but never over the recording itself.
    pub open spec fn export_started(self, path: Seq<char>, is_mix: bool) -> AppState {
        match (self.tape, self.selected_song()) {
            (Some(_), Some(song)) => if self.is_source(path) {
                AppState {
                    status: "Refusing to overwrite the loaded recording — pick another name."@,
                    ..self
                }
            } else {
                AppState {
                    exporting: true,
                    status: "Exporting "@ + path + "…"@,
                    ..self
                }.emit(
                    if is_mix {
                        EffectView::ExportMix { song, path, mode: self.mix_format }
                    } else {
                        EffectView::ExportMulti { song, path }
                    },
                )
            },
            _ => self,
        }
    }

    pub open spec fn all_export_asked(self, is_mix: bool) -> AppState {
        if self.tape is None || self.songs.len() == 0 || self.exporting {
            self
        } else if is_mix {
            self.emit(EffectView::PickMixDir(self.tape_dir()))
        } else {
            self.emit(EffectView::PickMultiDir(self.tape_dir()))
        }
    }

    pub open spec fn all_mixes_started(self, dir: Seq<char>) -> AppState {
        if self.tape is None {
            self
        } else {
            AppState {
                exporting: true,
                status: "Exporting "@ + text::decimal(self.songs.len()) + " mixes as "@
                    + self.mix_format.label_text() + "…"@,
                ..self
            }.emit(
                EffectView::ExportAllMixes { songs: self.songs, dir, mode: self.mix_format },
            )
        }
    }

    pub open spec fn all_multi_started(self, dir: Seq<char>) -> AppState {
        if self.tape is None {
            self
        } else {
            AppState {
                exporting: true,
                status: "Exporting "@ + text::decimal(self.songs.len()) + " songs as multitrack "@
                    + self.stem_format.format.name_text() + "…"@,
                ..self
            }.emit(
                EffectView::ExportAllMulti {
                    songs: self.songs,
                    track_names: self.track_names,
                    dir,
                    stems: self.stem_format,
                },
            )
        }
    }

    pub open spec fn export_done(self, outcome: Result<String, String>) -> AppState {
        AppState {
            exporting: false,
            status: match outcome {
                Ok(t) => t@,
                Err(e) => "Export failed: "@ + e@,
            },
            ..self
        }
    }

    pub open spec fn device_selected(self, name: Seq<char>) -> AppState {
        AppState { selected_device: name, ..self.stopped() }.emit(
            EffectView::SetDevice(
                if name == DEFAULT_DEVICE@ {
                    None
                } else {
                    Some(name)
                },
            ),
        )
    }
}

/// What a message needs of the state that it comes upon: that it can be
/// counted on, and that the answer to a question fits the question.
pub open spec fn acceptable(s: AppState, m: Message) -> bool {
    match m {
        Message::ProjectRead(_, Ok(p), found) => found@.len() == p@.recording().len(),
        Message::Loaded(Ok(t)) => t.frames + NEW_SONG_SECS * t.sample_rate < usize::MAX,
        Message::Tick(elapsed) => s.play_anchor matches Some(a) ==> a + elapsed <= usize::MAX,
        Message::AddSong => s.next_id < u64::MAX && s.songs.len() < usize::MAX,
        _ => true,
    }
}

/// The state that a message about files and projects leads to.
#[verifier::opaque]
pub open spec fn step_files(s: AppState, m: Message) -> AppState {
    match m {
        Message::OpenFile => if s.loading {
            s
        } else {
            s.emit(EffectView::PickFiles)
        },
        Message::FilesChosen(Some(files)) => s.files_chosen(text::texts(files@)),
        Message::FilesChosen(None) => s,
        Message::ProjectRead(path, outcome, found) => s.project_read(path@, outcome, found@),
        Message::SidecarProbed(sidecar, files, outcome) => s.sidecar_probed(
            sidecar@,
            text::texts(files@),
            outcome,
        ),
        Message::Loaded(Ok(t)) => s.tape_loaded(t@),
        Message::Loaded(Err(e)) => s.load_failed(e@),
        Message::SaveProject => s.save(),
        Message::SaveProjectAs => s.save_as(),
        Message::ProjectPathChosen(Some(path)) => s.save_started(path@),
        Message::ProjectPathChosen(None) => s,
        Message::ProjectSaved(path, outcome) => s.saved(path@, outcome),
        _ => s,
    }
}

/// The state that a message about what is shown of the recording leads to.
#[verifier::opaque]
pub open spec fn step_view(s: AppState, m: Message) -> AppState {
    match m {
        Message::ViewChanged { offset, fpp } => s.emit(EffectView::SetView { offset, fpp }),
        Message::ZoomIn => s.emit(EffectView::ZoomIn),
        Message::ZoomOut => s.emit(EffectView::ZoomOut),
        Message::ZoomFit => if s.tape is Some {
            s.emit(EffectView::ZoomFit)
        } else {
            s
        },
        Message::ZoomSong => match s.selected_song() {
            Some(song) => s.emit(
                EffectView::ZoomSong { start: song.start, frames: song.frames() as usize },
            ),
            None => s,
        },
        Message::VZoomIn => s.emit(EffectView::VZoomIn),
        Message::VZoomOut => s.emit(EffectView::VZoomOut),
        Message::VZoomReset => s.emit(EffectView::VZoomReset),
        Message::WindowResized(w) => s.emit(EffectView::SetWidth(w)),
        _ => s,
    }
}

/// The state that a message about the playhead and the playback leads to.
#[verifier::opaque]
pub open spec fn step_playback(s: AppState, m: Message) -> AppState {
    match m {
        Message::SetPlayhead(frame) => s.playhead_set(frame),
        Message::PlayPause => if s.playing {
            s.stopped()
        } else {
            s.started()
        },
        Message::Stop => s.stopped_at_start(),
        Message::SeekVisible(percent) => if s.tape is Some {
            s.emit(EffectView::Step(percent))
        } else {
            s
        },
        Message::Seeked(frame) => s.seeked(frame),
        Message::Tick(elapsed) => s.ticked(elapsed),
        Message::PlaySong(id) => s.song_played(id),
        Message::DeviceSelected(name) => s.device_selected(name@),
        _ => s,
    }
}

/// The state that a message about the songs leads to.
#[verifier::opaque]
pub open spec fn step_songs(s: AppState, m: Message) -> AppState {
    match m {
        Message::AddSong => s.song_added(),
        Message::SongAdded(at) => AppState {
            status: "Added song at "@ + at@
                + ". Drag its flags in the strip, or press I / O to set start / end at the playhead."@,
            ..s
        },
        Message::DeleteSong(id) => s.song_deleted(id),
        Message::SelectSong(id) => s.song_selected(id),
        Message::SongTitle(id, title) => s.song_titled(id, title@),
        Message::SongStartToPlayhead => match s.selected {
            Some(id) => s.song_start_set(id, s.playhead),
            None => s,
        },
        Message::SongEndToPlayhead => match s.selected {
            Some(id) => s.song_end_set(id, s.playhead),
            None => s,
        },
        Message::MoveSongStart(id, frame) => s.song_start_set(id, frame),
        Message::MoveSongEnd(id, frame) => s.song_end_set(id, frame),
        _ => s,
    }
}

/// The state that a message about the tracks of the songs leads to.
#[verifier::opaque]
pub open spec fn step_tracks(s: AppState, m: Message) -> AppState {
    match m {
        Message::TrackActive(id, ch, active) => s.track_activated(id, ch, active),
        Message::ToggleTrackActive(id, ch) => s.track_toggled(id, ch),
        Message::TrackStart(id, ch, value) => s.track_start_set(id, ch, value),
        Message::TrackEnd(id, ch, value) => s.track_end_set(id, ch, value),
        Message::TrackStartToPlayhead(id, ch) => s.track_start_set(id, ch, Some(s.playhead)),
        Message::TrackEndToPlayhead(id, ch) => s.track_end_set(id, ch, Some(s.playhead)),
        Message::TrackVolume(id, ch, v) => s.volume_set(id, ch, v),
        Message::TrackPan(id, ch, p) => s.pan_set(id, ch, p),
        Message::TrackMute(id, ch, mute) => s.mute_set(id, ch, mute),
        Message::TrackSolo(id, ch, solo) => s.solo_set(id, ch, solo),
        Message::ResetTrackMix(id, ch) => s.mix_reset(id, ch),
        Message::TrackName(ch, name) => s.track_named(ch, name@),
        _ => s,
    }
}

/// The state that a message about the times that are typed leads to.
#[verifier::opaque]
pub open spec fn step_times(s: AppState, m: Message) -> AppState {
    match m {
        Message::TimeDraft(field, draft) => AppState { draft: Some((field, draft@)), ..s },
        Message::TimeCommit(field) => s.time_committed(field),
        Message::TimeRead(field, typed, frame) => s.time_read(field, typed@, frame),
        _ => s,
    }
}

/// The state that a message about the exports leads to.
#[verifier::opaque]
pub open spec fn step_exports(s: AppState, m: Message) -> AppState {
    match m {
        Message::MixFormatSelected(f) => AppState { mix_format: f, dirty: true, ..s },
        Message::StemFormatSelected(f) => AppState { stem_format: f, dirty: true, ..s },
        Message::ExportMix => s.mix_export_asked(),
        Message::ExportMixPathChosen(Some(path)) => s.export_started(path@, true),
        Message::ExportMixPathChosen(None) => s,
        Message::ExportMulti => s.multi_export_asked(),
        Message::ExportMultiPathChosen(Some(path)) => s.export_started(path@, false),
        Message::ExportMultiPathChosen(None) => s,
        Message::ExportAll => s.all_export_asked(false),
        Message::ExportAllDirChosen(Some(dir)) => s.all_multi_started(dir@),
        Message::ExportAllDirChosen(None) => s,
        Message::ExportAllMixes => s.all_export_asked(true),
        Message::ExportAllMixesDirChosen(Some(dir)) => s.all_mixes_started(dir@),
        Message::ExportAllMixesDirChosen(None) => s,
        Message::ExportDone(outcome) => s.export_done(outcome),
        _ => s,
    }
}

/// The state that a message leads to.
pub open spec fn step(s: AppState, m: Message) -> AppState {
    match area_of(m) {
        Area::Files => step_files(s, m),
        Area::Look => step_view(s, m),
        Area::Playback => step_playback(s, m),
        Area::Songs => step_songs(s, m),
        Area::Tracks => step_tracks(s, m),
        Area::Times => step_times(s, m),
        Area::Exports => step_exports(s, m),
    }
}

/// What a message is about.
#[derive(Clone, Copy, Debug, PartialEq, Eq, Structural)]
pub enum Area {
    Files,
    Look,
    Playback,
    Songs,
    Tracks,
    Times,
    Exports,
}

pub open spec fn area_of(m: Message) -> Area {
    match m {
        Message::OpenFile | Message::FilesChosen(..) | Message::ProjectRead(..) | Message::SidecarProbed(..) | Message::Loaded(..) | Message::SaveProject | Message::SaveProjectAs | Message::ProjectPathChosen(..) | Message::ProjectSaved(..) => Area::Files,
        Message::ViewChanged { .. } | Message::ZoomIn | Message::ZoomOut | Message::ZoomFit | Message::ZoomSong | Message::VZoomIn | Message::VZoomOut | Message::VZoomReset | Message::WindowResized(..) => Area::Look,
        Message::SetPlayhead(..) | Message::PlayPause | Message::Stop | Message::SeekVisible(..) | Message::Seeked(..) | Message::Tick(..) | Message::PlaySong(..) | Message::DeviceSelected(..) => Area::Playback,
        Message::AddSong | Message::SongAdded(..) | Message::DeleteSong(..) | Message::SelectSong(..) | Message::SongTitle(..) | Message::SongStartToPlayhead | Message::SongEndToPlayhead | Message::MoveSongStart(..) | Message::MoveSongEnd(..) => Area::Songs,
        Message::TrackActive(..) | Message::ToggleTrackActive(..) | Message::TrackStart(..) | Message::TrackEnd(..) | Message::TrackStartToPlayhead(..) | Message::TrackEndToPlayhead(..) | Message::TrackVolume(..) | Message::TrackPan(..) | Message::TrackMute(..) | Message::TrackSolo(..) | Message::ResetTrackMix(..) | Message::TrackName(..) => Area::Tracks,
        Message::TimeDraft(..) | Message::TimeCommit(..) | Message::TimeRead(..) => Area::Times,
        Message::MixFormatSelected(..) | Message::StemFormatSelected(..) | Message::ExportMix | Message::ExportMixPathChosen(..) | Message::ExportMulti | Message::ExportMultiPathChosen(..) | Message::ExportAll | Message::ExportAllDirChosen(..) | Message::ExportAllMixes | Message::ExportAllMixesDirChosen(..) | Message::ExportDone(..) => Area::Exports,
    }
}

/// The editor before anything is loaded.
pub open spec fn initial(style: PathStyle) -> AppState {
    AppState {
        style,
        tape: None,
        loading: false,
        exporting: false,
        project_path: None,
        pending_project: None,
        dirty: false,
        track_names: Seq::empty(),
        songs: Seq::empty(),
        next_id: 0,
        selected: None,
        draft: None,
        playhead: 0,
        playing: false,
        play_anchor: None,
        play_end: 0,
        selected_device: DEFAULT_DEVICE@,
        mix_format: MixFormat::Float32,
        stem_format: StemFormat {
            format: crate::formats::Format::Flac,
            layout: crate::formats::StemLayout::Interleaved,
        },
        status: "Open a multitrack WAV or FLAC file (or a saved project) to get started."@,
        effects: Seq::empty(),
    }
}

}
