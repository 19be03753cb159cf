//! What happens to the editor, and what the editor asks for.

use crate::formats::{MixFormat, StemFormat};
use crate::mix::TrackMix;
use crate::project;
use crate::project::{Project, Song};
use crate::single::{Double, Single};
use crate::text;
use crate::text::same_text;
use crate::time::TimeParts;
use vstd::prelude::*;

verus! {

/// A time that is being typed: the start or end of a song, or of a track in
/// a song.
#[derive(Clone, Copy, Debug, PartialEq, Eq, Structural)]
pub enum TimeField {
    SongStart(u64),
    SongEnd(u64),
    TrackStart(u64, usize),
    TrackEnd(u64, usize),
}

/// What is known of a recording once it is loaded.
#[derive(Debug)]
pub struct Tape {
    /// The first file.
    pub path: String,
    /// The files in track order.
    pub sources: Vec<String>,
    pub channels: usize,
    pub frames: usize,
    pub sample_rate: u32,
    pub bits_per_sample: u32,
    /// What to call the recording.
    pub name: String,
    /// Its length as shown.
    pub duration: String,
    /// The names that its tracks have at first.
    pub track_names: Vec<String>,
}

#[verifier::ext_equal]
pub struct TapeView {
    pub path: Seq<char>,
    pub sources: Seq<Seq<char>>,
    pub channels: usize,
    pub frames: usize,
    pub sample_rate: u32,
    pub bits_per_sample: u32,
    pub name: Seq<char>,
    pub duration: Seq<char>,
    pub track_names: Seq<Seq<char>>,
}

impl View for Tape {
    type V = TapeView;

    open spec fn view(&self) -> TapeView {
        TapeView {
            path: self.path@,
            sources: text::texts(self.sources@),
            channels: self.channels,
            frames: self.frames,
            sample_rate: self.sample_rate,
            bits_per_sample: self.bits_per_sample,
            name: self.name@,
            duration: self.duration@,
            track_names: text::texts(self.track_names@),
        }
    }
}

/// What happens: the user did something, or something asked for is done.
#[derive(Debug)]
pub enum Message {
    OpenFile,
    FilesChosen(Option<Vec<String>>),
    /// A project file was read; the last list says for each file of its
    /// recording where it was found.
    ProjectRead(String, Result<Project, String>, Vec<Option<String>>),
    /// The place where a project would lie was looked at, for these files;
    /// nothing lay there, or a file that was read.
    SidecarProbed(String, Vec<String>, Option<Result<Project, String>>),
    Loaded(Result<Tape, String>),
    SaveProject,
    SaveProjectAs,
    ProjectPathChosen(Option<String>),
    ProjectSaved(String, Result<(), String>),
    ViewChanged { offset: Double, fpp: Double },
    ZoomIn,
    ZoomOut,
    ZoomFit,
    ZoomSong,
    VZoomIn,
    VZoomOut,
    VZoomReset,
    WindowResized(Single),
    SetPlayhead(usize),
    PlayPause,
    Stop,
    /// Move the playhead by this many percent of what is visible.
    SeekVisible(i32),
    /// The playhead was moved that way to this frame.
    Seeked(usize),
    /// So many frames have passed since playback started.
    Tick(usize),
    PlaySong(u64),
    AddSong,
    /// The start of the song just added, as shown.
    SongAdded(String),
    DeleteSong(u64),
    SelectSong(Option<u64>),
    SongTitle(u64, String),
    SongStartToPlayhead,
    SongEndToPlayhead,
    MoveSongStart(u64, usize),
    MoveSongEnd(u64, usize),
    TrackActive(u64, usize, bool),
    ToggleTrackActive(u64, usize),
    TrackStart(u64, usize, Option<usize>),
    TrackEnd(u64, usize, Option<usize>),
    TrackStartToPlayhead(u64, usize),
    TrackEndToPlayhead(u64, usize),
    TrackVolume(u64, usize, Single),
    TrackPan(u64, usize, Single),
    TrackMute(u64, usize, bool),
    TrackSolo(u64, usize, bool),
    ResetTrackMix(u64, usize),
    TrackName(usize, String),
    TimeDraft(TimeField, String),
    TimeCommit(TimeField),
    /// A typed time was read as this frame, or is none.
    TimeRead(TimeField, String, Option<usize>),
    MixFormatSelected(MixFormat),
    StemFormatSelected(StemFormat),
    ExportMix,
    ExportMixPathChosen(Option<String>),
    ExportMulti,
    ExportMultiPathChosen(Option<String>),
    ExportAll,
    ExportAllDirChosen(Option<String>),
    ExportAllMixes,
    ExportAllMixesDirChosen(Option<String>),
    ExportDone(Result<String, String>),
    DeviceSelected(String),
}

/// What the editor asks for.
#[allow(inconsistent_fields)]
#[derive(Debug)]
pub enum Effect {
    /// Let files be picked.
    PickFiles,
    /// Read a project file and look for its recording.
    ReadProject(String),
    /// Look for a project file next to a recording, and read it.
    ProbeSidecar { sidecar: String, files: Vec<String> },
    LoadRecording(Vec<String>),
    PickProjectPath { name: Option<String>, dir: Option<String> },
    WriteProject { path: String, project: Project },
    Play { start: usize, end: usize, mixes: Vec<TrackMix> },
    StopPlayer,
    /// Change the mix that is being played.
    SetMix(Vec<TrackMix>),
    SetDevice(Option<String>),
    /// Bring a frame into view.
    ScrollTo(usize),
    /// Draw the waveform anew.
    Redraw,
    SetView { offset: Double, fpp: Double },
    ZoomIn,
    ZoomOut,
    ZoomFit,
    ZoomSong { start: usize, frames: usize },
    VZoomIn,
    VZoomOut,
    VZoomReset,
    SetWidth(Single),
    /// Move the playhead by this many percent of what is visible.
    Step(i32),
    /// Say at which time a song was added.
    ReportAdded(usize),
    /// Turn a typed time into a frame.
    ReadTime { field: TimeField, text: String, parts: TimeParts },
    PickMixPath { name: String, dir: Option<String> },
    PickMultiPath { name: String, dir: Option<String> },
    PickMixDir(Option<String>),
    PickMultiDir(Option<String>),
    ExportMix { song: Song, path: String, mode: MixFormat },
    ExportMulti { song: Song, path: String },
    ExportAllMixes { songs: Vec<Song>, dir: String, mode: MixFormat },
    ExportAllMulti {
        songs: Vec<Song>,
        track_names: Vec<String>,
        dir: String,
        stems: StemFormat,
    },
}

/// What the editor asks for, by its contents.
#[allow(inconsistent_fields)]
pub enum EffectView {
    PickFiles,
    ReadProject(Seq<char>),
    ProbeSidecar { sidecar: Seq<char>, files: Seq<Seq<char>> },
    LoadRecording(Seq<Seq<char>>),
    PickProjectPath { name: Option<Seq<char>>, dir: Option<Seq<char>> },
    WriteProject { path: Seq<char>, project: project::ProjectView },
    Play { start: usize, end: usize, mixes: Seq<TrackMix> },
    StopPlayer,
    SetMix(Seq<TrackMix>),
    SetDevice(Option<Seq<char>>),
    ScrollTo(usize),
    Redraw,
    SetView { offset: Double, fpp: Double },
    ZoomIn,
    ZoomOut,
    ZoomFit,
    ZoomSong { start: usize, frames: usize },
    VZoomIn,
    VZoomOut,
    VZoomReset,
    SetWidth(Single),
    Step(i32),
    ReportAdded(usize),
    ReadTime { field: TimeField, text: Seq<char>, parts: (Seq<u64>, Seq<char>) },
    PickMixPath { name: Seq<char>, dir: Option<Seq<char>> },
    PickMultiPath { name: Seq<char>, dir: Option<Seq<char>> },
    PickMixDir(Option<Seq<char>>),
    PickMultiDir(Option<Seq<char>>),
    ExportMix { song: project::SongView, path: Seq<char>, mode: MixFormat },
    ExportMulti { song: project::SongView, path: Seq<char> },
    ExportAllMixes { songs: Seq<project::SongView>, dir: Seq<char>, mode: MixFormat },
    ExportAllMulti {
        songs: Seq<project::SongView>,
        track_names: Seq<Seq<char>>,
        dir: Seq<char>,
        stems: StemFormat,
    },
}

impl View for Effect {
    type V = EffectView;

    open spec fn view(&self) -> EffectView {
        match *self {
            Effect::PickFiles => EffectView::PickFiles,
            Effect::ReadProject(p) => EffectView::ReadProject(p@),
            Effect::ProbeSidecar { sidecar, files } => EffectView::ProbeSidecar {
                sidecar: sidecar@,
                files: text::texts(files@),
            },
            Effect::LoadRecording(files) => EffectView::LoadRecording(text::texts(files@)),
            Effect::PickProjectPath { name, dir } => EffectView::PickProjectPath {
                name: text::opt_text(name),
                dir: text::opt_text(dir),
            },
            Effect::WriteProject { path, project } => EffectView::WriteProject {
                path: path@,
                project: project@,
            },
            Effect::Play { start, end, mixes } => EffectView::Play { start, end, mixes: mixes@ },
            Effect::StopPlayer => EffectView::StopPlayer,
            Effect::SetMix(mixes) => EffectView::SetMix(mixes@),
            Effect::SetDevice(name) => EffectView::SetDevice(text::opt_text(name)),
            Effect::ScrollTo(frame) => EffectView::ScrollTo(frame),
            Effect::Redraw => EffectView::Redraw,
            Effect::SetView { offset, fpp } => EffectView::SetView { offset, fpp },
            Effect::ZoomIn => EffectView::ZoomIn,
            Effect::ZoomOut => EffectView::ZoomOut,
            Effect::ZoomFit => EffectView::ZoomFit,
            Effect::ZoomSong { start, frames } => EffectView::ZoomSong { start, frames },
            Effect::VZoomIn => EffectView::VZoomIn,
            Effect::VZoomOut => EffectView::VZoomOut,
            Effect::VZoomReset => EffectView::VZoomReset,
            Effect::SetWidth(w) => EffectView::SetWidth(w),
            Effect::Step(percent) => EffectView::Step(percent),
            Effect::ReportAdded(frame) => EffectView::ReportAdded(frame),
            Effect::ReadTime { field, text, parts } => EffectView::ReadTime {
                field,
                text: text@,
                parts: (parts.leading@, parts.seconds@),
            },
            Effect::PickMixPath { name, dir } => EffectView::PickMixPath {
                name: name@,
                dir: text::opt_text(dir),
            },
            Effect::PickMultiPath { name, dir } => EffectView::PickMultiPath {
                name: name@,
                dir: text::opt_text(dir),
            },
            Effect::PickMixDir(dir) => EffectView::PickMixDir(text::opt_text(dir)),
            Effect::PickMultiDir(dir) => EffectView::PickMultiDir(text::opt_text(dir)),
            Effect::ExportMix { song, path, mode } => EffectView::ExportMix {
                song: song@,
                path: path@,
                mode,
            },
            Effect::ExportMulti { song, path } => EffectView::ExportMulti {
                song: song@,
                path: path@,
            },
            Effect::ExportAllMixes { songs, dir, mode } => EffectView::ExportAllMixes {
                songs: project::songs_view(songs@),
                dir: dir@,
                mode,
            },
            Effect::ExportAllMulti { songs, track_names, dir, stems } => EffectView::ExportAllMulti {
                songs: project::songs_view(songs@),
                track_names: text::texts(track_names@),
                dir: dir@,
                stems,
            },
        }
    }
}

pub open spec fn effects_view(v: Seq<Effect>) -> Seq<EffectView> {
    v.map_values(|e: Effect| e@)
}

/// A key of the keyboard, as far as the editor cares.
#[derive(Debug)]
pub enum Key {
    Space,
    MediaPlayPause,
    MediaPlay,
    MediaPause,
    MediaStop,
    ArrowLeft,
    ArrowRight,
    /// The character that the key types.
    Character(String),
    Other,
}

/// What a character key stands for.
pub open spec fn character_message(c: Seq<char>, shift: bool) -> Option<Message> {
    if c == "n"@ || c == "N"@ {
        Some(Message::AddSong)
    } else if c == "i"@ || c == "I"@ {
        Some(Message::SongStartToPlayhead)
    } else if c == "o"@ || c == "O"@ {
        Some(Message::SongEndToPlayhead)
    } else if c == "+"@ || c == "="@ {
        Some(if shift { Message::VZoomIn } else { Message::ZoomIn })
    } else if c == "?"@ || c == "*"@ {
        if shift {
            Some(Message::VZoomIn)
        } else {
            None
        }
    } else if c == "-"@ || c == "_"@ {
        Some(if shift { Message::VZoomOut } else { Message::ZoomOut })
    } else {
        None
    }
}

/// The shortcut of a key. The key is the character that the layout gives, so
/// with shift held the plus and minus keys may come as `?` (Nordic), `*`
/// (German) or `_`.
pub fn key_message(key: &Key, shift: bool) -> (r: Option<Message>)
    ensures
        r == match *key {
            Key::Space | Key::MediaPlayPause | Key::MediaPlay | Key::MediaPause => Some(
                Message::PlayPause,
            ),
            Key::MediaStop => Some(Message::Stop),
            Key::ArrowLeft => Some(Message::SeekVisible((-5) as i32)),
            Key::ArrowRight => Some(Message::SeekVisible(5)),
            Key::Character(c) => character_message(c@, shift),
            Key::Other => None,
        },
{
    match key {
        Key::Space | Key::MediaPlayPause | Key::MediaPlay | Key::MediaPause => Some(
            Message::PlayPause,
        ),
        Key::MediaStop => Some(Message::Stop),
        Key::ArrowLeft => Some(Message::SeekVisible(-5)),
        Key::ArrowRight => Some(Message::SeekVisible(5)),
        Key::Character(c) => {
            let c = c.as_str();
            if same_text(c, "n") || same_text(c, "N") {
                Some(Message::AddSong)
            } else if same_text(c, "i") || same_text(c, "I") {
                Some(Message::SongStartToPlayhead)
            } else if same_text(c, "o") || same_text(c, "O") {
                Some(Message::SongEndToPlayhead)
            } else if same_text(c, "+") || same_text(c, "=") {
                Some(
                    if shift {
                        Message::VZoomIn
                    } else {
                        Message::ZoomIn
                    },
                )
            } else if same_text(c, "?") || same_text(c, "*") {
                if shift {
                    Some(Message::VZoomIn)
                } else {
                    None
                }
            } else if same_text(c, "-") || same_text(c, "_") {
                Some(
                    if shift {
                        Message::VZoomOut
                    } else {
                        Message::ZoomOut
                    },
                )
            } else {
                None
            }
        },
        Key::Other => None,
    }
}

/// The shortcuts: N adds a song, I and O set its start and end at the playhead, plus
/// and minus zoom, and with shift they zoom the amplitude. Other characters do nothing.
pub proof fn law_shortcuts(c: Seq<char>, shift: bool)
    ensures
        c == "n"@ || c == "N"@ ==> character_message(c, shift) == Some(Message::AddSong),
        c == "i"@ || c == "I"@ ==> character_message(c, shift) == Some(
            Message::SongStartToPlayhead,
        ),
        c == "o"@ || c == "O"@ ==> character_message(c, shift) == Some(Message::SongEndToPlayhead),
        c == "+"@ || c == "="@ ==> character_message(c, true) == Some(Message::VZoomIn)
            && character_message(c, false) == Some(Message::ZoomIn),
        c == "-"@ || c == "_"@ ==> character_message(c, true) == Some(Message::VZoomOut)
            && character_message(c, false) == Some(Message::ZoomOut),
        c == "?"@ || c == "*"@ ==> character_message(c, true) == Some(Message::VZoomIn)
            && character_message(c, false) is None,
        c.len() != 1 ==> character_message(c, shift) is None,
{
    reveal_strlit("n");
    reveal_strlit("N");
    reveal_strlit("i");
    reveal_strlit("I");
    reveal_strlit("o");
    reveal_strlit("O");
    reveal_strlit("+");
    reveal_strlit("=");
    reveal_strlit("-");
    reveal_strlit("_");
    reveal_strlit("?");
    reveal_strlit("*");
    assert("n"@[0] == 'n' && "N"@[0] == 'N' && "i"@[0] == 'i' && "I"@[0] == 'I' && "o"@[0] == 'o'
        && "O"@[0] == 'O' && "+"@[0] == '+' && "="@[0] == '=' && "-"@[0] == '-' && "_"@[0] == '_'
        && "?"@[0] == '?' && "*"@[0] == '*');
}

}
