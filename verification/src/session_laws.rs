//! What the editor does besides the songs, said of what goes in and what comes
//! out: opening and saving, the playhead, the view, typed times and exports.

use crate::export;
use crate::formats::{Format, MixFormat, StemFormat, StemLayout};
use crate::message::{EffectView, Message, Tape, TapeView, TimeField};
use crate::mix;
use crate::natural;
use crate::path;
use crate::path::PathStyle;
use crate::project;
use crate::project::{Project, ProjectView, SongView, TrackSettings};
use crate::single::{Double, Single};
use crate::song_laws;
use crate::songs;
use crate::state;
use crate::state::AppState;
use crate::text;
use crate::time;
use vstd::prelude::*;

verus! {

/// Whether nothing happens but that one thing is asked for.
pub open spec fn only_asks(s: AppState, t: AppState, e: EffectView) -> bool {
    t == (AppState { effects: s.effects.push(e), ..s })
}

proof fn lemma_first(list: Seq<SongView>, id: u64, i: int)
    requires
        song_laws::is_song(list, id, i),
    ensures
        songs::place_of(list, id) == i,
        songs::song_of(list, id) == Some(list[i]),
{
    songs::lemma_place(list, id);
    let p = songs::place_of(list, id);
    if p < i {
        assert(list[p].id != id);
    }
    if i < p {
        assert(list[i].id != id);
    }
}

// ----- exports ------------------------------------------------------------

/// Choosing a file for the mix of a song, or for its tracks, asks for exactly one
/// export: that of the selected song, to the chosen file, a mix in the chosen
/// format. Nothing else changes but that an export is running.
pub proof fn law_selected_song_is_exported(s: AppState, id: u64, i: int, path: String)
    requires
        s.tape is Some,
        s.selected == Some(id),
        song_laws::is_song(s.songs, id, i),
        forall|k: int|
            0 <= k < s.tape->0.sources.len() ==> !path::same_path(
                s.style,
                #[trigger] s.tape->0.sources[k],
                path@,
            ),
    ensures
        ({
            let t = state::step(s, Message::ExportMixPathChosen(Some(path)));
            t == (AppState {
                exporting: true,
                status: "Exporting "@ + path@ + "…"@,
                effects: s.effects.push(
                    EffectView::ExportMix { song: s.songs[i], path: path@, mode: s.mix_format },
                ),
                ..s
            })
        }),
        ({
            let t = state::step(s, Message::ExportMultiPathChosen(Some(path)));
            t == (AppState {
                exporting: true,
                status: "Exporting "@ + path@ + "…"@,
                effects: s.effects.push(
                    EffectView::ExportMulti { song: s.songs[i], path: path@ },
                ),
                ..s
            })
        }),
{
    reveal(state::step_exports);
    lemma_first(s.songs, id, i);
}

/// A file of the recording is never exported to: whatever path leads to it, only
/// the status changes.
pub proof fn law_recording_is_not_overwritten(s: AppState, k: int, path: String)
    requires
        s.tape is Some,
        0 <= k < s.tape->0.sources.len(),
        path::same_path(s.style, s.tape->0.sources[k], path@),
    ensures
        ({
            let t = state::step(s, Message::ExportMixPathChosen(Some(path)));
            t == (AppState { status: t.status, ..s })
        }),
        ({
            let t = state::step(s, Message::ExportMultiPathChosen(Some(path)));
            t == (AppState { status: t.status, ..s })
        }),
{
    reveal(state::step_exports);
}

/// Exporting everything asks for exactly one export: of all songs, in the order of
/// the list, into the chosen directory and in the chosen format.
pub proof fn law_all_songs_are_exported(s: AppState, dir: String)
    requires
        s.tape is Some,
    ensures
        ({
            let t = state::step(s, Message::ExportAllMixesDirChosen(Some(dir)));
            t == (AppState {
                exporting: true,
                status: t.status,
                effects: s.effects.push(
                    EffectView::ExportAllMixes { songs: s.songs, dir: dir@, mode: s.mix_format },
                ),
                ..s
            })
        }),
        ({
            let t = state::step(s, Message::ExportAllDirChosen(Some(dir)));
            t == (AppState {
                exporting: true,
                status: t.status,
                effects: s.effects.push(
                    EffectView::ExportAllMulti {
                        songs: s.songs,
                        track_names: s.track_names,
                        dir: dir@,
                        stems: s.stem_format,
                    },
                ),
                ..s
            })
        }),
{
    reveal(state::step_exports);
}

/// The name that is proposed for the mix of a song has the number of the song in
/// the list, its title, and the extension that the chosen format needs; that for
/// its tracks ends in `.flac`, or in `.wav` where the song uses more than eight.
/// Both are proposed in the directory of the recording.
pub proof fn law_export_names_are_proposed(s: AppState, tape: TapeView, id: u64, i: int)
    requires
        s.tape == Some(tape),
        s.selected == Some(id),
        song_laws::is_song(s.songs, id, i),
        !s.exporting,
    ensures
        ({
            let stem = export::song_stem((i + 1) as nat, s.songs[i].title);
            let dir = path::parent(s.style, tape.path);
            &&& s.mix_format is Float32 ==> only_asks(
                s,
                state::step(s, Message::ExportMix),
                EffectView::PickMixPath { name: stem + " (mix)."@ + "wav"@, dir },
            )
            &&& s.mix_format matches MixFormat::Normalized { format, .. } ==> only_asks(
                s,
                state::step(s, Message::ExportMix),
                EffectView::PickMixPath {
                    name: stem + " (mix)."@ + (if format == Format::Wav {
                        "wav"@
                    } else {
                        "flac"@
                    }),
                    dir,
                },
            )
            &&& s.songs[i].used().len() <= 8 ==> only_asks(
                s,
                state::step(s, Message::ExportMulti),
                EffectView::PickMultiPath { name: stem + ".flac"@, dir },
            )
            &&& s.songs[i].used().len() > 8 ==> only_asks(
                s,
                state::step(s, Message::ExportMulti),
                EffectView::PickMultiPath { name: stem + ".wav"@, dir },
            )
        }),
{
    reveal(state::step_exports);
    lemma_first(s.songs, id, i);
}

/// Exporting everything is offered where there are songs and no export is running,
/// in the directory of the recording.
pub proof fn law_export_of_all_is_offered(s: AppState, tape: TapeView)
    requires
        s.tape == Some(tape),
        s.songs.len() > 0,
        !s.exporting,
    ensures
        only_asks(
            s,
            state::step(s, Message::ExportAllMixes),
            EffectView::PickMixDir(path::parent(s.style, tape.path)),
        ),
        only_asks(
            s,
            state::step(s, Message::ExportAll),
            EffectView::PickMultiDir(path::parent(s.style, tape.path)),
        ),
{
    reveal(state::step_exports);
}

/// While an export is running, or nothing is there to export, none is offered.
pub proof fn law_no_export_is_offered(s: AppState)
    ensures
        s.exporting || song_laws::no_song_selected(s) ==> state::step(s, Message::ExportMix) == s,
        s.exporting || song_laws::no_song_selected(s) ==> state::step(s, Message::ExportMulti) == s,
        s.exporting || s.tape is None || s.songs.len() == 0 ==> state::step(s, Message::ExportAll)
            == s,
        s.exporting || s.tape is None || s.songs.len() == 0 ==> state::step(
            s,
            Message::ExportAllMixes,
        ) == s,
{
    lemma_offers(s);
    if let Some(id) = s.selected {
        songs::lemma_place(s.songs, id);
    }
}

proof fn lemma_offers(s: AppState)
    ensures
        state::step_exports(s, Message::ExportMix) == s.mix_export_asked(),
        state::step_exports(s, Message::ExportMulti) == s.multi_export_asked(),
        state::step_exports(s, Message::ExportAll) == s.all_export_asked(false),
        state::step_exports(s, Message::ExportAllMixes) == s.all_export_asked(true),
{
    reveal(state::step_exports);
}

/// Where no file or directory was chosen for an export, nothing happens.
pub proof fn law_nothing_is_exported_unasked(s: AppState)
    ensures
        state::step(s, Message::ExportMixPathChosen(None)) == s,
        state::step(s, Message::ExportMultiPathChosen(None)) == s,
        state::step(s, Message::ExportAllDirChosen(None)) == s,
        state::step(s, Message::ExportAllMixesDirChosen(None)) == s,
{
    reveal(state::step_exports);
}

/// Once an export is done another can start, and the status says how it went; the
/// formats are those chosen last, to be saved with the project.
pub proof fn law_export_ends_and_formats(
    s: AppState,
    message: String,
    mix_format: MixFormat,
    stem_format: StemFormat,
)
    ensures
        state::step(s, Message::ExportDone(Ok(message))) == (AppState {
            exporting: false,
            status: message@,
            ..s
        }),
        state::step(s, Message::ExportDone(Err(message))) == (AppState {
            exporting: false,
            status: "Export failed: "@ + message@,
            ..s
        }),
        state::step(s, Message::MixFormatSelected(mix_format)) == (AppState {
            mix_format,
            dirty: true,
            ..s
        }),
        state::step(s, Message::StemFormatSelected(stem_format)) == (AppState {
            stem_format,
            dirty: true,
            ..s
        }),
{
    reveal(state::step_exports);
}

// ----- playhead -----------------------------------------------------------

/// Pausing stops the player and leaves the playhead where it is; stopping takes it
/// back to the start of the selected song.
pub proof fn law_playback_is_stopped(s: AppState)
    ensures
        s.playing ==> state::step(s, Message::PlayPause) == (AppState {
            playing: false,
            play_anchor: None,
            effects: s.effects.push(EffectView::StopPlayer),
            ..s
        }),
        ({
            let t = state::step(s, Message::Stop);
            &&& t == (AppState {
                playing: false,
                play_anchor: None,
                playhead: t.playhead,
                effects: s.effects.push(EffectView::StopPlayer),
                ..s
            })
            &&& forall|i: int|
                s.selected is Some && #[trigger] song_laws::is_song(s.songs, s.selected->0, i)
                    ==> t.playhead == s.songs[i].start
            &&& song_laws::no_song_selected(s) ==> t.playhead == s.playhead
        }),
{
    reveal(state::step_playback);
    if let Some(id) = s.selected {
        songs::lemma_place(s.songs, id);
        assert forall|i: int| #[trigger] song_laws::is_song(s.songs, id, i) implies state::step(
            s,
            Message::Stop,
        ).playhead == s.songs[i].start by {
            lemma_first(s.songs, id, i);
        }
    }
}

/// The playhead goes where it is set; while something plays, playback goes on from
/// there, as if it were started anew.
pub proof fn law_playhead_is_set(s: AppState, frame: usize)
    ensures
        !s.playing ==> state::step(s, Message::SetPlayhead(frame)) == (AppState {
            playhead: frame,
            ..s
        }),
        s.playing && s.tape is Some ==> state::step(s, Message::SetPlayhead(frame)) == state::step(
            AppState { playhead: frame, playing: false, ..s },
            Message::PlayPause,
        ),
{
    reveal(state::step_playback);
}

/// Stepping the playhead moves it by that part of what is visible, and not behind
/// the end of the recording.
pub proof fn law_playhead_is_stepped(s: AppState, tape: TapeView, percent: i32, frame: usize)
    requires
        s.tape == Some(tape),
    ensures
        only_asks(s, state::step(s, Message::SeekVisible(percent)), EffectView::Step(percent)),
        frame <= tape.frames ==> state::step(s, Message::Seeked(frame)) == state::step(
            s,
            Message::SetPlayhead(frame),
        ),
        frame > tape.frames ==> state::step(s, Message::Seeked(frame)) == state::step(
            s,
            Message::SetPlayhead(tape.frames),
        ),
{
    reveal(state::step_playback);
}

/// While it plays, the playhead is as many frames behind where playback started as
/// have passed. At the end of what is played it stays there, and playback stops.
pub proof fn law_playhead_follows_playback(s: AppState, anchor: usize, elapsed: usize)
    requires
        s.tape is Some,
        s.play_anchor == Some(anchor),
        anchor + elapsed <= usize::MAX,
    ensures
        anchor + elapsed < s.play_end ==> state::step(s, Message::Tick(elapsed)) == (AppState {
            playhead: (anchor + elapsed) as usize,
            effects: s.effects.push(EffectView::ScrollTo((anchor + elapsed) as usize)),
            ..s
        }),
        anchor + elapsed >= s.play_end ==> state::step(s, Message::Tick(elapsed)) == (AppState {
            playhead: s.play_end,
            playing: false,
            play_anchor: None,
            effects: s.effects.push(EffectView::StopPlayer),
            ..s
        }),
{
    reveal(state::step_playback);
}

/// Playing a song out of the list selects it and plays it from its start, with its
/// mix and as far as the recording goes.
pub proof fn law_listed_song_is_played(s: AppState, tape: TapeView, id: u64, i: int)
    requires
        s.tape == Some(tape),
        song_laws::is_song(s.songs, id, i),
        song_laws::countable(s.songs),
    ensures
        ({
            let t = state::step(s, Message::PlaySong(id));
            let song = s.songs[i];
            &&& t.selected == Some(id)
            &&& t.songs == s.songs
            &&& t.playing
            &&& t.playhead == song.start
            &&& t.play_anchor == Some(song.start)
            &&& t.effects.len() > s.effects.len()
            &&& t.effects.last() matches EffectView::Play { start, end, mixes } && {
                &&& start == song.start
                &&& song.end <= tape.frames ==> end == song.end
                &&& tape.frames < song.end ==> end == tape.frames
                &&& t.play_end == end
                &&& mix::plays(song, mixes)
            }
        }),
{
    reveal(state::step_playback);
    lemma_first(s.songs, id, i);
    mix::law_song_mix_plays_song(s.songs[i]);
}

/// Choosing an output stops playback and opens that device, the default one of the
/// system under its own entry of the list.
pub proof fn law_output_is_chosen(s: AppState, name: String)
    ensures
        ({
            let t = state::step(s, Message::DeviceSelected(name));
            &&& t == (AppState {
                selected_device: name@,
                playing: false,
                play_anchor: None,
                effects: t.effects,
                ..s
            })
            &&& name@ == "System default"@ ==> t.effects == s.effects.push(
                EffectView::StopPlayer,
            ).push(EffectView::SetDevice(None))
            &&& name@ != "System default"@ ==> t.effects == s.effects.push(
                EffectView::StopPlayer,
            ).push(EffectView::SetDevice(Some(name@)))
        }),
{
    reveal(state::step_playback);
}

// ----- view ---------------------------------------------------------------

/// Zooming and scrolling only ask for just that, and change nothing of the work;
/// zooming to the song shows the frames of the selected song.
pub proof fn law_view_is_changed(s: AppState, offset: Double, fpp: Double, width: Single)
    ensures
        only_asks(
            s,
            state::step(s, Message::ViewChanged { offset, fpp }),
            EffectView::SetView { offset, fpp },
        ),
        only_asks(s, state::step(s, Message::ZoomIn), EffectView::ZoomIn),
        only_asks(s, state::step(s, Message::ZoomOut), EffectView::ZoomOut),
        s.tape is Some ==> only_asks(s, state::step(s, Message::ZoomFit), EffectView::ZoomFit),
        only_asks(s, state::step(s, Message::VZoomIn), EffectView::VZoomIn),
        only_asks(s, state::step(s, Message::VZoomOut), EffectView::VZoomOut),
        only_asks(s, state::step(s, Message::VZoomReset), EffectView::VZoomReset),
        only_asks(
            s,
            state::step(s, Message::WindowResized(width)),
            EffectView::SetWidth(width),
        ),
{
    reveal(state::step_view);
}

/// Zooming to the song shows the frames of the selected song.
pub proof fn law_song_is_zoomed_to(s: AppState, id: u64, i: int)
    requires
        s.selected == Some(id),
        song_laws::is_song(s.songs, id, i),
        s.songs[i].start <= s.songs[i].end,
    ensures
        only_asks(
            s,
            state::step(s, Message::ZoomSong),
            EffectView::ZoomSong {
                start: s.songs[i].start,
                frames: (s.songs[i].end - s.songs[i].start) as usize,
            },
        ),
{
    reveal(state::step_view);
    lemma_first(s.songs, id, i);
}

// ----- times --------------------------------------------------------------

/// What is typed into a field for a time is kept until it is taken in.
pub proof fn law_typed_time_is_kept(s: AppState, field: TimeField, typed: String)
    ensures
        state::step(s, Message::TimeDraft(field, typed)) == (AppState {
            draft: Some((field, typed@)),
            ..s
        }),
        s.draft is None ==> state::step(s, Message::TimeCommit(field)) == s,
{
    reveal(state::step_times);
}

proof fn lemma_committed(s: AppState, field: TimeField)
    ensures
        state::step_times(s, Message::TimeCommit(field)) == s.time_committed(field),
{
    reveal(state::step_times);
}

/// A text that was typed into one field is dropped when another is taken in.
pub proof fn law_other_field_drops_text(
    s: AppState,
    field: TimeField,
    other: TimeField,
    typed: Seq<char>,
)
    requires
        s.draft == Some((field, typed)),
        other != field,
    ensures
        state::step(s, Message::TimeCommit(other)) == (AppState { draft: None, ..s }),
{
    lemma_committed(s, other);
}

/// Taken in, a typed time is read as a time, or refused with a message that quotes it.
pub proof fn law_typed_time_is_taken_in(s: AppState, field: TimeField, typed: Seq<char>)
    requires
        s.draft == Some((field, typed)),
        text::trimmed(typed).len() > 0 || field is SongStart || field is SongEnd,
    ensures
        time::time_parts(text::trimmed(typed)) matches Some(parts) ==> state::step(
            s,
            Message::TimeCommit(field),
        ) == (AppState {
            draft: None,
            effects: s.effects.push(
                EffectView::ReadTime { field, text: text::trimmed(typed), parts },
            ),
            ..s
        }),
        time::time_parts(text::trimmed(typed)) is None ==> state::step(
            s,
            Message::TimeCommit(field),
        ) == (AppState {
            draft: None,
            status: "\""@ + text::trimmed(typed) + "\" is not a time. Use mm:ss.mmm or seconds."@,
            ..s
        }),
{
    lemma_committed(s, field);
}

/// A time that could not be read as a frame is refused with a message that quotes it.
pub proof fn law_unread_time_is_refused(s: AppState, field: TimeField, typed: String)
    ensures
        state::step(s, Message::TimeRead(field, typed, None)) == (AppState {
            status: "\""@ + typed@ + "\" is not a time. Use mm:ss.mmm or seconds."@,
            ..s
        }),
{
    reveal(state::step_times);
}

proof fn lemma_set(s: AppState, id: u64, ch: usize)
    ensures
        state::step_tracks(s, Message::TrackStart(id, ch, None)) == s.track_start_set(id, ch, None),
        state::step_tracks(s, Message::TrackEnd(id, ch, None)) == s.track_end_set(id, ch, None),
{
    reveal(state::step_tracks);
}

/// An emptied field for the start of a track takes it away.
pub proof fn law_emptied_start_is_cleared(s: AppState, id: u64, ch: usize, typed: Seq<char>)
    requires
        text::trimmed(typed).len() == 0,
        s.draft == Some((TimeField::TrackStart(id, ch), typed)),
    ensures
        state::step(s, Message::TimeCommit(TimeField::TrackStart(id, ch))) == state::step(
            AppState { draft: None, ..s },
            Message::TrackStart(id, ch, None),
        ),
{
    lemma_committed(s, TimeField::TrackStart(id, ch));
    lemma_set(AppState { draft: None, ..s }, id, ch);
    let x = AppState { draft: None, ..s };
    assert(s.time_committed(TimeField::TrackStart(id, ch)) == x.time_applied(
        TimeField::TrackStart(id, ch),
        None,
    ));
}

/// An emptied field for the end of a track takes it away.
pub proof fn law_emptied_end_is_cleared(s: AppState, id: u64, ch: usize, typed: Seq<char>)
    requires
        text::trimmed(typed).len() == 0,
        s.draft == Some((TimeField::TrackEnd(id, ch), typed)),
    ensures
        state::step(s, Message::TimeCommit(TimeField::TrackEnd(id, ch))) == state::step(
            AppState { draft: None, ..s },
            Message::TrackEnd(id, ch, None),
        ),
{
    lemma_committed(s, TimeField::TrackEnd(id, ch));
    lemma_set(AppState { draft: None, ..s }, id, ch);
    let x = AppState { draft: None, ..s };
    assert(s.time_committed(TimeField::TrackEnd(id, ch)) == x.time_applied(
        TimeField::TrackEnd(id, ch),
        None,
    ));
}

// ----- files --------------------------------------------------------------

/// Files that are picked are opened: a project by reading it, recordings by
/// looking for a project next to them, in the order of their names and none lost.
pub proof fn law_picked_files_are_opened(s: AppState, files: Vec<String>)
    requires
        files@.len() > 0,
    ensures
        ({
            let t = state::step(s, Message::FilesChosen(Some(files)));
            let all = text::texts(files@);
            let named = path::extension(s.style, files@[0]@);
            if named matches Some(e) && text::ascii_lower(e) == "json"@ {
                only_asks(s, t, EffectView::ReadProject(files@[0]@))
            } else {
                &&& t == (AppState {
                    pending_project: None,
                    project_path: None,
                    effects: t.effects,
                    ..s
                })
                &&& t.effects.len() == s.effects.len() + 1
                &&& t.effects.take(s.effects.len() as int) == s.effects
                &&& t.effects.last() matches EffectView::ProbeSidecar { sidecar, files: list } && {
                    &&& list.to_multiset() == all.to_multiset()
                    &&& list.len() == all.len()
                    &&& natural::ordered(s.style, list)
                    &&& sidecar == project::sidecar(s.style, list)
                }
            }
        }),
        state::step(s, Message::FilesChosen(None)) == s,
        s.loading ==> state::step(s, Message::OpenFile) == s,
        !s.loading ==> only_asks(s, state::step(s, Message::OpenFile), EffectView::PickFiles),
{
    reveal(state::step_files);
    let all = text::texts(files@);
    assert(all[0] == files@[0]@);
    natural::law_files_in_order(s.style, all);
    let t = state::step(s, Message::FilesChosen(Some(files)));
    assert(t.effects.take(s.effects.len() as int) =~= s.effects);
}

proof fn lemma_first_missing(found: Seq<Option<String>>)
    ensures
        state::first_missing(found) <= found.len(),
        forall|k: int| 0 <= k < state::first_missing(found) ==> #[trigger] found[k] is Some,
        state::first_missing(found) < found.len() ==> found[state::first_missing(found) as int]
            is None,
    decreases found.len(),
{
    if found.len() > 0 && found[0] is Some {
        let rest = found.drop_first();
        lemma_first_missing(rest);
        assert forall|k: int| 0 <= k < state::first_missing(found) implies #[trigger] found[k]
            is Some by {
            if k > 0 {
                assert(rest[k - 1] is Some);
            }
        }
    }
}

/// A project that was read is opened where all files of its recording were found:
/// these files are loaded, in the order of the project, and the project waits for
/// them.
pub proof fn law_project_is_opened(
    s: AppState,
    path: String,
    p: Project,
    found: Vec<Option<String>>,
)
    requires
        found@.len() > 0,
        found@.len() == p@.recording().len(),
        forall|k: int| 0 <= k < found@.len() ==> #[trigger] found@[k] is Some,
    ensures
        ({
            let t = state::step(s, Message::ProjectRead(path, Ok(p), found));
            &&& t.pending_project == Some(p@)
            &&& t.project_path == Some(path@)
            &&& t.loading
            &&& !t.playing
            &&& t.songs == s.songs
            &&& t.tape == s.tape
            &&& t.effects.len() == s.effects.len() + 2
            &&& t.effects.last() matches EffectView::LoadRecording(files) && files.len()
                == found@.len() && forall|k: int|
                0 <= k < files.len() ==> #[trigger] files[k] == found@[k]->0@
        }),
{
    reveal(state::step_files);
    lemma_first_missing(found@);
}

/// A project that cannot be read, or a file of whose recording is missing, changes
/// nothing but the status, which names the first file that is missing.
pub proof fn law_broken_project_is_refused(
    s: AppState,
    path: String,
    p: Project,
    found: Vec<Option<String>>,
    k: int,
    e: String,
)
    requires
        found@.len() == p@.recording().len(),
        0 <= k < found@.len(),
        found@[k] is None,
        forall|j: int| 0 <= j < k ==> #[trigger] found@[j] is Some,
    ensures
        state::step(s, Message::ProjectRead(path, Ok(p), found)) == (AppState {
            status: "Recording \""@ + p@.recording()[k]
                + "\" referenced by the project was not found next to it."@,
            ..s
        }),
        state::step(s, Message::ProjectRead(path, Err(e), found)) == (AppState {
            status: e@,
            ..s
        }),
{
    reveal(state::step_files);
    lemma_first_missing(found@);
    let m = state::first_missing(found@);
    if m < k {
        assert(found@[m as int] is Some);
    }
}

/// A recording is loaded whether or not a project lies next to it. One that does,
/// and can be read, waits for the recording; one that cannot is left aside.
pub proof fn law_recording_is_loaded(
    s: AppState,
    sidecar: String,
    files: Vec<String>,
    outcome: Option<Result<Project, String>>,
)
    ensures
        ({
            let t = state::step(s, Message::SidecarProbed(sidecar, files, outcome));
            &&& t.loading
            &&& !t.playing
            &&& t.songs == s.songs
            &&& t.effects == s.effects.push(EffectView::StopPlayer).push(
                EffectView::LoadRecording(text::texts(files@)),
            )
            &&& outcome matches Some(Ok(p)) ==> t.pending_project == Some(p@) && t.project_path
                == Some(sidecar@)
            &&& !(outcome matches Some(Ok(_))) ==> t.pending_project == s.pending_project
                && t.project_path == s.project_path
        }),
{
    reveal(state::step_files);
}

/// A recording without a project starts with no songs, with the names that its
/// tracks have at first, and with the playhead at its start.
pub proof fn law_fresh_recording(s: AppState, t: Tape)
    requires
        s.pending_project is None,
    ensures
        ({
            let u = state::step(s, Message::Loaded(Ok(t)));
            &&& u.tape == Some(t@)
            &&& u.songs.len() == 0
            &&& u.track_names == t@.track_names
            &&& u.playhead == 0
            &&& u.selected is None
            &&& u.next_id == 0
            &&& !u.playing && !u.loading && !u.dirty
            &&& u.mix_format == s.mix_format && u.stem_format == s.stem_format
            &&& u.project_path == s.project_path
            &&& u.effects == s.effects.push(EffectView::StopPlayer).push(EffectView::ZoomFit)
        }),
{
    reveal(state::step_files);
}

/// A recording that cannot be loaded leaves everything as it was; a project that
/// waited for it is given up.
pub proof fn law_failed_load_keeps_work(s: AppState, e: String)
    ensures
        state::step(s, Message::Loaded(Err(e))) == (AppState {
            loading: false,
            pending_project: None,
            status: "Load failed: "@ + e@,
            ..s
        }),
{
    reveal(state::step_files);
}

/// Whether a song is one of a project, as far as a recording of so many tracks and
/// frames has it: it ends with the recording at the latest, and has one entry per
/// track, those of the project and, for further tracks, untouched ones.
pub open spec fn is_cut(song: SongView, of: SongView, channels: usize, frames: usize) -> bool {
    &&& song.title == of.title
    &&& song.start == of.start
    &&& of.end <= frames ==> song.end == of.end
    &&& frames < of.end ==> song.end == frames
    &&& song.tracks.len() == channels
    &&& forall|c: int|
        0 <= c < channels && c < of.tracks.len() ==> #[trigger] song.tracks[c] == of.tracks[c]
    &&& forall|c: int|
        of.tracks.len() <= c < channels ==> #[trigger] song.tracks[c] == (TrackSettings {
            active: true,
            start: None,
            end: None,
            volume: (Single { bits: 0x3f80_0000 }),
            pan: (Single { bits: 0 }),
            mute: false,
            solo: false,
        })
}

proof fn lemma_cut(list: Seq<SongView>, n: nat, channels: usize, frames: usize)
    requires
        n <= list.len() <= u64::MAX,
    ensures
        ({
            let kept = state::cut_songs(list, n, channels, frames);
            &&& forall|k: int|
                0 <= k < kept.len() ==> (#[trigger] kept[k]).id < n && is_cut(
                    kept[k],
                    list[kept[k].id as int],
                    channels,
                    frames,
                ) && kept[k].start < kept[k].end
            &&& forall|j: int, k: int|
                0 <= j < k < kept.len() ==> (#[trigger] kept[j]).id < (#[trigger] kept[k]).id
            &&& forall|j: int|
                0 <= j < n && (#[trigger] list[j]).start < list[j].end && list[j].start < frames
                    ==> exists|k: int| 0 <= k < kept.len() && (#[trigger] kept[k]).id == j
        }),
    decreases n,
{
    if n > 0 {
        lemma_cut(list, (n - 1) as nat, channels, frames);
        let front = state::cut_songs(list, (n - 1) as nat, channels, frames);
        let kept = state::cut_songs(list, n, channels, frames);
        let last = state::cut_song(list[n - 1], n - 1, channels, frames);
        assert(last.id == n - 1);
        if last.end > last.start {
            assert(is_cut(last, list[n - 1], channels, frames));
        }
        assert forall|k: int| 0 <= k < kept.len() implies (#[trigger] kept[k]).id < n && is_cut(
            kept[k],
            list[kept[k].id as int],
            channels,
            frames,
        ) && kept[k].start < kept[k].end by {
            if k < front.len() {
                assert(kept[k] == front[k]);
            }
        }
        assert forall|j: int, k: int| 0 <= j < k < kept.len() implies (#[trigger] kept[j]).id < (
        #[trigger] kept[k]).id by {
            assert(kept[j] == front[j]);
            if k < front.len() {
                assert(kept[k] == front[k]);
            }
        }
        assert forall|j: int|
            0 <= j < n && (#[trigger] list[j]).start < list[j].end && list[j].start
                < frames implies exists|k: int|
            0 <= k < kept.len() && (#[trigger] kept[k]).id == j by {
            if j == n - 1 {
                assert(kept[kept.len() - 1].id == j);
            } else {
                let k = choose|k: int| 0 <= k < front.len() && (#[trigger] front[k]).id == j;
                assert(kept[k] == front[k]);
            }
        }
    }
}

/// A project that waited for its recording is applied to it: every song that has a
/// part in the recording is there, in the order of the project and with its title,
/// range and tracks, and no other song. The first is selected. The names of the
/// tracks and the formats are those of the project, where it has them.
pub proof fn law_project_is_applied(s: AppState, t: Tape, p: ProjectView)
    requires
        s.pending_project == Some(p),
        p.songs.len() <= u64::MAX,
    ensures
        ({
            let u = state::step(s, Message::Loaded(Ok(t)));
            &&& u.tape == Some(t@)
            &&& forall|k: int|
                0 <= k < u.songs.len() ==> (#[trigger] u.songs[k]).id < p.songs.len() && is_cut(
                    u.songs[k],
                    p.songs[u.songs[k].id as int],
                    t.channels,
                    t.frames,
                ) && u.songs[k].start < u.songs[k].end
            &&& forall|j: int, k: int|
                0 <= j < k < u.songs.len() ==> (#[trigger] u.songs[j]).id < (
                #[trigger] u.songs[k]).id
            &&& forall|j: int|
                0 <= j < p.songs.len() && (#[trigger] p.songs[j]).start < p.songs[j].end
                    && p.songs[j].start < t.frames ==> exists|k: int|
                    0 <= k < u.songs.len() && (#[trigger] u.songs[k]).id == j
            &&& u.next_id == p.songs.len()
            &&& u.songs.len() > 0 ==> u.selected == Some(u.songs[0].id) && u.playhead
                == u.songs[0].start
            &&& u.songs.len() == 0 ==> u.selected is None && u.playhead == 0
            &&& u.track_names.len() == t.channels
            &&& forall|c: int|
                0 <= c < t.channels ==> (if c < p.track_names.len() && p.track_names[c].len() > 0 {
                    #[trigger] u.track_names[c] == p.track_names[c]
                } else {
                    u.track_names[c] == "Track "@ + text::decimal((c + 1) as nat)
                })
            &&& p.mix_format is Some ==> u.mix_format == p.mix_format->0
            &&& p.mix_format is None ==> u.mix_format == MixFormat::Float32
            &&& p.stem_format is Some ==> u.stem_format == p.stem_format->0
            &&& p.stem_format is None ==> u.stem_format == (StemFormat {
                format: Format::Flac,
                layout: StemLayout::Interleaved,
            })
            &&& u.pending_project is None
            &&& !u.playing && !u.loading && !u.dirty
            &&& u.effects.last() == EffectView::ZoomFit
        }),
{
    reveal(state::step_files);
    lemma_cut(p.songs, p.songs.len(), t.channels, t.frames);
    let u = state::step(s, Message::Loaded(Ok(t)));
    let kept = state::cut_songs(p.songs, p.songs.len(), t.channels, t.frames);
    assert(u.songs == kept);
    if kept.len() > 0 {
        assert(song_laws::is_song(kept, kept[0].id, 0));
        lemma_first(kept, kept[0].id, 0);
    }
}

/// Saving writes the work as it is: all songs, the names of the tracks, the
/// formats, and for each file of the recording how to find it again. Nothing of
/// the work changes.
pub proof fn law_work_is_saved(s: AppState, tape: TapeView, path: String)
    requires
        s.tape == Some(tape),
    ensures
        ({
            let t = state::step(s, Message::ProjectPathChosen(Some(path)));
            &&& t == (AppState { effects: t.effects, ..s })
            &&& t.effects.len() == s.effects.len() + 1
            &&& t.effects.take(s.effects.len() as int) == s.effects
            &&& t.effects.last() matches EffectView::WriteProject { path: to, project: p } && {
                &&& to == path@
                &&& p.songs == s.songs
                &&& p.track_names == s.track_names
                &&& p.sample_rate == tape.sample_rate
                &&& p.channels == tape.channels
                &&& p.mix_format == Some(s.mix_format)
                &&& p.stem_format == Some(s.stem_format)
                &&& p.audio_files.len() == tape.sources.len()
                &&& forall|k: int|
                    0 <= k < tape.sources.len() ==> #[trigger] p.audio_files[k]
                        == project::reference(s.style, path@, tape.sources[k])
            }
        }),
{
    lemma_saves(s, path);
    let t = state::step(s, Message::ProjectPathChosen(Some(path)));
    assert(t.effects.take(s.effects.len() as int) =~= s.effects);
}

proof fn lemma_saves(s: AppState, path: String)
    ensures
        state::step_files(s, Message::ProjectPathChosen(Some(path))) == s.save_started(path@),
        state::step_files(s, Message::SaveProject) == s.save(),
        state::step_files(s, Message::SaveProjectAs) == s.save_as(),
{
    reveal(state::step_files);
}

/// Saving goes to the file of the project, or to one that has yet to be picked.
pub proof fn law_save_goes_to_project(s: AppState, path: String)
    requires
        s.tape is Some,
    ensures
        s.project_path == Some(path@) ==> state::step(s, Message::SaveProject) == state::step(
            s,
            Message::ProjectPathChosen(Some(path)),
        ),
        s.project_path is None ==> state::step(s, Message::SaveProject) == state::step(
            s,
            Message::SaveProjectAs,
        ),
{
    lemma_saves(s, path);
}

/// The work counts as saved once that went well, and not before.
pub proof fn law_saved_once_written(s: AppState, path: String, e: String)
    ensures
        ({
            let t = state::step(s, Message::ProjectSaved(path, Ok(())));
            t == (AppState { project_path: Some(path@), dirty: false, status: t.status, ..s })
        }),
        state::step(s, Message::ProjectSaved(path, Err(e))) == (AppState { status: e@, ..s }),
        state::step(s, Message::ProjectPathChosen(None)) == s,
{
    reveal(state::step_files);
}

/// Saving under another name proposes the present name, or the one next to the
/// recording.
pub proof fn law_save_name_is_proposed(s: AppState, tape: TapeView)
    requires
        s.tape == Some(tape),
    ensures
        s.project_path matches Some(p) ==> only_asks(
            s,
            state::step(s, Message::SaveProjectAs),
            EffectView::PickProjectPath {
                name: path::file_name(s.style, p),
                dir: path::parent(s.style, p),
            },
        ),
        s.project_path is None ==> ({
            let p = project::sidecar(s.style, tape.sources);
            only_asks(
                s,
                state::step(s, Message::SaveProjectAs),
                EffectView::PickProjectPath {
                    name: path::file_name(s.style, p),
                    dir: path::parent(s.style, p),
                },
            )
        }),
{
    reveal(state::step_files);
}

/// The editor starts empty: nothing loaded, playing or to be saved, mixes as float
/// WAV files and tracks as one FLAC file.
pub proof fn law_editor_starts_empty(style: PathStyle)
    ensures
        ({
            let s = state::initial(style);
            &&& s.style == style
            &&& s.tape is None && s.songs.len() == 0 && s.selected is None
            &&& !s.playing && !s.loading && !s.exporting && !s.dirty
            &&& s.project_path is None && s.pending_project is None && s.draft is None
            &&& s.playhead == 0 && s.effects.len() == 0
            &&& s.mix_format == MixFormat::Float32
            &&& s.stem_format == (StemFormat {
                format: Format::Flac,
                layout: StemLayout::Interleaved,
            })
            &&& s.selected_device == "System default"@
        }),
{
}

// ----- what is said -------------------------------------------------------

/// The status says what is exported and how.
pub proof fn law_status_of_exports(s: AppState, dir: String)
    requires
        s.tape is Some,
    ensures
        state::step(s, Message::ExportAllMixesDirChosen(Some(dir))).status == "Exporting "@
            + text::decimal(s.songs.len()) + " mixes as "@ + s.mix_format.label_text() + "…"@,
        state::step(s, Message::ExportAllDirChosen(Some(dir))).status == "Exporting "@
            + text::decimal(s.songs.len()) + " songs as multitrack "@
            + s.stem_format.format.name_text() + "…"@,
{
    reveal(state::step_exports);
}

/// The status says what was loaded and what was saved.
pub proof fn law_status_of_files(s: AppState, t: Tape, path: String)
    requires
        s.pending_project is None,
    ensures
        state::step(s, Message::ProjectSaved(path, Ok(()))).status == "Saved project "@ + path@
            + " ("@ + text::decimal(s.songs.len()) + " songs)."@,
        state::step(s, Message::Loaded(Ok(t))).status == "Loaded "@ + t.name@ + " — "@
            + text::decimal(t.channels as nat) + " tracks, "@ + text::decimal(
            t.sample_rate as nat,
        ) + " Hz, "@ + text::decimal(t.bits_per_sample as nat) + " bit, "@ + t.duration@
            + ". Press N to add a song at the playhead."@,
{
    reveal(state::step_files);
}

/// The status says where a song was added.
pub proof fn law_status_of_new_song(s: AppState, at: String)
    ensures
        state::step(s, Message::SongAdded(at)) == (AppState {
            status: "Added song at "@ + at@
                + ". Drag its flags in the strip, or press I / O to set start / end at the playhead."@,
            ..s
        }),
{
    reveal(state::step_songs);
}

/// A project that was made for another number of tracks is applied with a warning, and
/// without one where the number is the same.
pub proof fn law_track_count_is_compared(s: AppState, t: Tape, p: ProjectView, path: Seq<char>)
    requires
        s.pending_project == Some(p),
        s.project_path == Some(path),
    ensures
        ({
            let u = state::step(s, Message::Loaded(Ok(t)));
            let said = state::tape_info(t@) + " — "@ + text::decimal(u.songs.len())
                + " songs from "@ + path;
            &&& p.channels == t.channels ==> u.status == said + ""@
            &&& p.channels != t.channels ==> u.status == said
                + ". Warning: the project was made for a different track count."@
        }),
{
    reveal(state::step_files);
}

/// Without a recording there is nothing to play or to seek in.
pub proof fn law_nothing_to_play_without_recording(s: AppState, frame: usize, percent: i32)
    requires
        s.tape is None,
    ensures
        !s.playing ==> state::step(s, Message::PlayPause) == s,
        state::step(s, Message::SeekVisible(percent)) == s,
        state::step(s, Message::Seeked(frame)) == s,
        state::step(s, Message::Tick(frame)) == s,
        state::step(s, Message::ZoomFit) == s,
{
    reveal(state::step_playback);
    reveal(state::step_view);
}

/// Without a recording there is nothing to save.
pub proof fn law_nothing_to_save_without_recording(s: AppState, path: String)
    requires
        s.tape is None,
    ensures
        state::step(s, Message::SaveProject) == s,
        state::step(s, Message::SaveProjectAs) == s,
        state::step(s, Message::ProjectPathChosen(Some(path))) == s,
{
    lemma_saves(s, path);
}

/// Without a recording, or without a frame in it, no song is added.
pub proof fn law_no_song_without_frames(s: AppState)
    requires
        s.tape matches Some(t) ==> t.frames == 0,
    ensures
        state::step(s, Message::AddSong) == s,
{
    reveal(state::step_songs);
}

/// Without a recording there is nothing to export.
pub proof fn law_nothing_to_export_without_recording(s: AppState, path: String)
    requires
        s.tape is None,
    ensures
        state::step(s, Message::ExportMixPathChosen(Some(path))) == s,
        state::step(s, Message::ExportMultiPathChosen(Some(path))) == s,
        state::step(s, Message::ExportAllDirChosen(Some(path))) == s,
        state::step(s, Message::ExportAllMixesDirChosen(Some(path))) == s,
{
    reveal(state::step_exports);
}

/// Where no song is selected there is none to export.
pub proof fn law_nothing_to_export_without_song(s: AppState, path: String)
    requires
        song_laws::no_song_selected(s),
    ensures
        state::step(s, Message::ExportMixPathChosen(Some(path))) == s,
        state::step(s, Message::ExportMultiPathChosen(Some(path))) == s,
{
    reveal(state::step_exports);
    if let Some(id) = s.selected {
        songs::lemma_place(s.songs, id);
    }
}

/// Where no song is selected there is none to zoom to; while nothing plays, time passes
/// without an effect; and where no file was picked, none is opened.
pub proof fn law_nothing_happens_unasked(s: AppState, elapsed: usize, none: Vec<String>)
    requires
        song_laws::no_song_selected(s),
        s.play_anchor is None,
        none@.len() == 0,
    ensures
        state::step(s, Message::ZoomSong) == s,
        state::step(s, Message::Tick(elapsed)) == s,
        state::step(s, Message::FilesChosen(Some(none))) == s,
{
    lemma_unasked(s, elapsed, none);
    if let Some(id) = s.selected {
        songs::lemma_place(s.songs, id);
    }
}

proof fn lemma_unasked(s: AppState, elapsed: usize, none: Vec<String>)
    ensures
        state::step_playback(s, Message::Tick(elapsed)) == s.ticked(elapsed),
        state::step_files(s, Message::FilesChosen(Some(none))) == s.files_chosen(
            text::texts(none@),
        ),
        s.selected_song() is None ==> state::step_view(s, Message::ZoomSong) == s,
{
    reveal(state::step_playback);
    reveal(state::step_view);
    reveal(state::step_files);
}

/// Playing a song that is not in the list only selects it.
pub proof fn law_unknown_song_is_not_played(s: AppState, id: u64)
    requires
        forall|i: int| 0 <= i < s.songs.len() ==> (#[trigger] s.songs[i]).id != id,
    ensures
        state::step(s, Message::PlaySong(id)) == state::step(s, Message::SelectSong(Some(id))),
{
    reveal(state::step_playback);
    reveal(state::step_songs);
    songs::lemma_place(s.songs, id);
}

/// A project that names no file of a recording cannot be opened; only the status
/// changes.
pub proof fn law_project_without_files_is_refused(
    s: AppState,
    path: String,
    p: Project,
    found: Vec<Option<String>>,
)
    requires
        p@.audio_files.len() == 0,
        p@.audio_file.len() == 0,
        found@.len() == 0,
    ensures
        ({
            let t = state::step(s, Message::ProjectRead(path, Ok(p), found));
            t == (AppState { status: t.status, ..s })
        }),
{
    reveal(state::step_files);
}

/// While a recording is loaded the status names its file, or says how many there are.
pub proof fn law_status_of_loading(
    s: AppState,
    sidecar: String,
    files: Vec<String>,
    outcome: Option<Result<Project, String>>,
)
    ensures
        ({
            let t = state::step(s, Message::SidecarProbed(sidecar, files, outcome));
            &&& files@.len() == 1 ==> t.status == "Loading "@ + files@[0]@ + "…"@
            &&& files@.len() != 1 ==> t.status == "Loading "@ + text::decimal(files@.len())
                + " files…"@
        }),
{
    reveal(state::step_files);
    if files@.len() == 1 {
        assert(text::texts(files@)[0] == files@[0]@);
    }
}

}
