//! What holds of the editor whatever it is told.

use crate::message::{EffectView, Message, TapeView, TimeField};
use crate::path;
use crate::project;
use crate::project::{ProjectView, SongView, TrackSettings};
use crate::songs;
use crate::state;
use crate::state::AppState;
use vstd::prelude::*;

verus! {

/// Ids are distinct, and the next one is still free.
pub open spec fn ids_in_order(s: AppState) -> bool {
    &&& songs::distinct(s.songs)
    &&& forall|i: int| 0 <= i < s.songs.len() ==> (#[trigger] s.songs[i]).id < s.next_id
}

/// Whether two lists have the same ids in the same places.
spec fn same_ids(a: Seq<SongView>, b: Seq<SongView>) -> bool {
    &&& a.len() == b.len()
    &&& forall|i: int| 0 <= i < a.len() ==> (#[trigger] a[i]).id == b[i].id
}

/// Whether a song starts in the recording and ends after that, no further
/// behind the recording than the shortest song is long.
pub open spec fn lies_in(s: AppState, song: SongView) -> bool {
    &&& song.start <= song.end
    &&& song.start <= s.frames()
    &&& song.end <= s.frames() + s.min_range()
}

/// Whether all songs lie in the recording, at whose end the shortest song can
/// be counted.
pub open spec fn songs_in_recording(s: AppState) -> bool {
    &&& s.frames() + s.min_range() <= usize::MAX
    &&& forall|i: int| 0 <= i < s.songs.len() ==> lies_in(s, #[trigger] s.songs[i])
}

/// Whether two lists have the same starts and ends in the same places.
spec fn same_ranges(a: Seq<SongView>, b: Seq<SongView>) -> bool {
    &&& a.len() == b.len()
    &&& forall|i: int|
        0 <= i < a.len() ==> (#[trigger] a[i]).start == b[i].start && a[i].end == b[i].end
}

/// Whether a step keeps the order of the songs and of their ids, and their
/// place in the recording.
spec fn keeps_order(s: AppState, t: AppState) -> bool {
    &&& songs::sorted(s.songs) ==> songs::sorted(t.songs)
    &&& ids_in_order(s) ==> ids_in_order(t)
    &&& songs_in_recording(s) ==> songs_in_recording(t)
}

proof fn lemma_same(s: AppState, t: AppState)
    requires
        t.next_id == s.next_id,
        t.tape == s.tape,
        same_ids(t.songs, s.songs),
        same_ranges(t.songs, s.songs),
    ensures
        keeps_order(s, t),
{
    if ids_in_order(s) {
        assert forall|i: int, j: int| 0 <= i < j < t.songs.len() implies t.songs[i].id
            != t.songs[j].id by {
            assert(s.songs[i].id != s.songs[j].id);
        }
    }
    if songs::sorted(s.songs) {
        assert forall|i: int, j: int| 0 <= i <= j < t.songs.len() implies t.songs[i].start
            <= t.songs[j].start by {
            assert(s.songs[i].start <= s.songs[j].start);
        }
    }
    lemma_ids(s, t);
}

proof fn lemma_changed(s: AppState, t: AppState)
    requires
        ids_in_order(s) ==> ids_in_order(t),
        songs_in_recording(s) ==> songs_in_recording(t),
    ensures
        keeps_order(s, t.changed()),
{
    let u = t.changed();
    assert(u.songs == songs::by_start(t.songs));
    assert(u.next_id == t.next_id);
    assert(u.tape == t.tape);
    songs::law_songs_in_tape_order(t.songs);
    songs::lemma_by_start_from(t.songs);
    if songs_in_recording(s) {
        assert forall|i: int| 0 <= i < u.songs.len() implies lies_in(u, #[trigger] u.songs[i]) by {
            assert(t.songs.contains(songs::by_start(t.songs)[i]));
            let k = choose|k: int| 0 <= k < t.songs.len() && t.songs[k] == u.songs[i];
            assert(lies_in(t, t.songs[k]));
        }
    }
    if ids_in_order(s) {
        songs::lemma_by_start_distinct(t.songs);
        assert forall|i: int| 0 <= i < u.songs.len() implies (#[trigger] u.songs[i]).id
            < u.next_id by {
            assert(t.songs.contains(songs::by_start(t.songs)[i]));
            let k = choose|k: int| 0 <= k < t.songs.len() && t.songs[k] == u.songs[i];
            assert(t.songs[k].id < t.next_id);
        }
    }
}

proof fn lemma_ids(s: AppState, t: AppState)
    requires
        t.next_id == s.next_id,
        t.tape == s.tape,
        same_ids(t.songs, s.songs),
    ensures
        ids_in_order(s) ==> ids_in_order(t),
        same_ranges(t.songs, s.songs) && songs_in_recording(s) ==> songs_in_recording(t),
{
    if same_ranges(t.songs, s.songs) && songs_in_recording(s) {
        assert forall|i: int| 0 <= i < t.songs.len() implies lies_in(t, #[trigger] t.songs[i]) by {
            assert(lies_in(s, s.songs[i]));
        }
    }
    if ids_in_order(s) {
        assert forall|i: int, j: int| 0 <= i < j < t.songs.len() implies t.songs[i].id
            != t.songs[j].id by {
            assert(s.songs[i].id != s.songs[j].id);
        }
    }
}

proof fn lemma_start_set(s: AppState, id: u64, frame: usize)
    ensures
        keeps_order(s, s.song_start_set(id, frame)),
{
    songs::lemma_place(s.songs, id);
    let t = match songs::song_of(s.songs, id) {
        Some(x) => AppState {
            songs: songs::with_start(s.songs, id, s.start_for(x, frame)),
            ..s
        },
        None => s,
    };
    lemma_ids(s, t);
    if songs_in_recording(s) {
        assert forall|i: int| 0 <= i < t.songs.len() implies lies_in(t, #[trigger] t.songs[i]) by {
            assert(lies_in(s, s.songs[i]));
        }
    }
    lemma_changed(s, t);
}

proof fn lemma_end_set(s: AppState, id: u64, frame: usize)
    ensures
        keeps_order(s, s.song_end_set(id, frame)),
{
    songs::lemma_place(s.songs, id);
    let t = match songs::song_of(s.songs, id) {
        Some(x) => AppState { songs: songs::with_end(s.songs, id, s.end_for(x, frame)), ..s },
        None => s,
    };
    lemma_ids(s, t);
    if songs_in_recording(s) {
        assert forall|i: int| 0 <= i < t.songs.len() implies lies_in(t, #[trigger] t.songs[i]) by {
            assert(lies_in(s, s.songs[i]));
        }
    }
    lemma_changed(s, t);
}

proof fn lemma_track_put(s: AppState, id: u64, ch: usize, x: TrackSettings)
    ensures
        same_ids(s.track_put(id, ch, x).songs, s.songs),
        same_ranges(s.track_put(id, ch, x).songs, s.songs),
        s.track_put(id, ch, x).next_id == s.next_id,
        s.track_put(id, ch, x).tape == s.tape,
{
    songs::lemma_place(s.songs, id);
}

proof fn lemma_track_start_set(s: AppState, id: u64, ch: usize, value: Option<usize>)
    ensures
        keeps_order(s, s.track_start_set(id, ch, value)),
{
    match (songs::song_of(s.songs, id), songs::track_of(s.songs, id, ch as int)) {
        (Some(x), Some(t)) => {
            let y = TrackSettings { start: state::track_start_for(x, ch as int, value), ..t };
            lemma_track_put(s, id, ch, y);
            lemma_ids(s, s.track_put(id, ch, y));
            lemma_changed(s, s.track_put(id, ch, y));
        },
        _ => {
            lemma_changed(s, s);
        },
    }
}

proof fn lemma_track_end_set(s: AppState, id: u64, ch: usize, value: Option<usize>)
    ensures
        keeps_order(s, s.track_end_set(id, ch, value)),
{
    match (songs::song_of(s.songs, id), songs::track_of(s.songs, id, ch as int)) {
        (Some(x), Some(t)) => {
            let y = TrackSettings { end: state::track_end_for(x, ch as int, value), ..t };
            lemma_track_put(s, id, ch, y);
            lemma_ids(s, s.track_put(id, ch, y));
            lemma_changed(s, s.track_put(id, ch, y));
        },
        _ => {
            lemma_changed(s, s);
        },
    }
}

proof fn lemma_activated(s: AppState, id: u64, ch: usize, active: bool)
    ensures
        keeps_order(s, s.track_activated(id, ch, active)),
        keeps_order(s, s.track_toggled(id, ch)),
{
    match songs::track_of(s.songs, id, ch as int) {
        Some(t) => {
            let y = TrackSettings { active, ..t };
            let z = TrackSettings { active: !t.active, ..t };
            lemma_track_put(s, id, ch, y);
            lemma_ids(s, s.track_put(id, ch, y));
            lemma_changed(s, s.track_put(id, ch, y));
            lemma_track_put(s, id, ch, z);
            lemma_ids(s, s.track_put(id, ch, z));
            lemma_changed(s, s.track_put(id, ch, z));
        },
        None => {
            lemma_changed(s, s);
        },
    }
}

proof fn lemma_mixed(s: AppState, id: u64, ch: usize, y: TrackSettings)
    ensures
        keeps_order(s, s.track_put(id, ch, y).mixed()),
        keeps_order(s, s.mixed()),
{
    lemma_track_put(s, id, ch, y);
    lemma_same(s, s.track_put(id, ch, y).mixed());
    lemma_same(s, s.mixed());
}

proof fn lemma_added(s: AppState)
    requires
        s.next_id < u64::MAX,
    ensures
        keeps_order(s, s.song_added()),
{
    if s.frames() > 0 {
        let t = AppState {
            songs: s.songs.push(s.new_song()),
            next_id: (s.next_id + 1) as u64,
            ..s
        };
        if ids_in_order(s) {
            assert forall|i: int, j: int| 0 <= i < j < t.songs.len() implies t.songs[i].id
                != t.songs[j].id by {
                assert(s.songs[i].id < s.next_id);
                if j < s.songs.len() {
                    assert(s.songs[i].id != s.songs[j].id);
                }
            }
            assert forall|i: int| 0 <= i < t.songs.len() implies (#[trigger] t.songs[i]).id
                < t.next_id by {
                if i < s.songs.len() {
                    assert(s.songs[i].id < s.next_id);
                }
            }
        }
        if songs_in_recording(s) {
            assert forall|i: int| 0 <= i < t.songs.len() implies lies_in(
                t,
                #[trigger] t.songs[i],
            ) by {
                if i < s.songs.len() {
                    assert(lies_in(s, s.songs[i]));
                }
            }
        }
        lemma_changed(s, t);
        let u = t.changed();
        assert(s.song_added().songs == u.songs);
        assert(s.song_added().next_id == u.next_id);
        assert(s.song_added().tape == u.tape);
    }
}

proof fn lemma_deleted(s: AppState, id: u64)
    ensures
        keeps_order(s, s.song_deleted(id)),
{
    let base = if s.selected == Some(id) {
        AppState { selected: None, ..s.stopped() }
    } else {
        s
    };
    let t = AppState { songs: songs::without(base.songs, id), draft: None, ..base };
    songs::law_delete_removes(s.songs, id);
    if ids_in_order(s) {
        songs::lemma_without_distinct(s.songs, id);
        assert forall|i: int| 0 <= i < t.songs.len() implies (#[trigger] t.songs[i]).id
            < t.next_id by {
            assert(s.songs.contains(songs::without(s.songs, id)[i]));
            let k = choose|k: int| 0 <= k < s.songs.len() && s.songs[k] == t.songs[i];
            assert(s.songs[k].id < s.next_id);
        }
    }
    if songs_in_recording(s) {
        assert forall|i: int| 0 <= i < t.songs.len() implies lies_in(t, #[trigger] t.songs[i]) by {
            assert(s.songs.contains(songs::without(s.songs, id)[i]));
            let k = choose|k: int| 0 <= k < s.songs.len() && s.songs[k] == t.songs[i];
            assert(lies_in(s, s.songs[k]));
        }
    }
    lemma_changed(s, t);
}

proof fn lemma_applied(s: AppState, field: TimeField, frame: Option<usize>)
    ensures
        keeps_order(s, s.time_applied(field, frame)),
{
    match (field, frame) {
        (TimeField::SongStart(id), Some(f)) => {
            lemma_start_set(s, id, f);
        },
        (TimeField::SongEnd(id), Some(f)) => {
            lemma_end_set(s, id, f);
        },
        (TimeField::TrackStart(id, ch), f) => {
            lemma_track_start_set(s, id, ch, f);
        },
        (TimeField::TrackEnd(id, ch), f) => {
            lemma_track_end_set(s, id, ch, f);
        },
        _ => {},
    }
}

proof fn lemma_files(s: AppState, m: Message)
    requires
        state::area_of(m) == state::Area::Files,
        !(m matches Message::Loaded(Ok(_))),
    ensures
        keeps_order(s, state::step_files(s, m)),
{
    reveal(state::step_files);
    lemma_same(s, state::step_files(s, m));
}

proof fn lemma_view(s: AppState, m: Message)
    requires
        state::area_of(m) == state::Area::Look,
    ensures
        keeps_order(s, state::step_view(s, m)),
{
    reveal(state::step_view);
    lemma_same(s, state::step_view(s, m));
}

proof fn lemma_playback(s: AppState, m: Message)
    requires
        state::area_of(m) == state::Area::Playback,
    ensures
        keeps_order(s, state::step_playback(s, m)),
{
    reveal(state::step_playback);
    lemma_same(s, state::step_playback(s, m));
}

proof fn lemma_exports(s: AppState, m: Message)
    requires
        state::area_of(m) == state::Area::Exports,
    ensures
        keeps_order(s, state::step_exports(s, m)),
{
    reveal(state::step_exports);
    lemma_same(s, state::step_exports(s, m));
}

proof fn lemma_times(s: AppState, m: Message)
    requires
        state::area_of(m) == state::Area::Times,
    ensures
        keeps_order(s, state::step_times(s, m)),
{
    reveal(state::step_times);
    match m {
        Message::TimeCommit(field) => {
            let t = AppState { draft: None, ..s };
            lemma_applied(t, field, None);
            if !(keeps_order(s, s.time_committed(field))) {
                lemma_same(s, s.time_committed(field));
            }
        },
        Message::TimeRead(field, typed, frame) => {
            lemma_applied(s, field, frame);
            if frame is None {
                lemma_same(s, s.time_read(field, typed@, frame));
            }
        },
        _ => {
            lemma_same(s, state::step_times(s, m));
        },
    }
}

proof fn lemma_songs(s: AppState, m: Message)
    requires
        state::area_of(m) == state::Area::Songs,
        state::acceptable(s, m),
    ensures
        keeps_order(s, state::step_songs(s, m)),
{
    reveal(state::step_songs);
    match m {
        Message::AddSong => {
            lemma_added(s);
        },
        Message::DeleteSong(id) => {
            lemma_deleted(s, id);
        },
        Message::SongTitle(id, title) => {
            songs::lemma_place(s.songs, id);
            lemma_same(s, s.song_titled(id, title@));
        },
        Message::SongStartToPlayhead => {
            if s.selected is Some {
                lemma_start_set(s, s.selected->0, s.playhead);
            }
        },
        Message::SongEndToPlayhead => {
            if s.selected is Some {
                lemma_end_set(s, s.selected->0, s.playhead);
            }
        },
        Message::MoveSongStart(id, frame) => {
            lemma_start_set(s, id, frame);
        },
        Message::MoveSongEnd(id, frame) => {
            lemma_end_set(s, id, frame);
        },
        _ => {
            lemma_same(s, state::step_songs(s, m));
        },
    }
}

proof fn lemma_tracks(s: AppState, m: Message)
    requires
        state::area_of(m) == state::Area::Tracks,
    ensures
        keeps_order(s, state::step_tracks(s, m)),
{
    reveal(state::step_tracks);
    match m {
        Message::TrackActive(id, ch, active) => {
            lemma_activated(s, id, ch, active);
        },
        Message::ToggleTrackActive(id, ch) => {
            lemma_activated(s, id, ch, true);
        },
        Message::TrackStart(id, ch, value) => {
            lemma_track_start_set(s, id, ch, value);
        },
        Message::TrackEnd(id, ch, value) => {
            lemma_track_end_set(s, id, ch, value);
        },
        Message::TrackStartToPlayhead(id, ch) => {
            lemma_track_start_set(s, id, ch, Some(s.playhead));
        },
        Message::TrackEndToPlayhead(id, ch) => {
            lemma_track_end_set(s, id, ch, Some(s.playhead));
        },
        Message::TrackVolume(id, ch, volume) => {
            let t = songs::track_of(s.songs, id, ch as int)->0;
            lemma_mixed(s, id, ch, TrackSettings { volume, ..t });
        },
        Message::TrackPan(id, ch, pan) => {
            let t = songs::track_of(s.songs, id, ch as int)->0;
            lemma_mixed(s, id, ch, TrackSettings { pan, ..t });
        },
        Message::TrackMute(id, ch, mute) => {
            let t = songs::track_of(s.songs, id, ch as int)->0;
            lemma_mixed(s, id, ch, TrackSettings { mute, ..t });
        },
        Message::TrackSolo(id, ch, solo) => {
            let t = songs::track_of(s.songs, id, ch as int)->0;
            lemma_mixed(s, id, ch, TrackSettings { solo, ..t });
        },
        Message::ResetTrackMix(id, ch) => {
            let t = songs::track_of(s.songs, id, ch as int)->0;
            lemma_mixed(
                s,
                id,
                ch,
                TrackSettings {
                    volume: project::untouched().volume,
                    pan: project::untouched().pan,
                    mute: false,
                    solo: false,
                    ..t
                },
            );
        },
        _ => {
            lemma_same(s, state::step_tracks(s, m));
        },
    }
}

proof fn lemma_step(s: AppState, m: Message)
    requires
        state::acceptable(s, m),
        !(m matches Message::Loaded(Ok(_))),
    ensures
        keeps_order(s, state::step(s, m)),
{
    match state::area_of(m) {
        state::Area::Files => {
            lemma_files(s, m);
        },
        state::Area::Look => {
            lemma_view(s, m);
        },
        state::Area::Playback => {
            lemma_playback(s, m);
        },
        state::Area::Songs => {
            lemma_songs(s, m);
        },
        state::Area::Tracks => {
            lemma_tracks(s, m);
        },
        state::Area::Times => {
            lemma_times(s, m);
        },
        state::Area::Exports => {
            lemma_exports(s, m);
        },
    }
}

/// The songs of a project that are kept have their places in the file as ids,
/// start where the file says, and lie in the recording.
proof fn lemma_cut(list: Seq<SongView>, n: nat, channels: usize, frames: usize)
    requires
        n <= list.len(),
        n <= u64::MAX,
    ensures
        ({
            let kept = state::cut_songs(list, n, channels, frames);
            &&& forall|i: int| 0 <= i < kept.len() ==> (#[trigger] kept[i]).id < n
            &&& forall|i: int, j: int| 0 <= i < j < kept.len() ==> kept[i].id < kept[j].id
            &&& forall|i: int|
                0 <= i < kept.len() ==> (#[trigger] kept[i]).start == list[kept[i].id as int].start
            &&& forall|i: int|
                0 <= i < kept.len() ==> (#[trigger] kept[i]).start < kept[i].end <= frames
        }),
    decreases n,
{
    if n > 0 {
        lemma_cut(list, (n - 1) as nat, channels, frames);
        let front = state::cut_songs(list, (n - 1) as nat, channels, frames);
        let kept = state::cut_songs(list, n, channels, frames);
        let s = state::cut_song(list[n - 1], n - 1, channels, frames);
        assert(s.id == n - 1);
        assert forall|i: int, j: int| 0 <= i < j < kept.len() implies kept[i].id < kept[j].id by {
            assert(kept[i] == front[i]);
            if j < front.len() {
                assert(kept[j] == front[j]);
            }
        }
        assert forall|i: int| 0 <= i < kept.len() implies (#[trigger] kept[i]).id < n && kept[i].start
            == list[kept[i].id as int].start && kept[i].start < kept[i].end <= frames by {
            if i < front.len() {
                assert(kept[i] == front[i]);
            }
        }
    }
}

/// What is so once a recording is loaded, whatever was before.
proof fn lemma_loaded(s: AppState, t: TapeView)
    requires
        t.frames + state::NEW_SONG_SECS * t.sample_rate < usize::MAX,
        s.pending_project matches Some(p) ==> p.songs.len() <= u64::MAX,
    ensures
        ids_in_order(s.tape_loaded(t)),
        songs_in_recording(s.tape_loaded(t)),
        (s.pending_project matches Some(p) ==> songs::sorted(p.songs)) ==> songs::sorted(
            s.tape_loaded(t).songs,
        ),
{
    let u = s.tape_loaded(t);
    assert(u.tape == Some(t));
    match s.pending_project {
        Some(p) => {
            lemma_cut(p.songs, p.songs.len(), t.channels, t.frames);
            let kept = state::cut_songs(p.songs, p.songs.len(), t.channels, t.frames);
            assert(u.songs == kept);
            assert(u.next_id == p.songs.len() as u64);
            assert forall|i: int, j: int| 0 <= i < j < kept.len() implies kept[i].id
                != kept[j].id by {
                assert(kept[i].id < kept[j].id);
            }
            if songs::sorted(p.songs) {
                assert forall|i: int, j: int| 0 <= i <= j < kept.len() implies kept[i].start
                    <= kept[j].start by {
                    if i < j {
                        assert(kept[i].id < kept[j].id);
                        assert(p.songs[kept[i].id as int].start <= p.songs[kept[j].id as int].start);
                    }
                }
            }
        },
        None => {},
    }
}

/// Once in the order of the tape, the songs stay in it whatever happens. A
/// project that is opened must have its songs in order: they keep the order of
/// the file until the first change.
pub proof fn law_songs_stay_in_order(s: AppState, m: Message)
    requires
        state::acceptable(s, m),
        songs::sorted(s.songs),
        s.pending_project matches Some(p) ==> p.songs.len() <= u64::MAX && songs::sorted(p.songs),
    ensures
        songs::sorted(state::step(s, m).songs),
{
    match m {
        Message::Loaded(Ok(t)) => {
            reveal(state::step_files);
            lemma_loaded(s, t@);
        },
        _ => {
            lemma_step(s, m);
        },
    }
}

/// No two songs ever have the same id, and the next one is free.
pub proof fn law_ids_stay_distinct(s: AppState, m: Message)
    requires
        state::acceptable(s, m),
        ids_in_order(s),
        s.pending_project matches Some(p) ==> p.songs.len() <= u64::MAX,
    ensures
        ids_in_order(state::step(s, m)),
{
    match m {
        Message::Loaded(Ok(t)) => {
            reveal(state::step_files);
            lemma_loaded(s, t@);
        },
        _ => {
            lemma_step(s, m);
        },
    }
}

/// Songs stay in the recording: they start in it, and end no further behind it
/// than the shortest song is long.
pub proof fn law_songs_stay_in_recording(s: AppState, m: Message)
    requires
        state::acceptable(s, m),
        songs_in_recording(s),
        s.pending_project matches Some(p) ==> p.songs.len() <= u64::MAX,
    ensures
        songs_in_recording(state::step(s, m)),
{
    match m {
        Message::Loaded(Ok(t)) => {
            reveal(state::step_files);
            lemma_loaded(s, t@);
        },
        _ => {
            lemma_step(s, m);
        },
    }
}

proof fn lemma_cut_same(list: Seq<SongView>, n: nat, channels: usize, frames: usize)
    requires
        n <= list.len(),
        forall|i: int|
            0 <= i < list.len() ==> (#[trigger] list[i]).start < list[i].end <= frames
                && list[i].tracks.len() == channels,
    ensures
        state::cut_songs(list, n, channels, frames) == project::numbered(list).take(n as int),
    decreases n,
{
    let all = project::numbered(list);
    if n > 0 {
        lemma_cut_same(list, (n - 1) as nat, channels, frames);
        let s = list[n - 1];
        assert(s.fitted(channels as nat).tracks =~= s.tracks);
        assert(state::cut_song(s, n - 1, channels, frames) =~= all[n - 1]);
        assert(all.take(n as int) =~= all.take(n - 1).push(all[n - 1]));
    } else {
        assert(all.take(0) =~= Seq::empty());
    }
}

/// What is saved is what is loaded: a project that is read back, the same but
/// for ids, and applied to the recording that it was saved for gives the songs,
/// the names of the tracks and the formats back, the songs with ids counted
/// through. The songs have to lie inside the recording, and the tracks have to
/// have names.
pub proof fn law_project_gives_work_back(
    s: AppState,
    path: Seq<char>,
    t: TapeView,
    p: ProjectView,
    u: AppState,
)
    requires
        forall|i: int|
            0 <= i < s.songs.len() ==> (#[trigger] s.songs[i]).start < s.songs[i].end <= t.frames
                && s.songs[i].tracks.len() == t.channels,
        s.songs.len() <= u64::MAX,
        s.track_names.len() == t.channels,
        forall|i: int| 0 <= i < s.track_names.len() ==> (#[trigger] s.track_names[i]).len() > 0,
        project::same_work(s.project_for(path, t), p),
        u.tape == Some(t),
    ensures
        ({
            let v = u.project_applied(p);
            &&& v.songs == project::numbered(s.songs)
            &&& v.track_names == s.track_names
            &&& v.mix_format == s.mix_format
            &&& v.stem_format == s.stem_format
            &&& ids_in_order(v)
        }),
{
    let v = u.project_applied(p);
    project::law_read_project_is_same_work(s.project_for(path, t), p);
    assert forall|i: int| 0 <= i < p.songs.len() implies (#[trigger] p.songs[i]).start
        < p.songs[i].end <= t.frames && p.songs[i].tracks.len() == t.channels by {
        assert(s.songs[i].start < s.songs[i].end);
    }
    lemma_cut_same(p.songs, p.songs.len(), t.channels, t.frames);
    let all = project::numbered(s.songs);
    assert(all.take(s.songs.len() as int) =~= all);
    assert(state::project_names(s.track_names, t.channels as nat) =~= s.track_names);
    assert(v.songs == all);
    assert(v.next_id == all.len() as u64);
}

/// A song with other settings for a track.
pub open spec fn with_settings(s: SongView, ch: int, t: TrackSettings) -> SongView {
    SongView { tracks: s.tracks.update(ch, t), ..s }
}

/// Setting the start of a used track never makes its range collapse, wherever
/// it is dragged, as long as the track ends past the start of the song.
pub proof fn law_track_start_keeps_range(s: SongView, ch: int, value: Option<usize>)
    requires
        s.start <= s.end,
        s.uses(ch),
        s.track_end(ch) > s.start,
    ensures
        with_settings(
            s,
            ch,
            TrackSettings { start: state::track_start_for(s, ch, value), ..s.tracks[ch] },
        ).range(ch) is Some,
{
}

/// Setting the end of a used track never makes its range collapse, as long as
/// the track starts before the end of the song.
pub proof fn law_track_end_keeps_range(s: SongView, ch: int, value: Option<usize>)
    requires
        s.start <= s.end < usize::MAX,
        s.uses(ch),
        s.track_start(ch) < s.end,
    ensures
        with_settings(
            s,
            ch,
            TrackSettings { end: state::track_end_for(s, ch, value), ..s.tracks[ch] },
        ).range(ch) is Some,
{
}

/// Moving the start or the end leaves a song half a second at least, where it
/// ends late enough for that.
pub proof fn law_song_keeps_shortest_length(s: AppState, song: SongView, frame: usize)
    requires
        s.sound(),
        s.keeps(song),
    ensures
        s.end_for(song, frame) - song.start >= s.min_range(),
        song.end >= s.min_range() ==> song.end - s.start_for(song, frame) >= s.min_range(),
        s.start_for(song, frame) <= song.end,
{
}

/// A new song lies inside the recording and is not empty; it starts at the
/// playhead where that leaves it half a second.
pub proof fn law_new_song_in_recording(s: AppState)
    requires
        s.sound(),
        s.frames() > 0,
        s.rate() >= 2,
    ensures
        s.new_song().start < s.new_song().end <= s.frames(),
        s.playhead + s.min_range() <= s.frames() ==> s.new_song().start == s.playhead,
        s.new_song().tracks.len() == s.channels(),
        forall|ch: int| 0 <= ch < s.channels() ==> #[trigger] s.new_song().uses(ch),
{
}

/// Playback starts inside what is played, where there is anything to play: at
/// the playhead if that lies inside, else at the start.
pub proof fn law_playback_starts_inside(s: AppState)
    requires
        s.tape is Some,
        s.plan().0 < s.plan().1,
    ensures
        s.started().playing,
        s.plan().0 <= s.started().playhead < s.plan().1,
        s.started().play_end == s.plan().1,
        s.plan().0 <= s.playhead < s.plan().1 ==> s.started().playhead == s.playhead,
        s.started().effects == s.effects.push(
            EffectView::Play {
                start: s.started().playhead,
                end: s.plan().1,
                mixes: s.plan().2,
            },
        ),
{
}

/// While it plays the playhead never runs past the end, and playback stops
/// when it gets there.
pub proof fn law_playhead_stops_at_end(s: AppState, elapsed: usize)
    requires
        s.tape is Some,
        s.play_anchor is Some,
        s.play_anchor->0 + elapsed <= usize::MAX,
    ensures
        s.ticked(elapsed).playhead <= s.play_end,
        s.play_anchor->0 + elapsed >= s.play_end <==> s.ticked(elapsed).play_anchor is None,
        s.play_anchor->0 + elapsed >= s.play_end ==> !s.ticked(elapsed).playing,
{
}

/// No export is ever started over one of the files of the recording.
pub proof fn law_recording_never_overwritten(s: AppState, path: Seq<char>, is_mix: bool)
    requires
        s.is_source(path),
    ensures
        s.export_started(path, is_mix).effects == s.effects,
        s.export_started(path, is_mix).exporting == s.exporting,
{
}

/// Only one export runs at a time: none is offered while one is running.
pub proof fn law_one_export_at_a_time(s: AppState)
    requires
        s.exporting,
    ensures
        s.mix_export_asked() == s,
        s.multi_export_asked() == s,
        s.all_export_asked(true) == s,
        s.all_export_asked(false) == s,
{
}

/// The faders, pans, mutes and solos of a song change nothing but the mix:
/// every song keeps its place, and every track its range.
pub proof fn law_mix_leaves_ranges(list: Seq<SongView>, id: u64, ch: int, t: TrackSettings, i: int)
    requires
        0 <= i < list.len(),
        songs::track_of(list, id, ch) matches Some(u) && t.active == u.active && t.start == u.start
            && t.end == u.end,
    ensures
        ({
            let a = list[i];
            let b = songs::with_track(list, id, ch, t)[i];
            &&& b.id == a.id && b.title == a.title && b.start == a.start && b.end == a.end
            &&& b.tracks.len() == a.tracks.len()
            &&& forall|c: int| #[trigger] b.range(c) == a.range(c)
        }),
{
    songs::lemma_place(list, id);
}

/// Changing one song leaves all others as they are.
pub proof fn law_other_songs_untouched(list: Seq<SongView>, id: u64, song: SongView, i: int)
    requires
        0 <= i < list.len(),
        list[i].id != id,
    ensures
        songs::with_song(list, id, song).len() == list.len(),
        songs::with_song(list, id, song)[i] == list[i],
{
    songs::lemma_place(list, id);
}

}
