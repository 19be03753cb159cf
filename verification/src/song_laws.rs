//! What the editor does to the songs, said of the songs themselves: what each
//! message changes, what it leaves alone, and what is heard of it.

use crate::message::{EffectView, Message, TapeView, TimeField};
use crate::mix;
use crate::mix::TrackMix;
use crate::project::{SongView, TrackSettings};
use crate::single::Single;
use crate::songs;
use crate::state;
use crate::state::AppState;
use crate::text;
use vstd::prelude::*;

verus! {

/// Whether the song at a place is the one that an id stands for: the first that
/// has it.
pub open spec fn is_song(list: Seq<SongView>, id: u64, i: int) -> bool {
    &&& 0 <= i < list.len()
    &&& list[i].id == id
    &&& forall|j: int| 0 <= j < i ==> (#[trigger] list[j]).id != id
}

/// Whether every song has an id of its own.
pub open spec fn own_ids(list: Seq<SongView>) -> bool {
    forall|i: int, j: int|
        0 <= i < j < list.len() ==> (#[trigger] list[i]).id != (#[trigger] list[j]).id
}

/// Whether no song starts before one that comes earlier in the list.
pub open spec fn in_order(list: Seq<SongView>) -> bool {
    forall|i: int, j: int|
        0 <= i <= j < list.len() ==> (#[trigger] list[i]).start <= (#[trigger] list[j]).start
}

/// Whether no song ends before it starts, and the tracks of each can be counted.
pub open spec fn countable(list: Seq<SongView>) -> bool {
    forall|i: int|
        0 <= i < list.len() ==> (#[trigger] list[i]).start <= list[i].end && list[i].tracks.len()
            <= usize::MAX
}

/// Whether a list holds the songs of another, in the order of their starts, with
/// `song` in place of the one with its id.
pub open spec fn one_changed(
    before: Seq<SongView>,
    after: Seq<SongView>,
    song: SongView,
) -> bool {
    &&& after.len() == before.len()
    &&& in_order(after)
    &&& own_ids(after)
    &&& after.contains(song)
    &&& forall|k: int|
        0 <= k < after.len() ==> #[trigger] after[k] == song || before.contains(after[k])
    &&& forall|k: int|
        0 <= k < before.len() && (#[trigger] before[k]).id != song.id ==> after.contains(before[k])
}

/// Whether a mix is what is to be heard of an editor: that of the selected song,
/// or all tracks of the tape alike where no song is selected.
pub open spec fn heard_now(s: AppState, mixes: Seq<TrackMix>) -> bool {
    &&& forall|i: int|
        s.selected is Some && #[trigger] is_song(s.songs, s.selected->0, i) ==> mix::plays(
            s.songs[i],
            mixes,
        )
    &&& no_song_selected(s) ==> (s.tape matches Some(t) ==> mix::plays_tape(
        t.channels,
        t.frames,
        mixes,
    ))
}

pub open spec fn no_song_selected(s: AppState) -> bool {
    s.selected matches Some(id) ==> forall|i: int|
        0 <= i < s.songs.len() ==> (#[trigger] s.songs[i]).id != id
}

/// Whether nothing but the songs, and what is asked for, differs, and there is
/// something to save.
pub open spec fn only_songs(s: AppState, t: AppState) -> bool {
    t == (AppState { songs: t.songs, effects: t.effects, dirty: true, ..s })
}

/// Whether what was asked for before is still asked for, and then the waveform is
/// drawn anew and, while something plays, the mix is handed on.
pub open spec fn shown_and_heard(s: AppState, t: AppState) -> bool {
    let n = s.effects.len() as int;
    &&& t.effects.len() == n + (if s.playing { 2int } else { 1 })
    &&& t.effects.take(n) == s.effects
    &&& t.effects[n] == EffectView::Redraw
    &&& s.playing ==> t.effects[n + 1] is SetMix
}

/// Whether what was asked for before is still asked for, and then, while something
/// plays, the mix is handed on.
pub open spec fn heard_only(s: AppState, t: AppState) -> bool {
    let n = s.effects.len() as int;
    &&& t.effects.len() == n + (if s.playing { 1int } else { 0 })
    &&& t.effects.take(n) == s.effects
    &&& s.playing ==> t.effects[n] is SetMix
}

proof fn lemma_first(list: Seq<SongView>, id: u64, i: int)
    requires
        is_song(list, id, i),
    ensures
        songs::place_of(list, id) == i,
{
    songs::lemma_place(list, id);
    let p = songs::place_of(list, id);
    if p < i {
        assert(list[p].id != id);
    }
    if i < p {
        assert(list[i].id != id);
    }
}

proof fn lemma_reordered(list: Seq<SongView>)
    ensures
        in_order(songs::by_start(list)),
        songs::by_start(list).len() == list.len(),
        forall|k: int|
            0 <= k < list.len() ==> songs::by_start(list).contains(#[trigger] list[k]),
        forall|k: int|
            0 <= k < list.len() ==> list.contains(#[trigger] songs::by_start(list)[k]),
        own_ids(list) ==> own_ids(songs::by_start(list)),
{
    broadcast use vstd::seq_lib::group_to_multiset_ensures;

    songs::law_songs_in_tape_order(list);
    songs::lemma_by_start_from(list);
    let out = songs::by_start(list);
    assert forall|k: int| 0 <= k < list.len() implies out.contains(#[trigger] list[k]) by {
        assert(list.contains(list[k]));
        assert(list.to_multiset().count(list[k]) > 0);
        assert(out.to_multiset().count(list[k]) > 0);
    }
    if own_ids(list) {
        assert(songs::distinct(list));
        songs::lemma_by_start_distinct(list);
    }
}

/// A song put in the place of the one with its id, and the list put in order.
proof fn lemma_put(list: Seq<SongView>, i: int, song: SongView)
    requires
        own_ids(list),
        0 <= i < list.len(),
        song.id == list[i].id,
    ensures
        one_changed(list, songs::by_start(list.update(i, song)), song),
{
    let u = list.update(i, song);
    let out = songs::by_start(u);
    assert(own_ids(u)) by {
        assert forall|j: int, k: int| 0 <= j < k < u.len() implies (#[trigger] u[j]).id != (
        #[trigger] u[k]).id by {
            assert(list[j].id != list[k].id);
        }
    }
    lemma_reordered(u);
    assert(u[i] == song);
    assert(out.contains(u[i]));
    assert forall|k: int| 0 <= k < out.len() implies #[trigger] out[k] == song || list.contains(
        out[k],
    ) by {
        assert(u.contains(out[k]));
        let j = choose|j: int| 0 <= j < u.len() && u[j] == out[k];
        if j != i {
            assert(list[j] == out[k]);
        }
    }
    assert forall|k: int| 0 <= k < list.len() && (#[trigger] list[k]).id
        != song.id implies out.contains(list[k]) by {
        assert(u[k] == list[k]);
    }
}

/// What is to be played is what is to be heard.
proof fn lemma_plan(s: AppState)
    requires
        countable(s.songs),
    ensures
        heard_now(s, s.plan().2),
{
    match s.selected {
        Some(id) => {
            songs::lemma_place(s.songs, id);
            let p = songs::place_of(s.songs, id);
            if p < s.songs.len() {
                mix::law_song_mix_plays_song(s.songs[p]);
                assert forall|i: int| #[trigger] is_song(s.songs, id, i) implies mix::plays(
                    s.songs[i],
                    s.plan().2,
                ) by {
                    lemma_first(s.songs, id, i);
                }
            } else {
                assert forall|i: int| !#[trigger] is_song(s.songs, id, i) by {
                    if is_song(s.songs, id, i) {
                        lemma_first(s.songs, id, i);
                    }
                }
            }
        },
        None => {},
    }
    mix::law_flat_mix_plays_tape(s.channels(), s.frames());
}

/// What the messages that move the edges of songs and tracks come to.
proof fn lemma_moves(s: AppState, id: u64, frame: usize)
    ensures
        state::step_songs(s, Message::MoveSongStart(id, frame)) == s.song_start_set(id, frame),
        state::step_songs(s, Message::MoveSongEnd(id, frame)) == s.song_end_set(id, frame),
{
    reveal(state::step_songs);
}

proof fn lemma_moves_to_playhead(s: AppState)
    ensures
        s.selected matches Some(id) ==> state::step_songs(s, Message::SongStartToPlayhead)
            == s.song_start_set(id, s.playhead),
        s.selected matches Some(id) ==> state::step_songs(s, Message::SongEndToPlayhead)
            == s.song_end_set(id, s.playhead),
        s.selected is None ==> state::step_songs(s, Message::SongStartToPlayhead) == s,
        s.selected is None ==> state::step_songs(s, Message::SongEndToPlayhead) == s,
{
    reveal(state::step_songs);
}

proof fn lemma_track_start(s: AppState, id: u64, ch: usize, value: Option<usize>)
    ensures
        state::step_tracks(s, Message::TrackStart(id, ch, value)) == s.track_start_set(
            id,
            ch,
            value,
        ),
{
    reveal(state::step_tracks);
}

proof fn lemma_track_end(s: AppState, id: u64, ch: usize, value: Option<usize>)
    ensures
        state::step_tracks(s, Message::TrackEnd(id, ch, value)) == s.track_end_set(id, ch, value),
{
    reveal(state::step_tracks);
}

proof fn lemma_track_start_to_playhead(s: AppState, id: u64, ch: usize)
    ensures
        state::step_tracks(s, Message::TrackStartToPlayhead(id, ch)) == s.track_start_set(
            id,
            ch,
            Some(s.playhead),
        ),
{
    reveal(state::step_tracks);
}

proof fn lemma_track_end_to_playhead(s: AppState, id: u64, ch: usize)
    ensures
        state::step_tracks(s, Message::TrackEndToPlayhead(id, ch)) == s.track_end_set(
            id,
            ch,
            Some(s.playhead),
        ),
{
    reveal(state::step_tracks);
}

proof fn lemma_mute(s: AppState, id: u64, ch: usize, mute: bool)
    ensures
        state::step_tracks(s, Message::TrackMute(id, ch, mute)) == s.mute_set(id, ch, mute),
{
    reveal(state::step_tracks);
}

proof fn lemma_solo(s: AppState, id: u64, ch: usize, solo: bool)
    ensures
        state::step_tracks(s, Message::TrackSolo(id, ch, solo)) == s.solo_set(id, ch, solo),
{
    reveal(state::step_tracks);
}

proof fn lemma_volume(s: AppState, id: u64, ch: usize, volume: Single)
    ensures
        state::step_tracks(s, Message::TrackVolume(id, ch, volume)) == s.volume_set(
            id,
            ch,
            volume,
        ),
{
    reveal(state::step_tracks);
}

proof fn lemma_pan(s: AppState, id: u64, ch: usize, pan: Single)
    ensures
        state::step_tracks(s, Message::TrackPan(id, ch, pan)) == s.pan_set(id, ch, pan),
{
    reveal(state::step_tracks);
}

proof fn lemma_reset(s: AppState, id: u64, ch: usize)
    ensures
        state::step_tracks(s, Message::ResetTrackMix(id, ch)) == s.mix_reset(id, ch),
{
    reveal(state::step_tracks);
}

proof fn lemma_ticks(s: AppState, id: u64, ch: usize, active: bool)
    ensures
        state::step_tracks(s, Message::TrackActive(id, ch, active)) == s.track_activated(
            id,
            ch,
            active,
        ),
        state::step_tracks(s, Message::ToggleTrackActive(id, ch)) == s.track_toggled(id, ch),
{
    reveal(state::step_tracks);
}

proof fn lemma_read(s: AppState, field: TimeField, typed: String, frame: usize)
    ensures
        state::step_times(s, Message::TimeRead(field, typed, Some(frame))) == s.time_applied(
            field,
            Some(frame),
        ),
{
    reveal(state::step_times);
}

/// Moving the start of a song, by its flag, by a shortcut or by a typed time: it
/// goes where it is moved to, unless that is less than half a second before the
/// end; then it stays half a second before the end. Nothing else of the songs
/// changes.
pub proof fn law_start_goes_where_moved(
    s: AppState,
    tape: TapeView,
    id: u64,
    i: int,
    frame: usize,
) -> (song: SongView)
    requires
        s.tape == Some(tape),
        own_ids(s.songs),
        is_song(s.songs, id, i),
    ensures
        song == (SongView { start: song.start, ..s.songs[i] }),
        frame + tape.sample_rate / 2 <= song.end ==> song.start == frame,
        frame + tape.sample_rate / 2 > song.end >= tape.sample_rate / 2 ==> song.start
            == song.end - tape.sample_rate / 2,
        song.end < tape.sample_rate / 2 ==> song.start == 0,
        ({
            let t = state::step(s, Message::MoveSongStart(id, frame));
            &&& one_changed(s.songs, t.songs, song)
            &&& only_songs(s, t)
            &&& shown_and_heard(s, t)
        }),
{
    lemma_moves(s, id, frame);
    lemma_first(s.songs, id, i);
    let song = SongView { start: s.start_for(s.songs[i], frame), ..s.songs[i] };
    lemma_put(s.songs, i, song);
    let t = state::step(s, Message::MoveSongStart(id, frame));
    assert(t.effects.take(s.effects.len() as int) =~= s.effects);
    song
}

/// Moving the end of a song: it goes where it is moved to, as far as the recording
/// goes, but not closer to the start than half a second. Nothing else of the songs
/// changes.
pub proof fn law_end_goes_where_moved(
    s: AppState,
    tape: TapeView,
    id: u64,
    i: int,
    frame: usize,
) -> (song: SongView)
    requires
        s.tape == Some(tape),
        own_ids(s.songs),
        is_song(s.songs, id, i),
        s.songs[i].start + tape.sample_rate / 2 <= usize::MAX,
    ensures
        song == (SongView { end: song.end, ..s.songs[i] }),
        song.start + tape.sample_rate / 2 <= frame <= tape.frames ==> song.end == frame,
        song.start + tape.sample_rate / 2 <= tape.frames < frame ==> song.end == tape.frames,
        frame < song.start + tape.sample_rate / 2 || tape.frames < song.start + tape.sample_rate / 2
            ==> song.end == song.start + tape.sample_rate / 2,
        ({
            let t = state::step(s, Message::MoveSongEnd(id, frame));
            &&& one_changed(s.songs, t.songs, song)
            &&& only_songs(s, t)
            &&& shown_and_heard(s, t)
        }),
{
    lemma_moves(s, id, frame);
    lemma_first(s.songs, id, i);
    let song = SongView { end: s.end_for(s.songs[i], frame), ..s.songs[i] };
    lemma_put(s.songs, i, song);
    let t = state::step(s, Message::MoveSongEnd(id, frame));
    assert(t.effects.take(s.effects.len() as int) =~= s.effects);
    song
}

/// Setting the start or the end of the selected song at the playhead is moving it
/// there. Without a selected song nothing happens.
pub proof fn law_playhead_sets_song(s: AppState, id: u64)
    ensures
        s.selected == Some(id) ==> state::step(s, Message::SongStartToPlayhead) == state::step(
            s,
            Message::MoveSongStart(id, s.playhead),
        ),
        s.selected == Some(id) ==> state::step(s, Message::SongEndToPlayhead) == state::step(
            s,
            Message::MoveSongEnd(id, s.playhead),
        ),
        s.selected is None ==> state::step(s, Message::SongStartToPlayhead) == s,
        s.selected is None ==> state::step(s, Message::SongEndToPlayhead) == s,
{
    lemma_moves_to_playhead(s);
    lemma_moves(s, id, s.playhead);
}

/// Setting the start or the end of a track at the playhead is setting it to that
/// frame.
pub proof fn law_playhead_sets_track(s: AppState, id: u64, ch: usize)
    ensures
        state::step(s, Message::TrackStartToPlayhead(id, ch)) == state::step(
            s,
            Message::TrackStart(id, ch, Some(s.playhead)),
        ),
        state::step(s, Message::TrackEndToPlayhead(id, ch)) == state::step(
            s,
            Message::TrackEnd(id, ch, Some(s.playhead)),
        ),
{
    lemma_track_start_to_playhead(s, id, ch);
    lemma_track_end_to_playhead(s, id, ch);
    lemma_track_start(s, id, ch, Some(s.playhead));
    lemma_track_end(s, id, ch, Some(s.playhead));
}

/// A typed time that was read as a frame moves the start or the end of a song
/// there.
pub proof fn law_typed_time_moves_song(s: AppState, id: u64, frame: usize, typed: String)
    ensures
        state::step(s, Message::TimeRead(TimeField::SongStart(id), typed, Some(frame)))
            == state::step(s, Message::MoveSongStart(id, frame)),
        state::step(s, Message::TimeRead(TimeField::SongEnd(id), typed, Some(frame)))
            == state::step(s, Message::MoveSongEnd(id, frame)),
{
    lemma_moves(s, id, frame);
    lemma_read(s, TimeField::SongStart(id), typed, frame);
    lemma_read(s, TimeField::SongEnd(id), typed, frame);
}

/// A typed time that was read as a frame sets the start or the end of a track
/// there.
pub proof fn law_typed_time_sets_track(
    s: AppState,
    id: u64,
    ch: usize,
    frame: usize,
    typed: String,
)
    ensures
        state::step(s, Message::TimeRead(TimeField::TrackStart(id, ch), typed, Some(frame)))
            == state::step(s, Message::TrackStart(id, ch, Some(frame))),
        state::step(s, Message::TimeRead(TimeField::TrackEnd(id, ch), typed, Some(frame)))
            == state::step(s, Message::TrackEnd(id, ch, Some(frame))),
{
    lemma_track_start(s, id, ch, Some(frame));
    lemma_track_end(s, id, ch, Some(frame));
    lemma_read(s, TimeField::TrackStart(id, ch), typed, frame);
    lemma_read(s, TimeField::TrackEnd(id, ch), typed, frame);
}

/// A song with other settings for one of its tracks.
pub open spec fn with_settings(song: SongView, ch: int, t: TrackSettings) -> SongView {
    SongView { tracks: song.tracks.update(ch, t), ..song }
}

/// Setting where a track joins the song: at the frame asked for, where that is
/// behind the start of the song and before the end of the track; one frame before
/// the end of the track at the latest. A frame at or before the start of the song,
/// or none, lets the track join with the song. Nothing else of the songs changes.
pub proof fn law_track_joins_where_set(
    s: AppState,
    id: u64,
    i: int,
    ch: usize,
    value: Option<usize>,
    start: usize,
    end: usize,
) -> (t: TrackSettings)
    requires
        own_ids(s.songs),
        is_song(s.songs, id, i),
        s.songs[i].start <= s.songs[i].end,
        ch < s.songs[i].tracks.len(),
        mix::runs(s.songs[i], ch as int, start, end),
    ensures
        t == (TrackSettings { start: t.start, ..s.songs[i].tracks[ch as int] }),
        value is None ==> t.start is None,
        value matches Some(f) ==> {
            &&& f <= s.songs[i].start ==> t.start is None
            &&& s.songs[i].start < f < end ==> t.start == Some(f)
            &&& s.songs[i].start < f && 0 < end <= f ==> t.start == Some((end - 1) as usize)
        },
        ({
            let u = state::step(s, Message::TrackStart(id, ch, value));
            &&& one_changed(s.songs, u.songs, with_settings(s.songs[i], ch as int, t))
            &&& only_songs(s, u)
            &&& shown_and_heard(s, u)
        }),
{
    lemma_track_start(s, id, ch, value);
    lemma_first(s.songs, id, i);
    let t = TrackSettings {
        start: state::track_start_for(s.songs[i], ch as int, value),
        ..s.songs[i].tracks[ch as int]
    };
    lemma_put(s.songs, i, with_settings(s.songs[i], ch as int, t));
    let u = state::step(s, Message::TrackStart(id, ch, value));
    assert(u.effects.take(s.effects.len() as int) =~= s.effects);
    t
}

/// Setting where a track leaves the song: at the frame asked for, where that is
/// before the end of the song and behind the start of the track; one frame behind
/// the start of the track at the earliest. A frame at or behind the end of the
/// song, or none, lets the track leave with the song. Nothing else of the songs
/// changes.
pub proof fn law_track_leaves_where_set(
    s: AppState,
    id: u64,
    i: int,
    ch: usize,
    value: Option<usize>,
    start: usize,
    end: usize,
) -> (t: TrackSettings)
    requires
        own_ids(s.songs),
        is_song(s.songs, id, i),
        s.songs[i].start <= s.songs[i].end,
        ch < s.songs[i].tracks.len(),
        mix::runs(s.songs[i], ch as int, start, end),
    ensures
        t == (TrackSettings { end: t.end, ..s.songs[i].tracks[ch as int] }),
        value is None ==> t.end is None,
        value matches Some(f) ==> {
            &&& f >= s.songs[i].end ==> t.end is None
            &&& start < f < s.songs[i].end ==> t.end == Some(f)
            &&& f < s.songs[i].end && f <= start < usize::MAX ==> t.end == Some(
                (start + 1) as usize,
            )
        },
        ({
            let u = state::step(s, Message::TrackEnd(id, ch, value));
            &&& one_changed(s.songs, u.songs, with_settings(s.songs[i], ch as int, t))
            &&& only_songs(s, u)
            &&& shown_and_heard(s, u)
        }),
{
    lemma_track_end(s, id, ch, value);
    lemma_first(s.songs, id, i);
    let t = TrackSettings {
        end: state::track_end_for(s.songs[i], ch as int, value),
        ..s.songs[i].tracks[ch as int]
    };
    lemma_put(s.songs, i, with_settings(s.songs[i], ch as int, t));
    let u = state::step(s, Message::TrackEnd(id, ch, value));
    assert(u.effects.take(s.effects.len() as int) =~= s.effects);
    t
}

/// Ticking a track makes the song use it, unticking it makes the song leave it
/// out, and a double click on its lane turns that round. Nothing else of the songs
/// changes.
pub proof fn law_track_is_ticked(s: AppState, id: u64, i: int, ch: usize, active: bool)
    requires
        own_ids(s.songs),
        is_song(s.songs, id, i),
        ch < s.songs[i].tracks.len(),
    ensures
        ({
            let u = state::step(s, Message::TrackActive(id, ch, active));
            let t = TrackSettings { active, ..s.songs[i].tracks[ch as int] };
            &&& one_changed(s.songs, u.songs, with_settings(s.songs[i], ch as int, t))
            &&& only_songs(s, u)
            &&& shown_and_heard(s, u)
        }),
        active != s.songs[i].tracks[ch as int].active ==> state::step(
            s,
            Message::ToggleTrackActive(id, ch),
        ) == state::step(s, Message::TrackActive(id, ch, active)),
{
    lemma_ticks(s, id, ch, active);
    lemma_first(s.songs, id, i);
    let t = TrackSettings { active, ..s.songs[i].tracks[ch as int] };
    lemma_put(s.songs, i, with_settings(s.songs[i], ch as int, t));
    let u = state::step(s, Message::TrackActive(id, ch, active));
    assert(u.effects.take(s.effects.len() as int) =~= s.effects);
}

/// Whether of all songs only one track of one song has other settings.
pub open spec fn one_track_changed(
    s: AppState,
    u: AppState,
    i: int,
    ch: int,
    t: TrackSettings,
) -> bool {
    &&& u.songs.len() == s.songs.len()
    &&& forall|k: int| 0 <= k < s.songs.len() && k != i ==> #[trigger] u.songs[k] == s.songs[k]
    &&& u.songs[i] == (SongView { tracks: u.songs[i].tracks, ..s.songs[i] })
    &&& u.songs[i].tracks.len() == s.songs[i].tracks.len()
    &&& forall|c: int|
        0 <= c < s.songs[i].tracks.len() && c != ch ==> #[trigger] u.songs[i].tracks[c]
            == s.songs[i].tracks[c]
    &&& u.songs[i].tracks[ch] == t
    &&& only_songs(s, u)
    &&& heard_only(s, u)
}

/// The fader of a track sets the volume of this track of this song, and nothing
/// else.
pub proof fn law_fader_sets_volume(s: AppState, id: u64, i: int, ch: usize, volume: Single)
    requires
        is_song(s.songs, id, i),
        ch < s.songs[i].tracks.len(),
    ensures
        one_track_changed(
            s,
            state::step(s, Message::TrackVolume(id, ch, volume)),
            i,
            ch as int,
            TrackSettings { volume, ..s.songs[i].tracks[ch as int] },
        ),
{
    lemma_volume(s, id, ch, volume);
    lemma_first(s.songs, id, i);
    let t = state::step(s, Message::TrackVolume(id, ch, volume));
    assert(t.effects.take(s.effects.len() as int) =~= s.effects);
}

/// The pan of a track sets the pan of this track of this song, and nothing else.
pub proof fn law_pan_sets_pan(s: AppState, id: u64, i: int, ch: usize, pan: Single)
    requires
        is_song(s.songs, id, i),
        ch < s.songs[i].tracks.len(),
    ensures
        one_track_changed(
            s,
            state::step(s, Message::TrackPan(id, ch, pan)),
            i,
            ch as int,
            TrackSettings { pan, ..s.songs[i].tracks[ch as int] },
        ),
{
    lemma_pan(s, id, ch, pan);
    lemma_first(s.songs, id, i);
    let t = state::step(s, Message::TrackPan(id, ch, pan));
    assert(t.effects.take(s.effects.len() as int) =~= s.effects);
}

/// The mute button of a track mutes this track of this song, or lets it be heard
/// again, and changes nothing else.
pub proof fn law_mute_is_set(s: AppState, id: u64, i: int, ch: usize, mute: bool)
    requires
        is_song(s.songs, id, i),
        ch < s.songs[i].tracks.len(),
    ensures
        one_track_changed(
            s,
            state::step(s, Message::TrackMute(id, ch, mute)),
            i,
            ch as int,
            TrackSettings { mute, ..s.songs[i].tracks[ch as int] },
        ),
{
    lemma_mute(s, id, ch, mute);
    lemma_first(s.songs, id, i);
    let t = state::step(s, Message::TrackMute(id, ch, mute));
    assert(t.effects.take(s.effects.len() as int) =~= s.effects);
}

/// The solo button of a track solos this track of this song, or no longer, and
/// changes nothing else.
pub proof fn law_solo_is_set(s: AppState, id: u64, i: int, ch: usize, solo: bool)
    requires
        is_song(s.songs, id, i),
        ch < s.songs[i].tracks.len(),
    ensures
        one_track_changed(
            s,
            state::step(s, Message::TrackSolo(id, ch, solo)),
            i,
            ch as int,
            TrackSettings { solo, ..s.songs[i].tracks[ch as int] },
        ),
{
    lemma_solo(s, id, ch, solo);
    lemma_first(s.songs, id, i);
    let t = state::step(s, Message::TrackSolo(id, ch, solo));
    assert(t.effects.take(s.effects.len() as int) =~= s.effects);
}

/// A reset sets the volume of a track to one and its pan to the center, takes mute
/// and solo away, and changes nothing else.
pub proof fn law_mix_is_reset(s: AppState, id: u64, i: int, ch: usize)
    requires
        is_song(s.songs, id, i),
        ch < s.songs[i].tracks.len(),
    ensures
        one_track_changed(
            s,
            state::step(s, Message::ResetTrackMix(id, ch)),
            i,
            ch as int,
            TrackSettings {
                volume: (Single { bits: 0x3f80_0000 }),
                pan: (Single { bits: 0 }),
                mute: false,
                solo: false,
                ..s.songs[i].tracks[ch as int]
            },
        ),
{
    lemma_reset(s, id, ch);
    lemma_first(s.songs, id, i);
    let t = state::step(s, Message::ResetTrackMix(id, ch));
    assert(t.effects.take(s.effects.len() as int) =~= s.effects);
}

/// Whether a message changes a song or its mix.
pub open spec fn changes_song(s: AppState, m: Message) -> bool {
    match m {
        Message::MoveSongStart(..) => true,
        Message::MoveSongEnd(..) => true,
        Message::SongStartToPlayhead => s.selected is Some,
        Message::SongEndToPlayhead => s.selected is Some,
        Message::TrackActive(..) => true,
        Message::ToggleTrackActive(..) => true,
        Message::TrackStart(..) => true,
        Message::TrackEnd(..) => true,
        Message::TrackStartToPlayhead(..) => true,
        Message::TrackEndToPlayhead(..) => true,
        Message::TrackVolume(..) => true,
        Message::TrackPan(..) => true,
        Message::TrackMute(..) => true,
        Message::TrackSolo(..) => true,
        Message::ResetTrackMix(..) => true,
        Message::TimeRead(_, _, frame) => frame is Some,
        Message::DeleteSong(id) => s.selected != Some(id),
        _ => false,
    }
}

/// Whether the mix is handed on that is to be heard of an editor now, the same as
/// would be played if playback were started anew.
pub open spec fn hands_on_mix(t: AppState) -> bool {
    &&& t.effects.len() > 0
    &&& t.effects.last() matches EffectView::SetMix(mixes) && heard_now(t, mixes) && (state::step(
        AppState { playing: false, ..t },
        Message::PlayPause,
    ).effects.last() matches EffectView::Play { mixes: anew, .. } && anew == mixes)
}

proof fn lemma_hands_on(x: AppState)
    requires
        x.playing,
        x.tape is Some,
        countable(x.songs),
    ensures
        hands_on_mix(x.refreshed()),
{
    reveal(state::step_playback);
    lemma_plan(x);
    let t = x.refreshed();
    assert(t.effects.last() == EffectView::SetMix(x.plan().2));
    assert forall|i: int| t.selected is Some && #[trigger] is_song(
        t.songs,
        t.selected->0,
        i,
    ) implies mix::plays(t.songs[i], x.plan().2) by {
        assert(is_song(x.songs, x.selected->0, i));
    }
}

/// What changes to the songs leave as it is while something plays.
spec fn goes_on(s: AppState, t: AppState) -> bool {
    &&& t.playing
    &&& t.tape == s.tape
    &&& t.selected == s.selected
    &&& t.effects.len() > s.effects.len()
    &&& hands_on_mix(t)
}

/// Whether two states differ in the songs and a text being typed at most.
spec fn alike(s: AppState, x: AppState) -> bool {
    x == (AppState { songs: x.songs, draft: x.draft, ..s })
}

proof fn lemma_changed_goes_on(s: AppState, x: AppState)
    requires
        s.playing,
        s.tape is Some,
        alike(s, x),
        countable(x.changed().songs),
    ensures
        goes_on(s, x.changed()),
{
    let y = AppState { songs: songs::by_start(x.songs), dirty: true, ..x }.emit(EffectView::Redraw);
    assert(x.changed() == y.refreshed());
    lemma_hands_on(y);
}

proof fn lemma_mixed_goes_on(s: AppState, x: AppState)
    requires
        s.playing,
        s.tape is Some,
        alike(s, x),
        countable(x.mixed().songs),
    ensures
        goes_on(s, x.mixed()),
{
    let y = AppState { dirty: true, ..x };
    assert(x.mixed() == y.refreshed());
    lemma_hands_on(y);
}

proof fn lemma_song_set_goes_on(s: AppState, id: u64, frame: usize)
    requires
        s.playing,
        s.tape is Some,
    ensures
        countable(s.song_start_set(id, frame).songs) ==> goes_on(s, s.song_start_set(id, frame)),
        countable(s.song_end_set(id, frame).songs) ==> goes_on(s, s.song_end_set(id, frame)),
{
    let (a, b) = match songs::song_of(s.songs, id) {
        Some(x) => (
            AppState { songs: songs::with_start(s.songs, id, s.start_for(x, frame)), ..s },
            AppState { songs: songs::with_end(s.songs, id, s.end_for(x, frame)), ..s },
        ),
        None => (s, s),
    };
    assert(s.song_start_set(id, frame) == a.changed());
    assert(s.song_end_set(id, frame) == b.changed());
    if countable(a.changed().songs) {
        lemma_changed_goes_on(s, a);
    }
    if countable(b.changed().songs) {
        lemma_changed_goes_on(s, b);
    }
}

proof fn lemma_track_set_goes_on(s: AppState, id: u64, ch: usize, value: Option<usize>)
    requires
        s.playing,
        s.tape is Some,
    ensures
        countable(s.track_start_set(id, ch, value).songs) ==> goes_on(
            s,
            s.track_start_set(id, ch, value),
        ),
        countable(s.track_end_set(id, ch, value).songs) ==> goes_on(
            s,
            s.track_end_set(id, ch, value),
        ),
{
    let (a, b) = match (
        songs::song_of(s.songs, id),
        songs::track_of(s.songs, id, ch as int),
    ) {
        (Some(x), Some(t)) => (
            s.track_put(
                id,
                ch,
                TrackSettings { start: state::track_start_for(x, ch as int, value), ..t },
            ),
            s.track_put(
                id,
                ch,
                TrackSettings { end: state::track_end_for(x, ch as int, value), ..t },
            ),
        ),
        _ => (s, s),
    };
    assert(s.track_start_set(id, ch, value) == a.changed());
    assert(s.track_end_set(id, ch, value) == b.changed());
    if countable(a.changed().songs) {
        lemma_changed_goes_on(s, a);
    }
    if countable(b.changed().songs) {
        lemma_changed_goes_on(s, b);
    }
}

proof fn lemma_track_message_goes_on(s: AppState, m: Message)
    requires
        s.playing,
        s.tape is Some,
        state::area_of(m) == state::Area::Tracks,
        !(m is TrackName),
        countable(state::step_tracks(s, m).songs),
    ensures
        goes_on(s, state::step_tracks(s, m)),
{
    reveal(state::step_tracks);
    match m {
        Message::TrackStart(id, ch, value) => lemma_track_set_goes_on(s, id, ch, value),
        Message::TrackEnd(id, ch, value) => lemma_track_set_goes_on(s, id, ch, value),
        Message::TrackStartToPlayhead(id, ch) => lemma_track_set_goes_on(
            s,
            id,
            ch,
            Some(s.playhead),
        ),
        Message::TrackEndToPlayhead(id, ch) => lemma_track_set_goes_on(s, id, ch, Some(s.playhead)),
        Message::TrackActive(id, ch, active) => {
            let x = match songs::track_of(s.songs, id, ch as int) {
                Some(t) => s.track_put(id, ch, TrackSettings { active, ..t }),
                None => s,
            };
            lemma_changed_goes_on(s, x);
        },
        Message::ToggleTrackActive(id, ch) => {
            let x = match songs::track_of(s.songs, id, ch as int) {
                Some(t) => s.track_put(id, ch, TrackSettings { active: !t.active, ..t }),
                None => s,
            };
            lemma_changed_goes_on(s, x);
        },
        Message::TrackVolume(id, ch, volume) => {
            let x = match songs::track_of(s.songs, id, ch as int) {
                Some(t) => s.track_put(id, ch, TrackSettings { volume, ..t }),
                None => s,
            };
            lemma_mixed_goes_on(s, x);
        },
        Message::TrackPan(id, ch, pan) => {
            let x = match songs::track_of(s.songs, id, ch as int) {
                Some(t) => s.track_put(id, ch, TrackSettings { pan, ..t }),
                None => s,
            };
            lemma_mixed_goes_on(s, x);
        },
        Message::TrackMute(id, ch, mute) => {
            let x = match songs::track_of(s.songs, id, ch as int) {
                Some(t) => s.track_put(id, ch, TrackSettings { mute, ..t }),
                None => s,
            };
            lemma_mixed_goes_on(s, x);
        },
        Message::TrackSolo(id, ch, solo) => {
            let x = match songs::track_of(s.songs, id, ch as int) {
                Some(t) => s.track_put(id, ch, TrackSettings { solo, ..t }),
                None => s,
            };
            lemma_mixed_goes_on(s, x);
        },
        Message::ResetTrackMix(id, ch) => {
            let x = match songs::track_of(s.songs, id, ch as int) {
                Some(t) => s.track_put(
                    id,
                    ch,
                    TrackSettings {
                        volume: (Single { bits: 0x3f80_0000 }),
                        pan: (Single { bits: 0 }),
                        mute: false,
                        solo: false,
                        ..t
                    },
                ),
                None => s,
            };
            lemma_mixed_goes_on(s, x);
        },
        _ => {},
    }
}

/// While something plays, every change to a song is heard at once: the mix that is
/// handed on is that of the selected song as it is now, with every volume, pan,
/// mute, solo and range, and the same as would be played if playback were started
/// anew.
pub proof fn law_changes_are_heard(s: AppState, m: Message)
    requires
        s.playing,
        s.tape is Some,
        changes_song(s, m),
        countable(state::step(s, m).songs),
    ensures
        ({
            let t = state::step(s, m);
            &&& t.playing
            &&& t.tape == s.tape
            &&& t.selected == s.selected
            &&& t.effects.len() > s.effects.len()
            &&& hands_on_mix(t)
        }),
{
    match m {
        Message::MoveSongStart(id, frame) => {
            lemma_moves(s, id, frame);
            lemma_song_set_goes_on(s, id, frame);
        },
        Message::MoveSongEnd(id, frame) => {
            lemma_moves(s, id, frame);
            lemma_song_set_goes_on(s, id, frame);
        },
        Message::SongStartToPlayhead => {
            lemma_moves_to_playhead(s);
            lemma_song_set_goes_on(s, s.selected->0, s.playhead);
        },
        Message::SongEndToPlayhead => {
            lemma_moves_to_playhead(s);
            lemma_song_set_goes_on(s, s.selected->0, s.playhead);
        },
        Message::DeleteSong(id) => {
            reveal(state::step_songs);
            let x = AppState { songs: songs::without(s.songs, id), draft: None, ..s };
            assert(s.song_deleted(id) == x.changed());
            lemma_changed_goes_on(s, x);
        },
        Message::TimeRead(field, typed, frame) => {
            lemma_read(s, field, typed, frame->0);
            match field {
                TimeField::SongStart(id) => lemma_song_set_goes_on(s, id, frame->0),
                TimeField::SongEnd(id) => lemma_song_set_goes_on(s, id, frame->0),
                TimeField::TrackStart(id, ch) => lemma_track_set_goes_on(s, id, ch, frame),
                TimeField::TrackEnd(id, ch) => lemma_track_set_goes_on(s, id, ch, frame),
            }
        },
        _ => {
            lemma_track_message_goes_on(s, m);
        },
    }
}

/// Playing and pausing: what starts is the selected song as far as the recording
/// goes, with its mix, from the playhead where that lies in the song and from the
/// start of the song otherwise. Playing already, it stops and the playhead stays.
pub proof fn law_song_is_played(s: AppState, tape: TapeView, id: u64, i: int)
    requires
        s.tape == Some(tape),
        s.selected == Some(id),
        is_song(s.songs, id, i),
        countable(s.songs),
        !s.playing,
    ensures
        ({
            let t = state::step(s, Message::PlayPause);
            let song = s.songs[i];
            let n = s.effects.len() as int;
            &&& t.effects.len() == n + 1
            &&& t.effects.take(n) == s.effects
            &&& t.effects[n] matches EffectView::Play { start, end, mixes } && {
                &&& mix::plays(song, mixes)
                &&& song.end <= tape.frames ==> end == song.end
                &&& tape.frames < song.end ==> end == tape.frames
                &&& song.start <= s.playhead < end ==> start == s.playhead
                &&& !(song.start <= s.playhead < end) ==> start == song.start
                &&& t == (AppState {
                    playing: true,
                    playhead: start,
                    play_anchor: Some(start),
                    play_end: end,
                    effects: t.effects,
                    ..s
                })
            }
        }),
{
    reveal(state::step_playback);
    lemma_first(s.songs, id, i);
    lemma_plan(s);
    let t = state::step(s, Message::PlayPause);
    assert(t.effects.take(s.effects.len() as int) =~= s.effects);
}

/// Playback and mixdown are the same: what is played of the selected song, at once or
/// after a change to it, is what goes into the stereo mix of that song.
pub proof fn law_playback_is_the_mixdown(s: AppState, id: u64, i: int)
    requires
        s.tape is Some,
        s.selected == Some(id),
        is_song(s.songs, id, i),
    ensures
        !s.playing ==> (state::step(s, Message::PlayPause).effects.last() matches EffectView::Play {
            mixes,
            ..
        } && mixes == mix::mixes_of(s.songs[i])),
        s.playing ==> s.refreshed().effects.last() == EffectView::SetMix(
            mix::mixes_of(s.songs[i]),
        ),
{
    reveal(state::step_playback);
    lemma_first(s.songs, id, i);
}

/// Without a selected song the whole tape is played, all tracks alike.
pub proof fn law_tape_is_played(s: AppState, tape: TapeView)
    requires
        s.tape == Some(tape),
        no_song_selected(s),
        countable(s.songs),
        !s.playing,
    ensures
        ({
            let t = state::step(s, Message::PlayPause);
            let n = s.effects.len() as int;
            &&& t.effects.len() == n + 1
            &&& t.effects.take(n) == s.effects
            &&& t.effects[n] matches EffectView::Play { start, end, mixes } && {
                &&& mix::plays_tape(tape.channels, tape.frames, mixes)
                &&& end == tape.frames
                &&& s.playhead < tape.frames ==> start == s.playhead
                &&& s.playhead >= tape.frames ==> start == 0
                &&& t == (AppState {
                    playing: true,
                    playhead: start,
                    play_anchor: Some(start),
                    play_end: end,
                    effects: t.effects,
                    ..s
                })
            }
        }),
{
    reveal(state::step_playback);
    lemma_plan(s);
    if let Some(id) = s.selected {
        songs::lemma_place(s.songs, id);
    }
    let t = state::step(s, Message::PlayPause);
    assert(t.effects.take(s.effects.len() as int) =~= s.effects);
}

/// A new song is four minutes long where the recording goes that far, and ends
/// with the recording otherwise. It starts at the playhead, or half a second
/// before the end of the recording where the playhead is behind that. It uses
/// every track from start to end, at full volume in the center. All other songs
/// stay as they are, and the new one is selected.
pub proof fn law_new_song_at_playhead(s: AppState, tape: TapeView) -> (song: SongView)
    requires
        s.tape == Some(tape),
        tape.frames > 0,
        tape.frames + 240 * tape.sample_rate <= usize::MAX,
        own_ids(s.songs),
        forall|i: int| 0 <= i < s.songs.len() ==> (#[trigger] s.songs[i]).id < s.next_id,
        s.next_id < u64::MAX,
        s.selected != Some(s.next_id),
    ensures
        song.id == s.next_id,
        song.title == "Song "@ + text::decimal(s.songs.len() + 1),
        s.playhead + tape.sample_rate / 2 <= tape.frames ==> song.start == s.playhead,
        s.playhead + tape.sample_rate / 2 > tape.frames >= tape.sample_rate / 2 ==> song.start
            == tape.frames - tape.sample_rate / 2,
        tape.frames < tape.sample_rate / 2 ==> song.start == 0,
        song.start + 240 * tape.sample_rate <= tape.frames ==> song.end - song.start == 240
            * tape.sample_rate,
        song.start + 240 * tape.sample_rate > tape.frames ==> song.end == tape.frames,
        song.tracks.len() == tape.channels,
        forall|c: int|
            0 <= c < song.tracks.len() ==> #[trigger] song.tracks[c] == (TrackSettings {
                active: true,
                start: None,
                end: None,
                volume: (Single { bits: 0x3f80_0000 }),
                pan: (Single { bits: 0 }),
                mute: false,
                solo: false,
            }),
        ({
            let t = state::step(s, Message::AddSong);
            &&& t.songs.len() == s.songs.len() + 1
            &&& in_order(t.songs)
            &&& own_ids(t.songs)
            &&& t.songs.contains(song)
            &&& forall|k: int|
                0 <= k < s.songs.len() ==> t.songs.contains(#[trigger] s.songs[k])
            &&& t.next_id == s.next_id + 1
            &&& t.selected == Some(song.id)
            &&& t.playhead == song.start
            &&& !t.playing
            &&& t.dirty
            &&& t.effects.last() == EffectView::ReportAdded(song.start)
            &&& t.effects.contains(EffectView::StopPlayer)
        }),
{
    reveal(state::step_songs);
    let song = s.new_song();
    let u = s.songs.push(song);
    assert(own_ids(u)) by {
        assert forall|j: int, k: int| 0 <= j < k < u.len() implies (#[trigger] u[j]).id != (
        #[trigger] u[k]).id by {
            assert(s.songs[j].id < s.next_id);
            if k < s.songs.len() {
                assert(s.songs[j].id != s.songs[k].id);
            }
        }
    }
    lemma_reordered(u);
    assert(u[s.songs.len() as int] == song);
    let t = state::step(s, Message::AddSong);
    let sorted = songs::by_start(u);
    assert(t.songs == sorted);
    assert forall|k: int| 0 <= k < s.songs.len() implies t.songs.contains(#[trigger] s.songs[k]) by {
        assert(u[k] == s.songs[k]);
    }
    let p = choose|p: int| 0 <= p < sorted.len() && sorted[p] == song;
    assert(is_song(sorted, song.id, p)) by {
        assert forall|j: int| 0 <= j < p implies (#[trigger] sorted[j]).id != song.id by {
            assert(sorted[j].id != sorted[p].id);
        }
    }
    lemma_first(sorted, song.id, p);
    let n = t.effects.len() as int;
    let base = AppState {
        songs: u,
        next_id: (s.next_id + 1) as u64,
        ..s
    }.changed();
    assert(t.effects[base.effects.len() as int] == EffectView::StopPlayer);
    song
}

/// Deleting a song takes it out and leaves all others as they are. Where it was
/// selected none is selected then, and playback stops.
pub proof fn law_deleted_song_is_gone(s: AppState, id: u64)
    ensures
        ({
            let t = state::step(s, Message::DeleteSong(id));
            &&& in_order(t.songs)
            &&& forall|k: int|
                0 <= k < t.songs.len() ==> (#[trigger] t.songs[k]).id != id && s.songs.contains(
                    t.songs[k],
                )
            &&& forall|k: int|
                0 <= k < s.songs.len() && (#[trigger] s.songs[k]).id != id ==> t.songs.contains(
                    s.songs[k],
                )
            &&& own_ids(s.songs) ==> own_ids(t.songs)
            &&& s.selected == Some(id) ==> t.selected is None && !t.playing && t.play_anchor is None
                && t.effects.len() > s.effects.len() && t.effects[s.effects.len() as int]
                == EffectView::StopPlayer
            &&& s.selected != Some(id) ==> t.selected == s.selected && t.playing == s.playing
            &&& t.dirty
            &&& t.playhead == s.playhead
            &&& t.next_id == s.next_id
            &&& t.draft is None
        }),
{
    reveal(state::step_songs);
    let t = state::step(s, Message::DeleteSong(id));
    let kept = songs::without(s.songs, id);
    songs::law_delete_removes(s.songs, id);
    lemma_reordered(kept);
    assert(t.songs == songs::by_start(kept));
    assert forall|k: int| 0 <= k < t.songs.len() implies (#[trigger] t.songs[k]).id != id
        && s.songs.contains(t.songs[k]) by {
        assert(kept.contains(t.songs[k]));
    }
    assert forall|k: int| 0 <= k < s.songs.len() && (#[trigger] s.songs[k]).id
        != id implies t.songs.contains(s.songs[k]) by {
        assert(kept.contains(s.songs[k]));
        let j = choose|j: int| 0 <= j < kept.len() && kept[j] == s.songs[k];
        assert(t.songs.contains(kept[j]));
    }
    if own_ids(s.songs) {
        assert(songs::distinct(s.songs));
        songs::lemma_without_distinct(s.songs, id);
        assert(own_ids(kept));
    }
}

/// Selecting another song stops playback and takes the playhead to its start; the
/// songs stay as they are. Selecting the selected song changes nothing.
pub proof fn law_song_is_selected(s: AppState, id: Option<u64>)
    ensures
        ({
            let t = state::step(s, Message::SelectSong(id));
            &&& s.selected == id ==> t == s
            &&& s.selected != id ==> {
                &&& t == (AppState {
                    selected: id,
                    draft: None,
                    playing: false,
                    play_anchor: None,
                    playhead: t.playhead,
                    effects: t.effects,
                    ..s
                })
                &&& t.effects.len() >= s.effects.len() + 2
                &&& t.effects.take(s.effects.len() as int) == s.effects
                &&& t.effects[s.effects.len() as int] == EffectView::StopPlayer
                &&& t.effects.last() == EffectView::Redraw
                &&& forall|i: int|
                    id is Some && #[trigger] is_song(s.songs, id->0, i) ==> t.playhead
                        == s.songs[i].start && t.effects[s.effects.len() as int + 1]
                        == EffectView::ScrollTo(s.songs[i].start)
                &&& (id matches Some(x) ==> forall|i: int|
                    0 <= i < s.songs.len() ==> (#[trigger] s.songs[i]).id != x) ==> t.playhead
                    == s.playhead
            }
        }),
{
    reveal(state::step_songs);
    let t = state::step(s, Message::SelectSong(id));
    if s.selected != id {
        assert(t.effects.take(s.effects.len() as int) =~= s.effects);
        if let Some(x) = id {
            songs::lemma_place(s.songs, x);
            assert forall|i: int| #[trigger] is_song(s.songs, x, i) implies t.playhead
                == s.songs[i].start && t.effects[s.effects.len() as int + 1]
                == EffectView::ScrollTo(s.songs[i].start) by {
                lemma_first(s.songs, x, i);
            }
        }
    }
}

/// A title that is typed becomes the title of that song, and nothing else of the
/// songs changes.
pub proof fn law_song_is_titled(s: AppState, id: u64, i: int, title: String)
    requires
        is_song(s.songs, id, i),
    ensures
        ({
            let t = state::step(s, Message::SongTitle(id, title));
            &&& t.songs.len() == s.songs.len()
            &&& t.songs[i] == (SongView { title: title@, ..s.songs[i] })
            &&& forall|k: int|
                0 <= k < s.songs.len() && k != i ==> #[trigger] t.songs[k] == s.songs[k]
            &&& only_songs(s, t)
            &&& t.effects == s.effects.push(EffectView::Redraw)
        }),
{
    reveal(state::step_songs);
    lemma_first(s.songs, id, i);
}

proof fn lemma_named(s: AppState, ch: usize, name: String)
    ensures
        state::step_tracks(s, Message::TrackName(ch, name)) == s.track_named(ch, name@),
{
    reveal(state::step_tracks);
}

/// A name that is typed becomes the name of that track, and nothing else changes.
pub proof fn law_track_is_named(s: AppState, ch: usize, name: String)
    ensures
        ({
            let t = state::step(s, Message::TrackName(ch, name));
            &&& t.track_names.len() == s.track_names.len()
            &&& ch < s.track_names.len() ==> t.track_names[ch as int] == name@
            &&& forall|k: int|
                0 <= k < s.track_names.len() && k != ch ==> #[trigger] t.track_names[k]
                    == s.track_names[k]
            &&& t == (AppState {
                track_names: t.track_names,
                dirty: true,
                effects: s.effects.push(EffectView::Redraw),
                ..s
            })
        }),
{
    lemma_named(s, ch, name);
}

/// A message to a song that is not there, or to a track that it does not have,
/// changes no song.
pub proof fn law_unknown_songs_are_left(s: AppState, id: u64, ch: usize, v: Single, on: bool)
    requires
        forall|i: int|
            0 <= i < s.songs.len() && (#[trigger] s.songs[i]).id == id ==> s.songs[i].tracks.len()
                <= ch,
    ensures
        state::step(s, Message::TrackVolume(id, ch, v)).songs == s.songs,
        state::step(s, Message::TrackPan(id, ch, v)).songs == s.songs,
        state::step(s, Message::TrackMute(id, ch, on)).songs == s.songs,
        state::step(s, Message::TrackSolo(id, ch, on)).songs == s.songs,
        state::step(s, Message::ResetTrackMix(id, ch)).songs == s.songs,
{
    lemma_volume(s, id, ch, v);
    lemma_pan(s, id, ch, v);
    lemma_mute(s, id, ch, on);
    lemma_solo(s, id, ch, on);
    lemma_reset(s, id, ch);
    songs::lemma_place(s.songs, id);
}

/// Moving the edges of a song that is not there leaves every song as it is.
pub proof fn law_unknown_song_is_not_moved(s: AppState, id: u64, frame: usize)
    requires
        forall|i: int| 0 <= i < s.songs.len() ==> (#[trigger] s.songs[i]).id != id,
    ensures
        same_songs(s, state::step(s, Message::MoveSongStart(id, frame))),
        same_songs(s, state::step(s, Message::MoveSongEnd(id, frame))),
{
    lemma_moves(s, id, frame);
    songs::lemma_place(s.songs, id);
    lemma_reordered(s.songs);
    assert(state::step(s, Message::MoveSongStart(id, frame)).songs == songs::by_start(s.songs));
    assert(state::step(s, Message::MoveSongEnd(id, frame)).songs == songs::by_start(s.songs));
}

/// Moving the edges of a track of a song that is not there leaves every song as it is.
pub proof fn law_unknown_track_is_not_moved(s: AppState, id: u64, ch: usize, value: Option<usize>)
    requires
        forall|i: int| 0 <= i < s.songs.len() ==> (#[trigger] s.songs[i]).id != id,
    ensures
        same_songs(s, state::step(s, Message::TrackStart(id, ch, value))),
        same_songs(s, state::step(s, Message::TrackEnd(id, ch, value))),
{
    lemma_track_start(s, id, ch, value);
    lemma_track_end(s, id, ch, value);
    songs::lemma_place(s.songs, id);
    lemma_reordered(s.songs);
    assert(state::step(s, Message::TrackStart(id, ch, value)).songs == songs::by_start(s.songs));
    assert(state::step(s, Message::TrackEnd(id, ch, value)).songs == songs::by_start(s.songs));
}

/// Ticking a track of a song that is not there leaves every song as it is.
pub proof fn law_unknown_track_is_not_ticked(s: AppState, id: u64, ch: usize, on: bool)
    requires
        forall|i: int| 0 <= i < s.songs.len() ==> (#[trigger] s.songs[i]).id != id,
    ensures
        same_songs(s, state::step(s, Message::TrackActive(id, ch, on))),
        same_songs(s, state::step(s, Message::ToggleTrackActive(id, ch))),
{
    lemma_ticks(s, id, ch, on);
    songs::lemma_place(s.songs, id);
    lemma_reordered(s.songs);
    assert(state::step(s, Message::TrackActive(id, ch, on)).songs == songs::by_start(s.songs));
    assert(state::step(s, Message::ToggleTrackActive(id, ch)).songs == songs::by_start(s.songs));
}

/// Whether the songs of two states are the same, in the order of their starts in the
/// second.
pub open spec fn same_songs(s: AppState, t: AppState) -> bool {
    &&& t.songs.len() == s.songs.len()
    &&& in_order(t.songs)
    &&& forall|k: int| 0 <= k < s.songs.len() ==> t.songs.contains(#[trigger] s.songs[k])
    &&& forall|k: int| 0 <= k < t.songs.len() ==> s.songs.contains(#[trigger] t.songs[k])
}

}
