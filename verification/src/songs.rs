//! The list of songs: finding a song, changing one, and keeping the list in
//! the order of the tape.

use crate::project;
use crate::project::{Song, SongView, TrackSettings};
use vstd::prelude::*;

verus! {

/// Where the first song with an id stands; the length of the list where there
/// is none.
pub open spec fn place_of(songs: Seq<SongView>, id: u64) -> int
    decreases songs.len(),
{
    if songs.len() == 0 || songs[0].id == id {
        0
    } else {
        1 + place_of(songs.drop_first(), id)
    }
}

/// The first song with an id.
pub open spec fn song_of(songs: Seq<SongView>, id: u64) -> Option<SongView> {
    let p = place_of(songs, id);
    if 0 <= p < songs.len() {
        Some(songs[p])
    } else {
        None
    }
}

/// The list with the first song of an id replaced.
pub open spec fn with_song(songs: Seq<SongView>, id: u64, song: SongView) -> Seq<SongView> {
    let p = place_of(songs, id);
    if 0 <= p < songs.len() {
        songs.update(p, song)
    } else {
        songs
    }
}

/// What the song with an id says of a track.
pub open spec fn track_of(songs: Seq<SongView>, id: u64, ch: int) -> Option<TrackSettings> {
    match song_of(songs, id) {
        Some(s) => if 0 <= ch < s.tracks.len() {
            Some(s.tracks[ch])
        } else {
            None
        },
        None => None,
    }
}

/// The list with a track of a song replaced.
pub open spec fn with_track(
    songs: Seq<SongView>,
    id: u64,
    ch: int,
    t: TrackSettings,
) -> Seq<SongView> {
    match song_of(songs, id) {
        Some(s) => if 0 <= ch < s.tracks.len() {
            with_song(songs, id, SongView { tracks: s.tracks.update(ch, t), ..s })
        } else {
            songs
        },
        None => songs,
    }
}

/// The list without the songs of an id.
pub open spec fn without(songs: Seq<SongView>, id: u64) -> Seq<SongView> {
    songs.filter(|s: SongView| s.id != id)
}

/// A song put into an ordered list, behind all that start no later.
pub open spec fn inserted(songs: Seq<SongView>, song: SongView) -> Seq<SongView>
    decreases songs.len(),
{
    if songs.len() > 0 && songs.last().start > song.start {
        inserted(songs.drop_last(), song).push(songs.last())
    } else {
        songs.push(song)
    }
}

/// The songs in the order of their starts; songs that start together keep
/// their order.
pub open spec fn by_start(songs: Seq<SongView>) -> Seq<SongView>
    decreases songs.len(),
{
    if songs.len() == 0 {
        Seq::empty()
    } else {
        inserted(by_start(songs.drop_last()), songs.last())
    }
}

/// Whether no song starts before one that comes earlier.
pub open spec fn sorted(songs: Seq<SongView>) -> bool {
    forall|i: int, j: int| 0 <= i <= j < songs.len() ==> songs[i].start <= songs[j].start
}

/// Whether no two songs have the same id.
pub open spec fn distinct(songs: Seq<SongView>) -> bool {
    forall|i: int, j: int| 0 <= i < j < songs.len() ==> songs[i].id != songs[j].id
}

pub proof fn lemma_place(songs: Seq<SongView>, id: u64)
    ensures
        0 <= place_of(songs, id) <= songs.len(),
        forall|i: int| 0 <= i < place_of(songs, id) ==> (#[trigger] songs[i]).id != id,
        place_of(songs, id) < songs.len() ==> songs[place_of(songs, id)].id == id,
    decreases songs.len(),
{
    if songs.len() > 0 && songs[0].id != id {
        let rest = songs.drop_first();
        lemma_place(rest, id);
        assert forall|i: int| 0 <= i < place_of(songs, id) implies (#[trigger] songs[i]).id
            != id by {
            if i > 0 {
                assert(songs[i] == rest[i - 1]);
            }
        }
    }
}

/// Where the first song with an id stands.
pub fn find_song(songs: &Vec<Song>, id: u64) -> (r: usize)
    ensures
        r == place_of(project::songs_view(songs@), id),
        r <= songs@.len(),
{
    let ghost v = project::songs_view(songs@);
    let mut i: usize = 0;
    assert(v.skip(0) =~= v);
    while i < songs.len()
        invariant
            i <= songs@.len() == v.len(),
            v == project::songs_view(songs@),
            place_of(v, id) == i + place_of(v.skip(i as int), id),
        decreases songs.len() - i,
    {
        assert(v.skip(i as int)[0] == songs@[i as int]@);
        if songs[i].id == id {
            return i;
        }
        assert(v.skip(i as int).drop_first() =~= v.skip(i + 1));
        i += 1;
    }
    i
}

proof fn lemma_inserted(songs: Seq<SongView>, song: SongView, k: int)
    requires
        0 <= k <= songs.len(),
        forall|i: int| k <= i < songs.len() ==> (#[trigger] songs[i]).start > song.start,
        k > 0 ==> songs[k - 1].start <= song.start,
    ensures
        inserted(songs, song) == songs.insert(k, song),
    decreases songs.len(),
{
    if k == songs.len() {
        assert(songs.insert(k, song) =~= songs.push(song));
    } else {
        let front = songs.drop_last();
        assert forall|i: int| k <= i < front.len() implies (#[trigger] front[i]).start
            > song.start by {
            assert(front[i] == songs[i]);
        }
        lemma_inserted(front, song, k);
        assert(front.insert(k, song).push(songs.last()) =~= songs.insert(k, song));
    }
}

/// Puts the songs in the order of their starts.
pub fn sort_songs(songs: &mut Vec<Song>)
    ensures
        project::songs_view(final(songs)@) == by_start(project::songs_view(old(songs)@)),
        final(songs)@.len() == old(songs)@.len(),
{
    let ghost all = project::songs_view(songs@);
    let n: usize = songs.len();
    let mut i: usize = 0;
    assert(by_start(all.take(0)) + all.skip(0) =~= all);
    while i < n
        invariant
            i <= n == songs@.len() == all.len(),
            by_start(all.take(i as int)).len() == i,
            project::songs_view(songs@) == by_start(all.take(i as int)) + all.skip(i as int),
        decreases n - i,
    {
        let ghost done = by_start(all.take(i as int));
        let ghost v = project::songs_view(songs@);
        let start: usize = songs[i].start;
        proof {
            assert(v[i as int] == all[i as int]);
            assert(v[i as int] == songs@[i as int]@);
            assert(all.take(i + 1).drop_last() =~= all.take(i as int));
            assert(all.take(i + 1).last() == all[i as int]);
        }
        let mut k: usize = i;
        while k > 0 && songs[k - 1].start > start
            invariant
                k <= i < n == songs@.len(),
                done.len() == i,
                v == project::songs_view(songs@),
                forall|j: int| 0 <= j < i ==> #[trigger] v[j] == done[j],
                forall|j: int| k <= j < i ==> (#[trigger] done[j]).start > start,
            decreases k,
        {
            assert(v[k - 1] == songs@[k - 1]@);
            assert(v[k - 1] == done[k - 1]);
            k -= 1;
        }
        proof {
            if k > 0 {
                assert(v[k - 1] == songs@[k - 1]@);
                assert(v[k - 1] == done[k - 1]);
            }
            lemma_inserted(done, all[i as int], k as int);
        }
        let ghost before = songs@;
        let song = songs.remove(i);
        songs.insert(k, song);
        proof {
            let w = project::songs_view(songs@);
            let goal = done.insert(k as int, all[i as int]) + all.skip(i + 1);
            assert(w.len() == goal.len());
            assert forall|j: int| 0 <= j < w.len() implies w[j] == goal[j] by {
                if j < k {
                    assert(songs@[j] == before[j]);
                    assert(v[j] == before[j]@);
                } else if j == k {
                    assert(songs@[j] == before[i as int]);
                } else if j <= i {
                    assert(songs@[j] == before[j - 1]);
                    assert(v[j - 1] == before[j - 1]@);
                } else {
                    assert(songs@[j] == before[j]);
                    assert(v[j] == before[j]@);
                }
            }
            assert(w =~= goal);
        }
        i += 1;
    }
    assert(all.take(n as int) =~= all);
    assert(by_start(all) + all.skip(n as int) =~= by_start(all));
}

/// Deleting a song takes out the songs of its id and no others.
pub proof fn law_delete_removes(songs: Seq<SongView>, id: u64)
    ensures
        without(songs, id).len() <= songs.len(),
        forall|i: int|
            0 <= i < without(songs, id).len() ==> (#[trigger] without(songs, id)[i]).id != id
                && songs.contains(without(songs, id)[i]),
        forall|i: int|
            0 <= i < songs.len() && (#[trigger] songs[i]).id != id ==> without(songs, id).contains(
                songs[i],
            ),
    decreases songs.len(),
{
    reveal(Seq::filter);
    if songs.len() > 0 {
        let front = songs.drop_last();
        law_delete_removes(front, id);
        let out = without(songs, id);
        let inner = without(front, id);
        assert(out == if songs.last().id != id { inner.push(songs.last()) } else { inner });
        assert forall|i: int| 0 <= i < out.len() implies (#[trigger] out[i]).id != id
            && songs.contains(out[i]) by {
            if i < inner.len() {
                assert(out[i] == inner[i]);
                assert(front.contains(inner[i]));
                let k = choose|k: int| 0 <= k < front.len() && front[k] == inner[i];
                assert(songs[k] == out[i]);
            } else {
                assert(songs[songs.len() - 1] == out[i]);
            }
        }
        assert forall|i: int| 0 <= i < songs.len() && (#[trigger] songs[i]).id
            != id implies out.contains(songs[i]) by {
            if i < front.len() {
                assert(front[i] == songs[i]);
                assert(inner.contains(front[i]));
                let k = choose|k: int| 0 <= k < inner.len() && inner[k] == front[i];
                assert(out[k] == songs[i]);
            } else {
                assert(out[out.len() - 1] == songs[i]);
            }
        }
    }
}

/// Takes the songs of an id out of the list.
pub fn remove_song(songs: Vec<Song>, id: u64) -> (r: Vec<Song>)
    ensures
        project::songs_view(r@) == without(project::songs_view(songs@), id),
        r@.len() <= songs@.len(),
{
    let ghost all = project::songs_view(songs@);
    let ghost keep = |s: SongView| s.id != id;
    let mut out: Vec<Song> = Vec::new();
    let mut i: usize = 0;
    proof {
        reveal(Seq::filter);
        assert(project::songs_view(out@) =~= all.take(0).filter(keep));
    }
    while i < songs.len()
        invariant
            i <= songs@.len() == all.len(),
            all == project::songs_view(songs@),
            keep == |s: SongView| s.id != id,
            out@.len() <= i,
            project::songs_view(out@) == all.take(i as int).filter(keep),
        decreases songs.len() - i,
    {
        proof {
            reveal(Seq::filter);
            assert(all.take(i + 1).drop_last() =~= all.take(i as int));
            assert(all.take(i + 1).last() == songs@[i as int]@);
        }
        if songs[i].id != id {
            let ghost before = out@;
            let song = songs[i].clone();
            out.push(song);
            assert(project::songs_view(out@) =~= project::songs_view(before).push(
                songs@[i as int]@,
            ));
        }
        i += 1;
    }
    assert(all.take(songs@.len() as int) =~= all);
    out
}

/// The list with another start for a song.
pub open spec fn with_start(songs: Seq<SongView>, id: u64, start: usize) -> Seq<SongView> {
    match song_of(songs, id) {
        Some(s) => with_song(songs, id, SongView { start, ..s }),
        None => songs,
    }
}

/// The list with another end for a song.
pub open spec fn with_end(songs: Seq<SongView>, id: u64, end: usize) -> Seq<SongView> {
    match song_of(songs, id) {
        Some(s) => with_song(songs, id, SongView { end, ..s }),
        None => songs,
    }
}

/// The list with another title for a song.
pub open spec fn with_title(songs: Seq<SongView>, id: u64, title: Seq<char>) -> Seq<SongView> {
    match song_of(songs, id) {
        Some(s) => with_song(songs, id, SongView { title, ..s }),
        None => songs,
    }
}

pub fn put_start(songs: &mut Vec<Song>, id: u64, start: usize)
    ensures
        project::songs_view(final(songs)@) == with_start(
            project::songs_view(old(songs)@),
            id,
            start,
        ),
{
    let ghost v = project::songs_view(songs@);
    let p: usize = find_song(songs, id);
    if p < songs.len() {
        assert(v[p as int] == songs@[p as int]@);
        songs[p].start = start;
        proof {
            let s = v[p as int];
            assert(songs@[p as int]@ =~= (SongView { start, ..s }));
            assert(project::songs_view(songs@) =~= with_start(v, id, start));
        }
    }
}

pub fn put_end(songs: &mut Vec<Song>, id: u64, end: usize)
    ensures
        project::songs_view(final(songs)@) == with_end(project::songs_view(old(songs)@), id, end),
{
    let ghost v = project::songs_view(songs@);
    let p: usize = find_song(songs, id);
    if p < songs.len() {
        assert(v[p as int] == songs@[p as int]@);
        songs[p].end = end;
        proof {
            let s = v[p as int];
            assert(songs@[p as int]@ =~= (SongView { end, ..s }));
            assert(project::songs_view(songs@) =~= with_end(v, id, end));
        }
    }
}

pub fn put_title(songs: &mut Vec<Song>, id: u64, title: String)
    ensures
        project::songs_view(final(songs)@) == with_title(
            project::songs_view(old(songs)@),
            id,
            title@,
        ),
{
    let ghost v = project::songs_view(songs@);
    let ghost t = title@;
    let p: usize = find_song(songs, id);
    if p < songs.len() {
        assert(v[p as int] == songs@[p as int]@);
        songs[p].title = title;
        proof {
            let s = v[p as int];
            assert(songs@[p as int]@ =~= (SongView { title: t, ..s }));
            assert(project::songs_view(songs@) =~= with_title(v, id, t));
        }
    }
}

/// What the song with an id says of a track.
pub fn find_track(songs: &Vec<Song>, id: u64, ch: usize) -> (r: Option<TrackSettings>)
    ensures
        r == track_of(project::songs_view(songs@), id, ch as int),
{
    let p: usize = find_song(songs, id);
    if p < songs.len() {
        assert(project::songs_view(songs@)[p as int] == songs@[p as int]@);
        if ch < songs[p].tracks.len() {
            return Some(songs[p].tracks[ch]);
        }
    }
    None
}

/// Replaces what the song with an id says of a track.
pub fn put_track(songs: &mut Vec<Song>, id: u64, ch: usize, t: TrackSettings)
    ensures
        project::songs_view(final(songs)@) == with_track(
            project::songs_view(old(songs)@),
            id,
            ch as int,
            t,
        ),
        final(songs)@.len() == old(songs)@.len(),
{
    let ghost v = project::songs_view(songs@);
    let p: usize = find_song(songs, id);
    if p < songs.len() {
        assert(v[p as int] == songs@[p as int]@);
        if ch < songs[p].tracks.len() {
            songs[p].tracks[ch] = t;
            proof {
                let s = v[p as int];
                assert(songs@[p as int]@ =~= (SongView {
                    tracks: s.tracks.update(ch as int, t),
                    ..s
                }));
                assert(project::songs_view(songs@) =~= with_track(v, id, ch as int, t));
            }
        }
    }
}

proof fn lemma_inserted_sorted(songs: Seq<SongView>, song: SongView)
    requires
        sorted(songs),
    ensures
        sorted(inserted(songs, song)),
        inserted(songs, song).len() == songs.len() + 1,
        inserted(songs, song).to_multiset() == songs.to_multiset().insert(song),
        forall|i: int|
            0 <= i < inserted(songs, song).len() ==> (#[trigger] inserted(songs, song)[i]).start
                <= song.start || (songs.len() > 0 && inserted(songs, song)[i].start
                <= songs.last().start),
    decreases songs.len(),
{
    broadcast use vstd::seq_lib::group_to_multiset_ensures;

    if songs.len() > 0 && songs.last().start > song.start {
        let front = songs.drop_last();
        lemma_inserted_sorted(front, song);
        let inner = inserted(front, song);
        let out = inserted(songs, song);
        assert(songs =~= front.push(songs.last()));
        assert forall|i: int| 0 <= i < inner.len() implies (#[trigger] inner[i]).start
            <= songs.last().start by {
            if front.len() > 0 {
                assert(front.last() == songs[songs.len() - 2]);
            }
        }
        assert forall|i: int, j: int| 0 <= i <= j < out.len() implies out[i].start
            <= out[j].start by {
            if j < inner.len() {
                assert(inner[i].start <= inner[j].start);
            } else if i < inner.len() {
                assert(inner[i].start <= songs.last().start);
            }
        }
    }
}

proof fn lemma_inserted_from(songs: Seq<SongView>, song: SongView)
    ensures
        forall|i: int|
            0 <= i < inserted(songs, song).len() ==> #[trigger] inserted(songs, song)[i] == song
                || songs.contains(inserted(songs, song)[i]),
    decreases songs.len(),
{
    let out = inserted(songs, song);
    if songs.len() > 0 && songs.last().start > song.start {
        let front = songs.drop_last();
        lemma_inserted_from(front, song);
        let inner = inserted(front, song);
        assert forall|i: int| 0 <= i < out.len() implies #[trigger] out[i] == song
            || songs.contains(out[i]) by {
            if i < inner.len() {
                assert(out[i] == inner[i]);
                if inner[i] != song {
                    let k = choose|k: int| 0 <= k < front.len() && front[k] == inner[i];
                    assert(songs[k] == out[i]);
                }
            } else {
                assert(songs[songs.len() - 1] == out[i]);
            }
        }
    } else {
        assert forall|i: int| 0 <= i < out.len() implies #[trigger] out[i] == song
            || songs.contains(out[i]) by {
            if i < songs.len() {
                assert(songs[i] == out[i]);
            }
        }
    }
}

/// Sorting only moves songs.
pub proof fn lemma_by_start_from(songs: Seq<SongView>)
    ensures
        forall|i: int|
            0 <= i < by_start(songs).len() ==> songs.contains(#[trigger] by_start(songs)[i]),
    decreases songs.len(),
{
    if songs.len() > 0 {
        let front = songs.drop_last();
        lemma_by_start_from(front);
        lemma_inserted_from(by_start(front), songs.last());
        let out = by_start(songs);
        assert forall|i: int| 0 <= i < out.len() implies songs.contains(#[trigger] out[i]) by {
            if out[i] == songs.last() {
                assert(songs[songs.len() - 1] == out[i]);
            } else {
                assert(by_start(front).contains(out[i]));
                let k = choose|k: int| 0 <= k < by_start(front).len() && by_start(front)[k]
                    == out[i];
                assert(front.contains(by_start(front)[k]));
                let m = choose|m: int| 0 <= m < front.len() && front[m] == out[i];
                assert(songs[m] == out[i]);
            }
        }
    }
}

/// Whether no song has the id.
pub open spec fn unused(songs: Seq<SongView>, id: u64) -> bool {
    forall|i: int| 0 <= i < songs.len() ==> (#[trigger] songs[i]).id != id
}

proof fn lemma_inserted_distinct(songs: Seq<SongView>, song: SongView)
    requires
        distinct(songs),
        unused(songs, song.id),
    ensures
        distinct(inserted(songs, song)),
    decreases songs.len(),
{
    if songs.len() > 0 && songs.last().start > song.start {
        let front = songs.drop_last();
        let inner = inserted(front, song);
        let out = inserted(songs, song);
        assert forall|i: int| 0 <= i < front.len() implies (#[trigger] front[i]).id != song.id by {
            assert(front[i] == songs[i]);
        }
        lemma_inserted_distinct(front, song);
        lemma_inserted_from(front, song);
        assert forall|i: int, j: int| 0 <= i < j < out.len() implies out[i].id != out[j].id by {
            if j == inner.len() {
                assert(inner[i] == song || front.contains(inner[i]));
                if inner[i] == song {
                    assert(songs[songs.len() - 1].id != song.id);
                } else {
                    let k = choose|k: int| 0 <= k < front.len() && front[k] == inner[i];
                    assert(songs[k].id != songs[songs.len() - 1].id);
                }
            } else {
                assert(inner[i].id != inner[j].id);
            }
        }
    }
}

/// Sorting keeps ids distinct.
pub proof fn lemma_by_start_distinct(songs: Seq<SongView>)
    requires
        distinct(songs),
    ensures
        distinct(by_start(songs)),
    decreases songs.len(),
{
    if songs.len() > 0 {
        let front = songs.drop_last();
        lemma_by_start_distinct(front);
        lemma_by_start_from(front);
        assert forall|i: int| 0 <= i < by_start(front).len() implies (#[trigger] by_start(
            front,
        )[i]).id != songs.last().id by {
            assert(front.contains(by_start(front)[i]));
            let k = choose|k: int| 0 <= k < front.len() && front[k] == by_start(front)[i];
            assert(songs[k].id != songs[songs.len() - 1].id);
        }
        lemma_inserted_distinct(by_start(front), songs.last());
    }
}

/// Taking songs out keeps ids distinct.
pub proof fn lemma_without_distinct(songs: Seq<SongView>, id: u64)
    requires
        distinct(songs),
    ensures
        distinct(without(songs, id)),
    decreases songs.len(),
{
    reveal(Seq::filter);
    if songs.len() > 0 {
        let front = songs.drop_last();
        lemma_without_distinct(front, id);
        law_delete_removes(front, id);
        let inner = without(front, id);
        let out = without(songs, id);
        assert(out == if songs.last().id != id { inner.push(songs.last()) } else { inner });
        assert forall|i: int, j: int| 0 <= i < j < out.len() implies out[i].id != out[j].id by {
            if j == inner.len() {
                assert(front.contains(inner[i]));
                let k = choose|k: int| 0 <= k < front.len() && front[k] == inner[i];
                assert(songs[k].id != songs[songs.len() - 1].id);
            } else {
                assert(inner[i].id != inner[j].id);
            }
        }
    }
}

/// After every change the songs are in the order of the tape: none is lost
/// and none added, and no song starts before one that comes earlier.
pub proof fn law_songs_in_tape_order(songs: Seq<SongView>)
    ensures
        sorted(by_start(songs)),
        by_start(songs).to_multiset() == songs.to_multiset(),
        by_start(songs).len() == songs.len(),
    decreases songs.len(),
{
    broadcast use vstd::seq_lib::group_to_multiset_ensures;

    if songs.len() > 0 {
        law_songs_in_tape_order(songs.drop_last());
        lemma_inserted_sorted(by_start(songs.drop_last()), songs.last());
        assert(songs =~= songs.drop_last().push(songs.last()));
    }
}

proof fn lemma_inserted_starting(songs: Seq<SongView>, song: SongView, start: usize)
    ensures
        inserted(songs, song).filter(|s: SongView| s.start == start) == songs.push(song).filter(
            |s: SongView| s.start == start,
        ),
    decreases songs.len(),
{
    let together = |s: SongView| s.start == start;
    if songs.len() > 0 && songs.last().start > song.start {
        let front = songs.drop_last();
        lemma_inserted_starting(front, song, start);
        let inner = inserted(front, song);
        assert(songs =~= front.push(songs.last()));
        lemma_filter_push(front, song, together);
        lemma_filter_push(front, songs.last(), together);
        lemma_filter_push(songs, song, together);
        lemma_filter_push(inner, songs.last(), together);
    }
}

proof fn lemma_filter_push(songs: Seq<SongView>, song: SongView, keep: spec_fn(SongView) -> bool)
    ensures
        songs.push(song).filter(keep) == if keep(song) {
            songs.filter(keep).push(song)
        } else {
            songs.filter(keep)
        },
{
    reveal(Seq::filter);
    assert(songs.push(song).drop_last() =~= songs);
}

/// Sorting is stable: songs that start together stay in their order.
pub proof fn law_sorting_is_stable(songs: Seq<SongView>, start: usize)
    ensures
        by_start(songs).filter(|s: SongView| s.start == start) == songs.filter(
            |s: SongView| s.start == start,
        ),
    decreases songs.len(),
{
    let together = |s: SongView| s.start == start;
    if songs.len() > 0 {
        let front = songs.drop_last();
        law_sorting_is_stable(front, start);
        lemma_inserted_starting(by_start(front), songs.last(), start);
        lemma_filter_push(by_start(front), songs.last(), together);
        lemma_filter_push(front, songs.last(), together);
        assert(songs =~= front.push(songs.last()));
    } else {
        assert(by_start(songs) =~= songs);
    }
}

}
