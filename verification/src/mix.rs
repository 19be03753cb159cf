//! The very simple mix: per-track volume and pan, summed to stereo. Playback
//! and export share it, so both sound the same. What is decided here is which
//! tracks are heard, where and how loud; the sums themselves are arithmetic
//! on samples.

use crate::audio::AudioData;
use crate::project;
use crate::project::Song;
use crate::single::Single;
use crate::text;
use crate::text::decimal_text;
use vstd::prelude::*;
use vstd::string::*;

verus! {

/// How loud a track is on either side.
#[derive(Clone, Copy, Debug, PartialEq, Eq, Structural)]
pub enum Gain {
    /// By the fader and the pan of the track.
    Fader { volume: Single, pan: Single },
    /// In the center, as one of so many equal tracks.
    Even { channels: usize },
}

/// What the mixer needs to know of one track.
#[derive(Clone, Copy, Debug, PartialEq, Eq, Structural)]
pub struct TrackMix {
    /// The track of the recording.
    pub channel: usize,
    pub gain: Gain,
    /// Where the track is heard.
    pub start: usize,
    pub end: usize,
}

/// Whether any track of the song is soloed.
pub open spec fn any_solo(song: project::SongView) -> bool {
    exists|i: int| 0 <= i < song.tracks.len() && (#[trigger] song.tracks[i]).solo
}

/// Whether a track of the song is heard at all.
pub open spec fn heard(song: project::SongView, ch: int) -> bool {
    &&& song.range(ch) is Some
    &&& !song.tracks[ch].mute
    &&& any_solo(song) ==> song.tracks[ch].solo
}

/// The mix of one track that is heard.
pub open spec fn mix_of(song: project::SongView, ch: int) -> TrackMix {
    let t = song.tracks[ch];
    TrackMix {
        channel: ch as usize,
        gain: (Gain::Fader { volume: t.volume, pan: t.pan }),
        start: song.track_start(ch),
        end: song.track_end(ch),
    }
}

/// The mixes of the tracks below `n` that are heard.
pub open spec fn mixes_below(song: project::SongView, n: nat) -> Seq<TrackMix>
    decreases n,
{
    if n == 0 {
        Seq::empty()
    } else if heard(song, n - 1) {
        mixes_below(song, (n - 1) as nat).push(mix_of(song, n - 1))
    } else {
        mixes_below(song, (n - 1) as nat)
    }
}

/// The mix of a song.
pub open spec fn mixes_of(song: project::SongView) -> Seq<TrackMix> {
    mixes_below(song, song.tracks.len())
}

fn has_solo(song: &Song) -> (r: bool)
    ensures
        r == any_solo(song@),
{
    let mut i: usize = 0;
    while i < song.tracks.len()
        invariant
            i <= song.tracks.len(),
            forall|k: int| 0 <= k < i ==> !(#[trigger] song.tracks@[k]).solo,
        decreases song.tracks.len() - i,
    {
        if song.tracks[i].solo {
            assert(song@.tracks[i as int].solo);
            return true;
        }
        i += 1;
    }
    false
}

/// The mix of a song. Tracks that are not used, muted, or not soloed while
/// another is, are left out.
pub fn song_mixes(song: &Song) -> (r: Vec<TrackMix>)
    requires
        song@.clampable(),
    ensures
        r@ == mixes_of(song@),
{
    let solo = has_solo(song);
    let mut out: Vec<TrackMix> = Vec::new();
    let mut ch: usize = 0;
    while ch < song.tracks.len()
        invariant
            ch <= song.tracks.len(),
            song@.clampable(),
            solo == any_solo(song@),
            out@ == mixes_below(song@, ch as nat),
        decreases song.tracks.len() - ch,
    {
        let t = song.tracks[ch];
        if let Some((start, end)) = song.track_range(ch) {
            if !(t.mute || (solo && !t.solo)) {
                out.push(
                    TrackMix {
                        channel: ch,
                        gain: Gain::Fader { volume: t.volume, pan: t.pan },
                        start,
                        end,
                    },
                );
            }
        }
        ch += 1;
    }
    out
}

/// Every track alike over the whole recording.
pub open spec fn flat(channels: usize, frames: usize) -> Seq<TrackMix> {
    Seq::new(
        channels as nat,
        |c: int|
            TrackMix {
                channel: c as usize,
                gain: (Gain::Even { channels }),
                start: 0,
                end: frames,
            },
    )
}

/// Every track in the center over the whole recording, so that the raw tape
/// can be heard when no song is selected.
pub fn flat_mixes(channels: usize, frames: usize) -> (r: Vec<TrackMix>)
    ensures
        r@ == flat(channels, frames),
{
    let mut out: Vec<TrackMix> = Vec::new();
    let mut channel: usize = 0;
    while channel < channels
        invariant
            channel <= channels,
            out@ == flat(channels, frames).take(channel as int),
        decreases channels - channel,
    {
        out.push(TrackMix { channel, gain: Gain::Even { channels }, start: 0, end: frames });
        channel += 1;
        assert(out@ =~= flat(channels, frames).take(channel as int));
    }
    assert(flat(channels, frames).take(channels as int) =~= flat(channels, frames));
    out
}

/// The part of a track that falls into a block of the mix.
#[derive(Clone, Copy, Debug, PartialEq, Eq, Structural)]
pub struct Span {
    /// Which mix it belongs to.
    pub mix: usize,
    /// The samples `[start, end)` of this track ...
    pub channel: usize,
    pub start: usize,
    pub end: usize,
    /// ... are added from this frame of the block on.
    pub offset: usize,
}

/// A block of the mix: its length, and what is added up in it.
#[derive(Debug)]
pub struct Block {
    pub frames: usize,
    pub spans: Vec<Span>,
}

pub open spec fn later(a: usize, b: usize) -> usize {
    if a > b {
        a
    } else {
        b
    }
}

pub open spec fn earlier(a: usize, b: usize) -> usize {
    if a < b {
        a
    } else {
        b
    }
}

/// Whether a mix has a part in the frames `[from, to)`.
pub open spec fn takes_part(m: TrackMix, from: usize, to: usize, channels: int) -> bool {
    earlier(m.end, to) > later(m.start, from) && m.channel < channels
}

/// The part of a mix in the frames `[from, to)`.
pub open spec fn span_of(m: TrackMix, k: int, from: usize, to: usize) -> Span {
    Span {
        mix: k as usize,
        channel: m.channel,
        start: later(m.start, from),
        end: earlier(m.end, to),
        offset: (later(m.start, from) - from) as usize,
    }
}

/// The parts of the first `n` mixes.
pub open spec fn spans_below(
    mixes: Seq<TrackMix>,
    n: nat,
    from: usize,
    to: usize,
    channels: int,
) -> Seq<Span>
    decreases n,
{
    if n == 0 {
        Seq::empty()
    } else {
        let front = spans_below(mixes, (n - 1) as nat, from, to, channels);
        if takes_part(mixes[n - 1], from, to, channels) {
            front.push(span_of(mixes[n - 1], n - 1, from, to))
        } else {
            front
        }
    }
}

/// What is added up in the frames `[from, to)` of a mix, as far as the
/// recording goes.
pub fn mix_block(audio: &AudioData, mixes: &[TrackMix], from: usize, to: usize) -> (r: Block)
    ensures
        ({
            let end = earlier(to, audio.frame_count() as usize);
            if end <= from {
                r.frames == 0 && r.spans@.len() == 0
            } else {
                &&& r.frames == end - from
                &&& r.spans@ == spans_below(
                    mixes@,
                    mixes@.len(),
                    from,
                    end,
                    audio.tracks@.len() as int,
                )
            }
        }),
{
    let frames: usize = audio.frames();
    let end: usize = if to < frames {
        to
    } else {
        frames
    };
    let mut spans: Vec<Span> = Vec::new();
    if end <= from {
        return Block { frames: 0, spans };
    }
    let mut k: usize = 0;
    while k < mixes.len()
        invariant
            k <= mixes@.len(),
            from < end,
            spans@ == spans_below(mixes@, k as nat, from, end, audio.tracks@.len() as int),
        decreases mixes.len() - k,
    {
        let m = mixes[k];
        let s: usize = if m.start > from {
            m.start
        } else {
            from
        };
        let e: usize = if m.end < end {
            m.end
        } else {
            end
        };
        if e > s && m.channel < audio.channels() {
            spans.push(Span { mix: k, channel: m.channel, start: s, end: e, offset: s - from });
        }
        k += 1;
    }
    Block { frames: end - from, spans }
}

/// A track has a part in a block in exactly those frames in which it is
/// heard: nothing outside its range leaks into the mix, and nothing inside is
/// lost.
pub proof fn law_block_holds_what_is_heard(
    m: TrackMix,
    k: int,
    from: usize,
    to: usize,
    channels: int,
    f: int,
)
    requires
        from <= f < to,
    ensures
        ({
            let span = span_of(m, k, from, to);
            (takes_part(m, from, to, channels) && span.start <= f < span.end) <==> (m.channel
                < channels && m.start <= f < m.end)
        }),
        takes_part(m, from, to, channels) ==> span_of(m, k, from, to).offset + from == span_of(
            m,
            k,
            from,
            to,
        ).start,
{
}

/// Which mixes have a part in a frame, in order, by the parts of a block.
pub open spec fn parts_at(spans: Seq<Span>, f: int) -> Seq<(usize, usize)>
    decreases spans.len(),
{
    if spans.len() == 0 {
        Seq::empty()
    } else {
        let front = parts_at(spans.drop_last(), f);
        let s = spans.last();
        if s.start <= f < s.end {
            front.push((s.mix, s.channel))
        } else {
            front
        }
    }
}

/// Which of the first `n` mixes are heard in a frame, in order, with their
/// tracks.
pub open spec fn heard_at(mixes: Seq<TrackMix>, n: nat, channels: int, f: int) -> Seq<
    (usize, usize),
>
    decreases n,
{
    if n == 0 {
        Seq::empty()
    } else {
        let front = heard_at(mixes, (n - 1) as nat, channels, f);
        let m = mixes[n - 1];
        if m.channel < channels && m.start <= f < m.end {
            front.push(((n - 1) as usize, m.channel))
        } else {
            front
        }
    }
}

/// What is added up in a frame does not depend on the block that it is rendered
/// in: the same tracks in the same order, however the range is cut. So playback
/// in blocks and a mixdown in one piece add up the same samples.
pub proof fn law_blocks_add_up_the_same(
    mixes: Seq<TrackMix>,
    n: nat,
    from: usize,
    to: usize,
    channels: int,
    f: int,
)
    requires
        n <= mixes.len(),
        from <= f < to,
    ensures
        parts_at(spans_below(mixes, n, from, to, channels), f) == heard_at(mixes, n, channels, f),
    decreases n,
{
    if n > 0 {
        law_blocks_add_up_the_same(mixes, (n - 1) as nat, from, to, channels, f);
        let front = spans_below(mixes, (n - 1) as nat, from, to, channels);
        let m = mixes[n - 1];
        law_block_holds_what_is_heard(m, n - 1, from, to, channels, f);
        if takes_part(m, from, to, channels) {
            let all = front.push(span_of(m, n - 1, from, to));
            assert(all.drop_last() =~= front);
        }
    }
}

proof fn lemma_mixes_below(song: project::SongView, n: nat)
    requires
        n <= song.tracks.len(),
        song.tracks.len() <= usize::MAX,
    ensures
        forall|i: int|
            0 <= i < mixes_below(song, n).len() ==> {
                let m = #[trigger] mixes_below(song, n)[i];
                m.channel < n && heard(song, m.channel as int) && m == mix_of(
                    song,
                    m.channel as int,
                )
            },
        forall|ch: int|
            0 <= ch < n && heard(song, ch) ==> mixes_below(song, n).contains(
                #[trigger] mix_of(song, ch),
            ),
    decreases n,
{
    if n > 0 {
        lemma_mixes_below(song, (n - 1) as nat);
        let front = mixes_below(song, (n - 1) as nat);
        let all = mixes_below(song, n);
        assert forall|ch: int| 0 <= ch < n && heard(song, ch) implies all.contains(
            #[trigger] mix_of(song, ch),
        ) by {
            if ch == n - 1 {
                assert(all[all.len() - 1] == mix_of(song, ch));
            } else {
                assert(front.contains(mix_of(song, ch)));
                let i = choose|i: int| 0 <= i < front.len() && front[i] == mix_of(song, ch);
                assert(all[i] == mix_of(song, ch));
            }
        }
        assert forall|i: int| 0 <= i < all.len() implies ({
            let m = #[trigger] all[i];
            m.channel < n && heard(song, m.channel as int) && m == mix_of(song, m.channel as int)
        }) by {
            if i < front.len() {
                assert(all[i] == front[i]);
            }
        }
    }
}

/// The mix of a song holds the tracks that are heard and no others: each is
/// used and not muted, and where any track is soloed only soloed ones are in.
/// Each is heard in its own range.
pub proof fn law_mix_holds_heard_tracks(song: project::SongView, m: TrackMix)
    requires
        song.tracks.len() <= usize::MAX,
    ensures
        mixes_of(song).contains(m) <==> (m.channel < song.tracks.len() && song.uses(
            m.channel as int,
        ) && !song.tracks[m.channel as int].mute && (any_solo(song)
            ==> song.tracks[m.channel as int].solo) && song.range(m.channel as int) == Some(
            (m.start, m.end),
        ) && m == mix_of(song, m.channel as int)),
{
    lemma_mixes_below(song, song.tracks.len());
    let all = mixes_of(song);
    if all.contains(m) {
        let i = choose|i: int| 0 <= i < all.len() && all[i] == m;
        assert(heard(song, all[i].channel as int));
    }
}

/// Whether the frames `[start, end)` are those of a track of a song: the frames
/// of the song, from the start of the track where it has its own, up to its end
/// where it has its own, neither of them outside the song.
pub open spec fn runs(song: project::SongView, ch: int, start: usize, end: usize) -> bool {
    let t = song.tracks[ch];
    &&& t.start is None ==> start == song.start
    &&& t.start matches Some(f) ==> {
        &&& song.start <= f <= song.end ==> start == f
        &&& f < song.start ==> start == song.start
        &&& song.end < f ==> start == song.end
    }
    &&& t.end is None ==> end == song.end
    &&& t.end matches Some(f) ==> {
        &&& song.start <= f <= song.end ==> end == f
        &&& f < song.start ==> end == song.start
        &&& song.end < f ==> end == song.end
    }
}

/// Whether a track of a song sounds: the song uses it, it is not muted, and it is
/// soloed where any track of the song is.
pub open spec fn sounds(song: project::SongView, ch: int) -> bool {
    &&& song.tracks[ch].active
    &&& !song.tracks[ch].mute
    &&& (exists|i: int| 0 <= i < song.tracks.len() && (#[trigger] song.tracks[i]).solo)
        ==> song.tracks[ch].solo
}

/// Whether a mix is that of a song: it has every track that sounds, unless the
/// track has no frame, and no other, once each and in tape order. Each is as loud
/// and sits where the song says for this very track, and is heard in the frames
/// of this track.
pub open spec fn plays(song: project::SongView, mixes: Seq<TrackMix>) -> bool {
    &&& forall|k: int|
        0 <= k < mixes.len() ==> {
            let m = #[trigger] mixes[k];
            let t = song.tracks[m.channel as int];
            &&& m.channel < song.tracks.len()
            &&& sounds(song, m.channel as int)
            &&& m.gain == (Gain::Fader { volume: t.volume, pan: t.pan })
            &&& runs(song, m.channel as int, m.start, m.end)
            &&& m.start < m.end
        }
    &&& forall|j: int, k: int|
        0 <= j < k < mixes.len() ==> (#[trigger] mixes[j]).channel < (#[trigger] mixes[k]).channel
    &&& forall|ch: int, start: usize, end: usize|
        0 <= ch < song.tracks.len() && sounds(song, ch) && #[trigger] runs(song, ch, start, end)
            && start < end ==> exists|k: int|
            0 <= k < mixes.len() && (#[trigger] mixes[k]).channel == ch
}

/// Whether a mix is that of the raw tape: every track over all frames, all alike.
pub open spec fn plays_tape(channels: usize, frames: usize, mixes: Seq<TrackMix>) -> bool {
    &&& mixes.len() == channels
    &&& forall|k: int|
        0 <= k < mixes.len() ==> {
            let m = #[trigger] mixes[k];
            &&& m.channel == k
            &&& m.gain == (Gain::Even { channels })
            &&& m.start == 0
            &&& m.end == frames
        }
}

proof fn lemma_mixes_rising(song: project::SongView, n: nat)
    requires
        n <= song.tracks.len(),
        song.tracks.len() <= usize::MAX,
    ensures
        forall|j: int, k: int|
            0 <= j < k < mixes_below(song, n).len() ==> (#[trigger] mixes_below(song, n)[j]).channel
                < (#[trigger] mixes_below(song, n)[k]).channel,
    decreases n,
{
    if n > 0 {
        lemma_mixes_rising(song, (n - 1) as nat);
        lemma_mixes_below(song, (n - 1) as nat);
        let front = mixes_below(song, (n - 1) as nat);
        let all = mixes_below(song, n);
        assert forall|j: int, k: int| 0 <= j < k < all.len() implies (#[trigger] all[j]).channel
            < (#[trigger] all[k]).channel by {
            assert(all[j] == front[j]);
            assert(front[j].channel < n - 1);
            if k < front.len() {
                assert(all[k] == front[k]);
            }
        }
    }
}

/// The mix of a song: every track that is used, not muted and, where any is
/// soloed, soloed, at its own volume and pan and in its own range; no other track,
/// and none twice.
pub proof fn law_song_mix_plays_song(song: project::SongView)
    requires
        song.tracks.len() <= usize::MAX,
        song.start <= song.end,
    ensures
        plays(song, mixes_of(song)),
{
    let all = mixes_of(song);
    lemma_mixes_below(song, song.tracks.len());
    lemma_mixes_rising(song, song.tracks.len());
    assert forall|ch: int, start: usize, end: usize|
        0 <= ch < song.tracks.len() && sounds(song, ch) && #[trigger] runs(song, ch, start, end)
            && start < end implies exists|k: int|
        0 <= k < all.len() && (#[trigger] all[k]).channel == ch by {
        assert(heard(song, ch));
        assert(all.contains(mix_of(song, ch)));
        let k = choose|k: int| 0 <= k < all.len() && all[k] == mix_of(song, ch);
        assert(all[k].channel == ch);
    }
}

/// Without a song the raw tape is heard: all tracks alike, from start to end.
pub proof fn law_flat_mix_plays_tape(channels: usize, frames: usize)
    ensures
        plays_tape(channels, frames, flat(channels, frames)),
{
}

/// What is handed out for a block: every part lies in the block and in the range
/// of its mix, belongs to the track of that mix, and is added where its first
/// frame stands in the block; a frame of the block in which a mix is heard lies in
/// a part of that mix.
pub proof fn law_parts_fit_block(
    mixes: Seq<TrackMix>,
    n: nat,
    from: usize,
    to: usize,
    channels: int,
)
    requires
        n <= mixes.len(),
        n <= usize::MAX,
    ensures
        ({
            let spans = spans_below(mixes, n, from, to, channels);
            &&& forall|k: int|
                0 <= k < spans.len() ==> {
                    let p = #[trigger] spans[k];
                    &&& p.mix < n
                    &&& p.channel == mixes[p.mix as int].channel
                    &&& p.channel < channels
                    &&& from <= p.start < p.end <= to
                    &&& mixes[p.mix as int].start <= p.start
                    &&& p.end <= mixes[p.mix as int].end
                    &&& p.offset == p.start - from
                }
            &&& forall|i: int, f: int|
                0 <= i < n && from <= f < to && mixes[i].channel < channels
                    && #[trigger] in_range(mixes[i], f) ==> exists|k: int|
                    0 <= k < spans.len() && (#[trigger] spans[k]).mix == i && spans[k].start <= f
                        < spans[k].end
        }),
    decreases n,
{
    if n > 0 {
        law_parts_fit_block(mixes, (n - 1) as nat, from, to, channels);
        let front = spans_below(mixes, (n - 1) as nat, from, to, channels);
        let spans = spans_below(mixes, n, from, to, channels);
        assert forall|k: int| 0 <= k < front.len() implies spans[k] == #[trigger] front[k] by {}
        assert forall|i: int, f: int|
            0 <= i < n && from <= f < to && mixes[i].channel < channels
                && #[trigger] in_range(mixes[i], f) implies exists|k: int|
            0 <= k < spans.len() && (#[trigger] spans[k]).mix == i && spans[k].start <= f
                < spans[k].end by {
            if i == n - 1 {
                assert(spans[spans.len() - 1].mix == i);
            } else {
                let k = choose|k: int|
                    0 <= k < front.len() && (#[trigger] front[k]).mix == i && front[k].start <= f
                        < front[k].end;
                assert(spans[k] == front[k]);
            }
        }
    }
}

/// Whether a mix is heard in a frame.
pub open spec fn in_range(m: TrackMix, f: int) -> bool {
    m.start <= f < m.end
}

/// Volumes up to this one are shown as silence: the bits of 0.0005.
pub const SILENT_BITS: u32 = 0x3a03_126f;

/// The label of a fader, given its level in decibels with sign and one
/// decimal.
pub fn volume_to_db_label(volume: Single, decibels: &str) -> (r: String)
    ensures
        r@ == if volume.at_most(Single { bits: SILENT_BITS }) {
            "-inf dB"@
        } else {
            decibels@ + " dB"@
        },
{
    if volume.le(Single { bits: SILENT_BITS }) {
        String::from_str("-inf dB")
    } else {
        let mut label = String::from_str(decibels);
        label.append(" dB");
        label
    }
}

/// The label of a pan, given how many percent it is off the center, and
/// whether to the left.
pub fn pan_label(percent: u32, left: bool) -> (r: String)
    ensures
        r@ == if percent == 0 {
            "C"@
        } else if left {
            "L"@ + text::decimal(percent as nat)
        } else {
            "R"@ + text::decimal(percent as nat)
        },
{
    if percent == 0 {
        String::from_str("C")
    } else {
        let mut label = String::from_str(if left { "L" } else { "R" });
        label.append(decimal_text(percent as u64).as_str());
        label
    }
}

}
