//! Songs as files: a stereo mix, or a multitrack file with only the tracks
//! that the song uses, each silent outside its own range. The functions make
//! the bytes of the files; writing them is up to the caller.

use crate::audio::AudioData;
use crate::flac;
use crate::flac::encode_flac;
use crate::formats;
use crate::formats::{Format, MixFormat, StemFormat, StemLayout, FLAC_MAX_CHANNELS};
use crate::mix;
use crate::mix::{song_mixes, TrackMix};
use crate::path;
use crate::path::{join_path, PathStyle};
use crate::project;
use crate::project::Song;
use crate::single;
use crate::single::{quantize, Single, ZERO_BITS};
use crate::text;
use crate::text::{chars_of, control, decimal_text, padded_text, trim};
use crate::wav;
use crate::wav::{encode_wav, WavSamples};
use vstd::prelude::*;
use vstd::string::*;

verus! {

/// A character as it may stand in a file name.
pub open spec fn clean_char(c: char) -> char {
    if c == '<' || c == '>' || c == ':' || c == '"' || c == '/' || c == '\\' || c == '|' || c == '?'
        || c == '*' || text::is_control(c) {
        '_'
    } else {
        c
    }
}

/// A text as a file name: characters that file systems refuse become `_`, and
/// there is no white space around it.
pub open spec fn sanitized(s: Seq<char>) -> Seq<char> {
    text::trimmed(s.map_values(|c: char| clean_char(c)))
}

/// A text as a file name.
pub fn sanitize_filename(s: &str) -> (r: String)
    ensures
        r@ == sanitized(s@),
{
    let chars = chars_of(s);
    let ghost clean = |c: char| clean_char(c);
    let mut out = String::new();
    let mut i: usize = 0;
    assert(out@ =~= chars@.map_values(clean).take(0));
    while i < chars.len()
        invariant
            i <= chars.len(),
            clean == |c: char| clean_char(c),
            out@ == chars@.map_values(clean).take(i as int),
        decreases chars.len() - i,
    {
        let c = chars[i];
        if c == '<' || c == '>' || c == ':' || c == '"' || c == '/' || c == '\\' || c == '|' || c
            == '?' || c == '*' || control(c) {
            out.push('_');
        } else {
            out.push(c);
        }
        i += 1;
        assert(out@ =~= chars@.map_values(clean).take(i as int));
    }
    assert(chars@.map_values(clean).take(chars@.len() as int) =~= s@.map_values(clean));
    trim(out.as_str())
}

/// `NN - Title`, with a placeholder where the song has no title.
pub open spec fn song_stem(number: nat, title: Seq<char>) -> Seq<char> {
    let name = if text::trimmed(title).len() == 0 {
        "Song "@ + text::padded(number, 2)
    } else {
        sanitized(title)
    };
    text::padded(number, 2) + " - "@ + name
}

/// `NN - Title`, with a placeholder where the song has no title.
pub fn song_file_stem(number: usize, song: &Song) -> (r: String)
    ensures
        r@ == song_stem(number as nat, song.title@),
{
    let name = if trim(song.title.as_str()).as_str().unicode_len() == 0 {
        let mut placeholder = String::from_str("Song ");
        placeholder.append(padded_text(number as u64, 2).as_str());
        placeholder
    } else {
        sanitize_filename(song.title.as_str())
    };
    let mut out = padded_text(number as u64, 2);
    out.append(" - ");
    out.append(name.as_str());
    out
}

/// The name of a track in file names.
pub open spec fn stem_track_name(ch: int, names: Seq<Seq<char>>) -> Seq<char> {
    if ch < names.len() && sanitized(names[ch]).len() > 0 {
        sanitized(names[ch])
    } else {
        "Track "@ + text::decimal((ch + 1) as nat)
    }
}

/// The file name of one track: `T03 - Bass.flac`.
pub open spec fn stem_name(ch: int, names: Seq<Seq<char>>, ext: Seq<char>) -> Seq<char> {
    "T"@ + text::padded((ch + 1) as nat, 2) + " - "@ + stem_track_name(ch, names) + "."@ + ext
}

/// The file name of one track.
pub fn stem_file_name(ch: usize, track_names: &[String], ext: &str) -> (r: String)
    requires
        ch < usize::MAX,
    ensures
        r@ == stem_name(ch as int, text::texts(track_names@), ext@),
{
    let mut name = if ch < track_names.len() {
        assert(text::texts(track_names@)[ch as int] == track_names@[ch as int]@);
        sanitize_filename(track_names[ch].as_str())
    } else {
        String::new()
    };
    if name.as_str().unicode_len() == 0 {
        name = String::from_str("Track ");
        name.append(decimal_text((ch + 1) as u64).as_str());
    }
    let mut out = String::from_str("T");
    out.append(padded_text((ch + 1) as u64, 2).as_str());
    out.append(" - ");
    out.append(name.as_str());
    out.append(".");
    out.append(ext);
    out
}

/// The end of a song, as far as the recording goes.
pub open spec fn song_end(audio: AudioData, song: project::SongView) -> usize {
    if song.end < audio.frame_count() {
        song.end
    } else {
        audio.frame_count() as usize
    }
}

/// The tracks of a song that the recording has, among the first `n` used.
pub open spec fn exported_below(audio: AudioData, used: Seq<usize>, n: nat) -> Seq<usize>
    decreases n,
{
    if n == 0 {
        Seq::empty()
    } else if used[n - 1] < audio.tracks@.len() {
        exported_below(audio, used, (n - 1) as nat).push(used[n - 1])
    } else {
        exported_below(audio, used, (n - 1) as nat)
    }
}

/// The tracks of a song that the recording has.
pub open spec fn exported(audio: AudioData, song: project::SongView) -> Seq<usize> {
    exported_below(audio, song.used(), song.used().len())
}

/// The sample of a track of a song at a frame of the tape: silence outside
/// the range of the track.
pub open spec fn song_sample(
    audio: AudioData,
    song: project::SongView,
    ch: int,
    frame: int,
) -> Single {
    match song.range(ch) {
        Some((s, e)) => if s <= frame < e {
            audio.tracks@[ch]@[frame]
        } else {
            single::zero()
        },
        None => single::zero(),
    }
}

/// The samples of some tracks of a song, interleaved.
pub open spec fn interleaved(
    audio: AudioData,
    song: project::SongView,
    channels: Seq<usize>,
) -> Seq<Single> {
    let frames = song_end(audio, song) - song.start;
    Seq::new(
        (frames * channels.len()) as nat,
        |i: int|
            song_sample(
                audio,
                song,
                channels[i % channels.len() as int] as int,
                song.start + i / channels.len() as int,
            ),
    )
}

/// Why there is nothing to render.
pub open spec fn nothing_used() -> Seq<char> {
    "The song has no active tracks"@
}

pub open spec fn empty_range() -> Seq<char> {
    "The song range is empty"@
}

fn exported_channels(audio: &AudioData, song: &Song) -> (r: Vec<usize>)
    ensures
        r@ == exported(*audio, song@),
{
    let used = song.active_channels();
    let n: usize = audio.channels();
    let mut out: Vec<usize> = Vec::new();
    let mut i: usize = 0;
    while i < used.len()
        invariant
            i <= used.len(),
            n == audio.tracks@.len(),
            out@ == exported_below(*audio, used@, i as nat),
        decreases used.len() - i,
    {
        if used[i] < n {
            out.push(used[i]);
        }
        i += 1;
    }
    out
}

proof fn lemma_exported_below(audio: AudioData, used: Seq<usize>, n: nat)
    requires
        n <= used.len(),
    ensures
        exported_below(audio, used, n).len() <= n,
        forall|i: int|
            0 <= i < exported_below(audio, used, n).len() ==> #[trigger] exported_below(
                audio,
                used,
                n,
            )[i] < audio.tracks@.len() && used.contains(exported_below(audio, used, n)[i]),
    decreases n,
{
    if n > 0 {
        lemma_exported_below(audio, used, (n - 1) as nat);
        let front = exported_below(audio, used, (n - 1) as nat);
        let all = exported_below(audio, used, n);
        assert forall|i: int| 0 <= i < all.len() implies #[trigger] all[i] < audio.tracks@.len()
            && used.contains(all[i]) by {
            if i < front.len() {
                assert(all[i] == front[i]);
            } else {
                assert(used[n - 1] == all[i]);
            }
        }
    }
}

/// The samples of one track of a song.
pub open spec fn stem_samples(audio: AudioData, song: project::SongView, ch: int) -> Seq<Single> {
    Seq::new(
        (song_end(audio, song) - song.start) as nat,
        |i: int| song_sample(audio, song, ch, song.start + i),
    )
}

fn sample_at(audio: &AudioData, range: Option<(usize, usize)>, end: usize, ch: usize, frame: usize) -> (r:
    Single)
    requires
        audio.well_formed(),
        ch < audio.tracks@.len(),
        frame < end <= audio.frame_count(),
    ensures
        r == match range {
            Some((s, e)) => if s <= frame < e {
                audio.tracks@[ch as int]@[frame as int]
            } else {
                single::zero()
            },
            None => single::zero(),
        },
{
    assert(audio.samples()[ch as int].len() == audio.frame_count());
    match range {
        Some((s, e)) => if s <= frame && frame < e {
            audio.tracks[ch][frame]
        } else {
            Single { bits: ZERO_BITS }
        },
        None => Single { bits: ZERO_BITS },
    }
}

/// One track of the song, silent outside its range; nothing where the song
/// does not use the track.
pub fn render_track_stem(audio: &AudioData, song: &Song, ch: usize) -> (r: Option<Vec<Single>>)
    requires
        audio.well_formed(),
    ensures
        r is Some <==> song_end(*audio, song@) > song.start && ch < audio.tracks@.len()
            && song@.uses(ch as int),
        r matches Some(v) ==> v@ == stem_samples(*audio, song@, ch as int),
{
    let frames: usize = audio.frames();
    let end: usize = if song.end < frames {
        song.end
    } else {
        frames
    };
    if end <= song.start || ch >= audio.channels() || ch >= song.tracks.len()
        || !song.tracks[ch].active {
        return None;
    }
    let range = song.track_range(ch);
    let mut out: Vec<Single> = Vec::new();
    let mut f: usize = song.start;
    while f < end
        invariant
            song.start <= f <= end == song_end(*audio, song@) <= audio.frame_count(),
            audio.well_formed(),
            ch < audio.tracks@.len(),
            range == song@.range(ch as int),
            out@ == stem_samples(*audio, song@, ch as int).take(f - song.start),
        decreases end - f,
    {
        let v = sample_at(audio, range, end, ch, f);
        out.push(v);
        f += 1;
        assert(out@ =~= stem_samples(*audio, song@, ch as int).take(f - song.start));
    }
    assert(out@ =~= stem_samples(*audio, song@, ch as int));
    Some(out)
}

/// The samples of the tracks that the song uses, interleaved in tape order,
/// and how many tracks these are.
pub fn render_multitrack(audio: &AudioData, song: &Song) -> (r: Result<
    (Vec<Single>, usize),
    String,
>)
    requires
        audio.well_formed(),
        (song_end(*audio, song@) - song.start) * exported(*audio, song@).len() <= usize::MAX,
    ensures
        exported(*audio, song@).len() == 0 ==> (r matches Err(e) && e@ == nothing_used()),
        exported(*audio, song@).len() > 0 && song_end(*audio, song@) <= song.start ==> (
        r matches Err(e) && e@ == empty_range()),
        exported(*audio, song@).len() > 0 && song_end(*audio, song@) > song.start ==> (
        r matches Ok((samples, n)) && n == exported(*audio, song@).len() && samples@
            == interleaved(*audio, song@, exported(*audio, song@))),
{
    let channels = exported_channels(audio, song);
    if channels.len() == 0 {
        return Err(String::from_str("The song has no active tracks"));
    }
    let frames: usize = audio.frames();
    let end: usize = if song.end < frames {
        song.end
    } else {
        frames
    };
    if end <= song.start {
        return Err(String::from_str("The song range is empty"));
    }
    let n: usize = channels.len();
    let ghost all = interleaved(*audio, song@, channels@);
    let mut ranges: Vec<Option<(usize, usize)>> = Vec::new();
    let mut c: usize = 0;
    while c < n
        invariant
            c <= n == channels@.len(),
            song.start <= song.end,
            ranges@.len() == c,
            forall|k: int| 0 <= k < c ==> #[trigger] ranges@[k] == song@.range(channels@[k] as int),
        decreases n - c,
    {
        ranges.push(song.track_range(channels[c]));
        c += 1;
    }
    proof {
        lemma_exported_below(*audio, song@.used(), song@.used().len());
    }
    let mut out: Vec<Single> = Vec::new();
    let mut f: usize = song.start;
    assert(out@ =~= all.take(0));
    while f < end
        invariant
            song.start <= f <= end == song_end(*audio, song@) <= audio.frame_count(),
            audio.well_formed(),
            n == channels@.len() == ranges@.len(),
            n > 0,
            all == interleaved(*audio, song@, channels@),
            forall|k: int| 0 <= k < n ==> #[trigger] channels@[k] < audio.tracks@.len(),
            forall|k: int| 0 <= k < n ==> #[trigger] ranges@[k] == song@.range(channels@[k] as int),
            out@ == all.take((f - song.start) * n),
        decreases end - f,
    {
        let ghost base = (f - song.start) * n;
        proof {
            assert(base + n == (f - song.start + 1) * n && 0 <= base && base + n <= (end
                - song.start) * n) by (nonlinear_arith)
                requires
                    base == (f - song.start) * n,
                    song.start <= f < end,
                    n > 0,
            ;
        }
        let mut slot: usize = 0;
        while slot < n
            invariant
                slot <= n == channels@.len() == ranges@.len(),
                n > 0,
                song.start <= f < end == song_end(*audio, song@) <= audio.frame_count(),
                audio.well_formed(),
                all == interleaved(*audio, song@, channels@),
                base == (f - song.start) * n,
                0 <= base,
                base + n <= all.len(),
                forall|k: int| 0 <= k < n ==> #[trigger] channels@[k] < audio.tracks@.len(),
                forall|k: int|
                    0 <= k < n ==> #[trigger] ranges@[k] == song@.range(channels@[k] as int),
                out@ == all.take(base + slot),
            decreases n - slot,
        {
            assert(channels@[slot as int] < audio.tracks@.len());
            let v = sample_at(audio, ranges[slot], end, channels[slot], f);
            out.push(v);
            proof {
                let i = base + slot;
                vstd::arithmetic::div_mod::lemma_fundamental_div_mod_converse(
                    i,
                    n as int,
                    f - song.start,
                    slot as int,
                );
                assert(all[i] == v);
                assert(out@ =~= all.take(i + 1));
            }
            slot += 1;
        }
        f += 1;
    }
    assert(out@ =~= all);
    Ok((out, n))
}

proof fn lemma_exported_complete(audio: AudioData, used: Seq<usize>, n: nat, i: int)
    requires
        0 <= i < n <= used.len(),
        used[i] < audio.tracks@.len(),
    ensures
        exported_below(audio, used, n).contains(used[i]),
    decreases n,
{
    let all = exported_below(audio, used, n);
    let front = exported_below(audio, used, (n - 1) as nat);
    if i == n - 1 {
        assert(all[all.len() - 1] == used[i]);
    } else {
        lemma_exported_complete(audio, used, (n - 1) as nat, i);
        let k = choose|k: int| 0 <= k < front.len() && front[k] == used[i];
        assert(all[k] == used[i]);
    }
}

proof fn lemma_exported_rising(audio: AudioData, used: Seq<usize>, n: nat)
    requires
        n <= used.len(),
        forall|i: int, j: int| 0 <= i < j < used.len() ==> used[i] < used[j],
    ensures
        forall|i: int, j: int|
            0 <= i < j < exported_below(audio, used, n).len() ==> exported_below(audio, used, n)[i]
                < exported_below(audio, used, n)[j],
        forall|i: int|
            0 <= i < exported_below(audio, used, n).len() && n < used.len() ==> #[trigger] exported_below(
                audio,
                used,
                n,
            )[i] < used[n as int],
    decreases n,
{
    if n > 0 {
        lemma_exported_rising(audio, used, (n - 1) as nat);
        let front = exported_below(audio, used, (n - 1) as nat);
        let all = exported_below(audio, used, n);
        assert forall|i: int, j: int| 0 <= i < j < all.len() implies all[i] < all[j] by {
            assert(all[i] == front[i]);
            assert(front[i] < used[n - 1]);
            if j < front.len() {
                assert(all[j] == front[j]);
            }
        }
        assert forall|i: int| 0 <= i < all.len() && n < used.len() implies #[trigger] all[i]
            < used[n as int] by {
            assert(used[n - 1] < used[n as int]);
            if i < front.len() {
                assert(all[i] == front[i]);
                assert(front[i] < used[n - 1]);
            }
        }
    }
}

/// A multitrack export holds only the tracks that the song uses, each once,
/// in tape order.
pub proof fn law_only_used_tracks_exported(audio: AudioData, song: project::SongView)
    requires
        song.tracks.len() <= usize::MAX,
    ensures
        forall|ch: usize|
            exported(audio, song).contains(ch) <==> song.uses(ch as int) && ch
                < audio.tracks@.len(),
        forall|i: int, j: int|
            0 <= i < j < exported(audio, song).len() ==> exported(audio, song)[i] < exported(
                audio,
                song,
            )[j],
{
    project::law_used_tracks(song);
    let used = song.used();
    let n = used.len();
    lemma_exported_below(audio, used, n);
    lemma_exported_rising(audio, used, n);
    let all = exported(audio, song);
    assert forall|ch: usize| all.contains(ch) <==> song.uses(ch as int) && ch
        < audio.tracks@.len() by {
        if all.contains(ch) {
            let i = choose|i: int| 0 <= i < all.len() && all[i] == ch;
            assert(used.contains(all[i]));
        }
        if song.uses(ch as int) && ch < audio.tracks@.len() {
            assert(used.contains(ch));
            let i = choose|i: int| 0 <= i < used.len() && used[i] == ch;
            lemma_exported_complete(audio, used, n, i);
        }
    }
}

/// Each track of a multitrack export carries the samples of its own range,
/// and is silent before and behind it: a track that joins late is silent
/// until then.
pub proof fn law_silent_outside_range(
    audio: AudioData,
    song: project::SongView,
    slot: int,
    f: int,
)
    requires
        0 <= slot < exported(audio, song).len(),
        0 <= f < song_end(audio, song) - song.start,
    ensures
        ({
            let channels = exported(audio, song);
            let n = channels.len() as int;
            let ch = channels[slot] as int;
            let v = interleaved(audio, song, channels)[f * n + slot];
            let inside = song.range(ch) matches Some((s, e)) && s <= song.start + f < e;
            &&& 0 <= f * n + slot < interleaved(audio, song, channels).len()
            &&& inside ==> v == audio.tracks@[ch]@[song.start + f]
            &&& !inside ==> v == single::zero()
        }),
{
    let channels = exported(audio, song);
    let n = channels.len() as int;
    let frames = song_end(audio, song) - song.start;
    vstd::arithmetic::div_mod::lemma_fundamental_div_mod_converse(f * n + slot, n, f, slot);
    assert(0 <= f * n + slot && f * n + slot < frames * n) by (nonlinear_arith)
        requires
            0 <= f < frames,
            0 <= slot < n,
    ;
}

/// The file of one track holds the same samples as the track has in the
/// interleaved file.
pub proof fn law_stem_is_track_of_multitrack(
    audio: AudioData,
    song: project::SongView,
    slot: int,
    f: int,
)
    requires
        0 <= slot < exported(audio, song).len(),
        0 <= f < song_end(audio, song) - song.start,
    ensures
        ({
            let channels = exported(audio, song);
            stem_samples(audio, song, channels[slot] as int)[f] == interleaved(
                audio,
                song,
                channels,
            )[f * channels.len() + slot]
        }),
{
    let channels = exported(audio, song);
    let n = channels.len() as int;
    let frames = song_end(audio, song) - song.start;
    vstd::arithmetic::div_mod::lemma_fundamental_div_mod_converse(f * n + slot, n, f, slot);
    assert(0 <= f * n + slot && f * n + slot < frames * n) by (nonlinear_arith)
        requires
            0 <= f < frames,
            0 <= slot < n,
    ;
}

/// The bit depth of an integer file: that of the recording, within 16 to 24.
pub open spec fn file_bits(bits_per_sample: u32) -> u32 {
    if bits_per_sample < 16 {
        16
    } else if bits_per_sample > 24 {
        24
    } else {
        bits_per_sample
    }
}

/// The samples as integers.
pub open spec fn integers(samples: Seq<Single>, bits: u32) -> Seq<i32> {
    samples.map_values(|s: Single| single::quantized(s, bits as int) as i32)
}

fn quantize_all(samples: &[Single], bits: u32) -> (r: Vec<i32>)
    requires
        16 <= bits <= 24,
    ensures
        r@ == integers(samples@, bits),
        forall|i: int|
            0 <= i < r@.len() ==> -single::full_scale(bits as int) <= #[trigger] r@[i]
                < single::full_scale(bits as int),
{
    let mut out: Vec<i32> = Vec::new();
    let mut i: usize = 0;
    while i < samples.len()
        invariant
            i <= samples@.len(),
            16 <= bits <= 24,
            out@ == integers(samples@, bits).take(i as int),
            forall|k: int|
                0 <= k < out@.len() ==> -single::full_scale(bits as int) <= #[trigger] out@[k]
                    < single::full_scale(bits as int),
        decreases samples.len() - i,
    {
        let v: i32 = quantize(samples[i], bits);
        out.push(v);
        i += 1;
        assert(out@ =~= integers(samples@, bits).take(i as int));
    }
    assert(integers(samples@, bits).take(samples@.len() as int) =~= integers(samples@, bits));
    out
}

/// The message for a song with more tracks than FLAC can hold.
pub open spec fn too_wide_message(channels: nat) -> Seq<char> {
    "FLAC supports at most 8 channels; this song uses "@ + text::decimal(channels)
        + ". Export as .wav instead."@
}

/// What the formats can state in their headers and hold.
pub open spec fn writable(
    format: Option<Format>,
    count: nat,
    channels: nat,
    bits: nat,
    sample_rate: nat,
) -> bool {
    match format {
        Some(Format::Wav) => {
            &&& wav::riff_len(count, channels, bits) <= usize::MAX
            &&& channels * wav::sample_width(bits) <= usize::MAX
            &&& sample_rate * wav::block_align(channels, bits) <= u32::MAX
        },
        Some(Format::Flac) => count < 0x800_0000_0000,
        None => true,
    }
}

/// The result of writing samples as integers, in the format that the
/// extension of the path names.
pub open spec fn audio_file(
    r: Result<Vec<u8>, String>,
    style: PathStyle,
    path: Seq<char>,
    samples: Seq<Single>,
    channels: usize,
    bits_per_sample: u32,
    sample_rate: u32,
) -> bool {
    let ext = path::extension(style, path);
    let bits = file_bits(bits_per_sample);
    let ints = integers(samples, bits);
    match formats::format_of_extension(ext) {
        None => r matches Err(e) && e@ == formats::unsupported_message(
            formats::debug_text(formats::unsupported_text(ext)),
        ),
        Some(Format::Flac) => if channels > FLAC_MAX_CHANNELS {
            r matches Err(e) && e@ == too_wide_message(channels as nat)
        } else {
            match r {
                Ok(b) => flac::flac_takes(channels as int, bits as int, sample_rate as int)
                    && flac::flac_file(
                    b@,
                    ints,
                    channels as int,
                    bits as int,
                    sample_rate as int,
                ),
                Err(e) => exists|x: flac::FlacError| e@ == #[trigger] flac::flac_error_text(x),
            }
        },
        Some(Format::Wav) => if wav::riff_len(ints.len(), channels as nat, bits as nat)
            <= u32::MAX {
            r matches Ok(b) && b@ == wav::wav_header(
                ints.len(),
                channels as nat,
                bits as nat,
                sample_rate as nat,
                false,
            ) + wav::int_data(ints, wav::sample_width(bits as nat))
        } else {
            r matches Err(e) && e@ == wav::too_long_message()
        },
    }
}

/// The bytes of a file with the samples as integers, at the bit depth of the
/// recording, in the format that the extension of the path names.
pub fn write_audio(
    style: PathStyle,
    path: &str,
    samples: &[Single],
    channels: usize,
    bits_per_sample: u32,
    sample_rate: u32,
) -> (r: Result<Vec<u8>, String>)
    requires
        writable(
            formats::format_of_extension(path::extension(style, path@)),
            samples@.len(),
            channels as nat,
            file_bits(bits_per_sample) as nat,
            sample_rate as nat,
        ),
    ensures
        audio_file(r, style, path@, samples@, channels, bits_per_sample, sample_rate),
{
    let format = match Format::from_path(style, path) {
        Ok(f) => f,
        Err(e) => {
            return Err(e);
        },
    };
    if format == Format::Flac && channels > FLAC_MAX_CHANNELS {
        let mut message = String::from_str("FLAC supports at most 8 channels; this song uses ");
        message.append(decimal_text(channels as u64).as_str());
        message.append(". Export as .wav instead.");
        return Err(message);
    }
    let bits: u32 = if bits_per_sample < 16 {
        16
    } else if bits_per_sample > 24 {
        24
    } else {
        bits_per_sample
    };
    let ints = quantize_all(samples, bits);
    match format {
        Format::Flac => encode_flac(ints.as_slice(), channels, bits as usize, sample_rate as usize),
        Format::Wav => encode_wav(&WavSamples::Int(ints.as_slice()), channels, bits, sample_rate),
    }
}

/// The result of writing samples as they are.
pub open spec fn float_file(
    r: Result<Vec<u8>, String>,
    samples: Seq<Single>,
    channels: usize,
    sample_rate: u32,
) -> bool {
    if wav::riff_len(samples.len(), channels as nat, 32) <= u32::MAX {
        r matches Ok(b) && b@ == wav::wav_header(
            samples.len(),
            channels as nat,
            32,
            sample_rate as nat,
            true,
        ) + wav::float_data(samples)
    } else {
        r matches Err(e) && e@ == wav::too_long_message()
    }
}

/// The bytes of a WAV file with the samples as they are, however large, so
/// hot mixes survive.
pub fn write_float_wav(samples: &[Single], channels: usize, sample_rate: u32) -> (r: Result<
    Vec<u8>,
    String,
>)
    requires
        writable(
            Some(Format::Wav),
            samples@.len(),
            channels as nat,
            32,
            sample_rate as nat,
        ),
    ensures
        float_file(r, samples@, channels, sample_rate),
{
    encode_wav(&WavSamples::Float(samples), channels, 32, sample_rate)
}

/// A file to be written, and what to say once it is.
#[derive(Debug)]
pub struct OutFile {
    pub path: String,
    pub bytes: Vec<u8>,
    pub message: String,
}

pub open spec fn bytes_of(r: Result<OutFile, String>) -> Result<Vec<u8>, String> {
    match r {
        Ok(f) => Ok(f.bytes),
        Err(e) => Err(e),
    }
}

/// Whether a song can be rendered and its tracks written.
pub open spec fn multitrack_writable(
    audio: AudioData,
    song: project::SongView,
    format: Option<Format>,
) -> bool {
    let n = exported(audio, song).len();
    let count = (song_end(audio, song) - song.start) * n;
    &&& audio.well_formed()
    &&& count <= usize::MAX
    &&& count >= 0 ==> writable(
        format,
        count as nat,
        n,
        file_bits(audio.bits_per_sample) as nat,
        audio.sample_rate as nat,
    )
}

pub open spec fn multitrack_message(path: Seq<char>, n: nat, length: Seq<char>) -> Seq<char> {
    "Wrote "@ + path + " ("@ + text::decimal(n) + " tracks, "@ + length + ")."@
}

/// The result of exporting the tracks of a song into one file.
pub open spec fn multitrack_done(
    r: Result<OutFile, String>,
    audio: AudioData,
    song: project::SongView,
    path: Seq<char>,
    length: Seq<char>,
) -> bool {
    let channels = exported(audio, song);
    if channels.len() == 0 {
        r matches Err(e) && e@ == nothing_used()
    } else if song_end(audio, song) <= song.start {
        r matches Err(e) && e@ == empty_range()
    } else {
        &&& audio_file(
            bytes_of(r),
            audio.style,
            path,
            interleaved(audio, song, channels),
            channels.len() as usize,
            audio.bits_per_sample,
            audio.sample_rate,
        )
        &&& r matches Ok(f) ==> f.path@ == path && f.message@ == multitrack_message(
            path,
            channels.len(),
            length,
        )
    }
}

/// Exports the tracks of a song into one file. `length` is the length of the
/// song as shown.
pub fn export_multitrack(audio: &AudioData, song: &Song, path: &str, length: &str) -> (r: Result<
    OutFile,
    String,
>)
    requires
        multitrack_writable(
            *audio,
            song@,
            formats::format_of_extension(path::extension(audio.style, path@)),
        ),
    ensures
        multitrack_done(r, *audio, song@, path@, length@),
{
    let (samples, channels): (Vec<Single>, usize) = match render_multitrack(audio, song) {
        Ok(v) => v,
        Err(e) => {
            return Err(e);
        },
    };
    assert(samples@.len() == (song_end(*audio, song@) - song.start) * exported(
        *audio,
        song@,
    ).len());
    match write_audio(
        audio.style,
        path,
        samples.as_slice(),
        channels,
        audio.bits_per_sample,
        audio.sample_rate,
    ) {
        Ok(bytes) => {
            let mut message = String::from_str("Wrote ");
            message.append(path);
            message.append(" (");
            message.append(decimal_text(channels as u64).as_str());
            message.append(" tracks, ");
            message.append(length);
            message.append(").");
            Ok(OutFile { path: String::from_str(path), bytes, message })
        },
        Err(e) => Err(e),
    }
}

/// What goes into the stereo mix of a song.
#[derive(Debug)]
pub struct MixPlan {
    pub format: Format,
    pub mixes: Vec<TrackMix>,
    pub start: usize,
    pub end: usize,
}

/// Plans the stereo mix of a song for a file.
pub fn render_mixdown(audio: &AudioData, song: &Song, path: &str) -> (r: Result<MixPlan, String>)
    ensures
        ({
            let ext = path::extension(audio.style, path@);
            match formats::format_of_extension(ext) {
                None => r matches Err(e) && e@ == formats::unsupported_message(
                    formats::debug_text(formats::unsupported_text(ext)),
                ),
                Some(format) => if song_end(*audio, song@) <= song.start {
                    r matches Err(e) && e@ == empty_range()
                } else if mix::mixes_of(song@).len() == 0 {
                    r matches Err(e) && e@ == "Nothing to mix: every track is inactive or muted"@
                } else {
                    r matches Ok(p) && p.format == format && p.mixes@ == mix::mixes_of(song@)
                        && p.start == song.start && p.end == song_end(*audio, song@)
                },
            }
        }),
{
    let format = match Format::from_path(audio.style, path) {
        Ok(f) => f,
        Err(e) => {
            return Err(e);
        },
    };
    let frames: usize = audio.frames();
    let end: usize = if song.end < frames {
        song.end
    } else {
        frames
    };
    if end <= song.start {
        return Err(String::from_str("The song range is empty"));
    }
    let mixes = song_mixes(song);
    if mixes.len() == 0 {
        return Err(String::from_str("Nothing to mix: every track is inactive or muted"));
    }
    Ok(MixPlan { format, mixes, start: song.start, end })
}

pub open spec fn float_message(path: Seq<char>, peak: Seq<char>) -> Seq<char> {
    "Wrote "@ + path + " (32-bit float, peak "@ + peak + " dB)."@
}

pub open spec fn normalized_message(path: Seq<char>, bits: nat, gain: Seq<char>) -> Seq<char> {
    "Wrote "@ + path + " ("@ + text::decimal(bits) + "-bit, normalized "@ + gain
        + " dB to a -1 dBFS peak)."@
}

/// The result of exporting a stereo mix.
pub open spec fn mixdown_done(
    r: Result<OutFile, String>,
    style: PathStyle,
    path: Seq<char>,
    format: Format,
    mode: MixFormat,
    samples: Seq<Single>,
    level: Seq<char>,
    sample_rate: u32,
) -> bool {
    match mode {
        MixFormat::Float32 => if format == Format::Flac {
            r matches Err(e) && e@
                == "FLAC cannot hold 32-bit float; pick a normalized mix format or a .wav name"@
        } else {
            &&& float_file(bytes_of(r), samples, 2, sample_rate)
            &&& r matches Ok(f) ==> f.path@ == path && f.message@ == float_message(path, level)
        },
        MixFormat::Normalized { bits, .. } => {
            &&& audio_file(bytes_of(r), style, path, samples, 2, bits, sample_rate)
            &&& r matches Ok(f) ==> f.path@ == path && f.message@ == normalized_message(
                path,
                bits as nat,
                level,
            )
        },
    }
}

/// Exports a stereo mix. The kind of file follows the extension, `mode`
/// decides between numbers as they are and integers. `samples` are the
/// interleaved samples of the mix, scaled already for a normalized file;
/// `level` is the peak, or the gain of a normalized file, in decibels.
pub fn export_mixdown(
    style: PathStyle,
    path: &str,
    format: Format,
    mode: MixFormat,
    samples: &[Single],
    level: &str,
    sample_rate: u32,
) -> (r: Result<OutFile, String>)
    requires
        mode is Float32 && format == Format::Wav ==> writable(
            Some(Format::Wav),
            samples@.len(),
            2,
            32,
            sample_rate as nat,
        ),
        mode matches MixFormat::Normalized { bits, .. } ==> writable(
            formats::format_of_extension(path::extension(style, path@)),
            samples@.len(),
            2,
            file_bits(bits) as nat,
            sample_rate as nat,
        ),
    ensures
        mixdown_done(r, style, path@, format, mode, samples@, level@, sample_rate),
{
    match mode {
        MixFormat::Float32 => {
            if format == Format::Flac {
                return Err(
                    String::from_str(
                        "FLAC cannot hold 32-bit float; pick a normalized mix format or a .wav name",
                    ),
                );
            }
            match write_float_wav(samples, 2, sample_rate) {
                Ok(bytes) => {
                    let mut message = String::from_str("Wrote ");
                    message.append(path);
                    message.append(" (32-bit float, peak ");
                    message.append(level);
                    message.append(" dB).");
                    Ok(OutFile { path: String::from_str(path), bytes, message })
                },
                Err(e) => Err(e),
            }
        },
        MixFormat::Normalized { bits, .. } => {
            match write_audio(style, path, samples, 2, bits, sample_rate) {
                Ok(bytes) => {
                    let mut message = String::from_str("Wrote ");
                    message.append(path);
                    message.append(" (");
                    message.append(decimal_text(bits as u64).as_str());
                    message.append("-bit, normalized ");
                    message.append(level);
                    message.append(" dB to a -1 dBFS peak).");
                    Ok(OutFile { path: String::from_str(path), bytes, message })
                },
                Err(e) => Err(e),
            }
        },
    }
}

/// The message for a failure at one song among all.
pub open spec fn song_error(number: nat, e: Seq<char>) -> Seq<char> {
    "Song "@ + text::decimal(number) + ": "@ + e
}

/// The message for a failure at one song among all.
pub fn song_failure(number: usize, e: &str) -> (r: String)
    ensures
        r@ == song_error(number as nat, e@),
{
    let mut message = String::from_str("Song ");
    message.append(decimal_text(number as u64).as_str());
    message.append(": ");
    message.append(e);
    message
}

/// Where the mix of a song goes: `NN - Title (mix).wav` or `.flac`.
pub open spec fn mix_path(
    style: PathStyle,
    dir: Seq<char>,
    number: nat,
    title: Seq<char>,
    mode: MixFormat,
) -> Seq<char> {
    path::joined(
        style,
        dir,
        song_stem(number, title) + " (mix)."@ + mode.container().extension_text(),
    )
}

/// How an export of all songs goes on.
pub enum Turn {
    /// With the next song.
    Song,
    /// All are exported.
    Done,
    /// It ends with this message.
    Failed(Seq<char>),
}

/// How an export of `n` songs goes on once the first `at` were tried, of which
/// the last one failed with this message or did not fail.
pub open spec fn turn(n: nat, at: nat, last: Option<Seq<char>>) -> Turn {
    match last {
        Some(e) => Turn::Failed(song_error(at, e)),
        None => if at < n {
            Turn::Song
        } else {
            Turn::Done
        },
    }
}

pub open spec fn failure_of(last: Result<(), String>) -> Option<Seq<char>> {
    match last {
        Ok(_) => None,
        Err(e) => Some(e@),
    }
}

/// How an export of all songs runs, where `outcomes` says of each song how it
/// fails, if it does: how many songs are tried in all, and how it ends.
pub open spec fn export_run(
    outcomes: Seq<Option<Seq<char>>>,
    at: nat,
    last: Option<Seq<char>>,
) -> (nat, Turn)
    decreases outcomes.len() + 1 - at,
{
    match turn(outcomes.len(), at, last) {
        Turn::Song => export_run(outcomes, at + 1, outcomes[at as int]),
        end => (at, end),
    }
}

proof fn lemma_export_run(outcomes: Seq<Option<Seq<char>>>, at: nat, k: nat)
    requires
        at <= k <= outcomes.len(),
        forall|i: int| at <= i < k ==> #[trigger] outcomes[i] is None,
    ensures
        export_run(outcomes, at, None) == export_run(outcomes, k, None),
    decreases k - at,
{
    if at < k {
        assert(outcomes[at as int] is None);
        lemma_export_run(outcomes, at + 1, k);
    }
}

/// An export of all songs is done if and only if no song fails. It stops at the
/// first song that fails, with the number of that song in its message: the
/// songs before it are exported, and those behind it are not tried.
pub proof fn law_export_stops_at_first_failure(outcomes: Seq<Option<Seq<char>>>, k: nat)
    requires
        k <= outcomes.len(),
        forall|i: int| 0 <= i < k ==> #[trigger] outcomes[i] is None,
    ensures
        k == outcomes.len() ==> export_run(outcomes, 0, None) == (k, Turn::Done),
        k < outcomes.len() ==> (outcomes[k as int] matches Some(e) ==> export_run(outcomes, 0, None)
            == ((k + 1) as nat, Turn::Failed(song_error(k + 1, e)))),
{
    lemma_export_run(outcomes, 0, k);
    reveal_with_fuel(export_run, 3);
}

/// The next step of exporting the mixes of all songs.
#[derive(Debug)]
pub enum MixStep {
    /// Export the mix of the next song to this path.
    Song(String),
    /// All are exported.
    Done(String),
    /// A song failed, and with it the export.
    Failed(String),
}

/// What to do once the mixes of the first `at` songs were exported into a
/// directory; `last` is how the last of them went.
pub fn export_all_mixdowns(
    style: PathStyle,
    songs: &[Song],
    dir: &str,
    mode: MixFormat,
    at: usize,
    last: Result<(), String>,
) -> (r: MixStep)
    requires
        at <= songs@.len(),
    ensures
        match turn(songs@.len(), at as nat, failure_of(last)) {
            Turn::Song => r matches MixStep::Song(p) && p@ == mix_path(
                style,
                dir@,
                (at + 1) as nat,
                songs@[at as int].title@,
                mode,
            ),
            Turn::Done => r matches MixStep::Done(t) && t@ == "Exported "@ + text::decimal(at as nat)
                + " mixes ("@ + mode.label_text() + ") to "@ + dir@ + "."@,
            Turn::Failed(e) => r matches MixStep::Failed(t) && t@ == e,
        },
{
    if let Err(e) = last {
        return MixStep::Failed(song_failure(at, e.as_str()));
    }
    if at < songs.len() {
        let mut name = song_file_stem(at + 1, &songs[at]);
        name.append(" (mix).");
        name.append(mode.extension());
        MixStep::Song(join_path(style, dir, name.as_str()))
    } else {
        let mut message = String::from_str("Exported ");
        message.append(decimal_text(at as u64).as_str());
        message.append(" mixes (");
        message.append(mode.label().as_str());
        message.append(") to ");
        message.append(dir);
        message.append(".");
        MixStep::Done(message)
    }
}

/// Files to be written one after the other, after a directory to be made, and
/// how it ends once all are written.
#[derive(Debug)]
pub struct Batch {
    pub make_dir: Option<String>,
    pub files: Vec<OutFile>,
    pub outcome: Result<String, String>,
}

/// Whether every used track can be rendered and written to a file of its own.
pub open spec fn stems_writable(audio: AudioData, song: project::SongView) -> bool {
    let bits = file_bits(audio.bits_per_sample) as nat;
    let count = song_end(audio, song) - song.start;
    &&& audio.well_formed()
    &&& song.tracks.len() < usize::MAX
    &&& count >= 0 ==> writable(
        Some(Format::Wav),
        count as nat,
        1,
        bits,
        audio.sample_rate as nat,
    )
    &&& count >= 0 ==> writable(
        Some(Format::Flac),
        count as nat,
        1,
        bits,
        audio.sample_rate as nat,
    )
}

/// The tracks of a song that get files of their own.
pub open spec fn stem_channels(audio: AudioData, song: project::SongView, n: nat) -> Seq<usize> {
    if song_end(audio, song) > song.start {
        exported_below(audio, song.used(), n)
    } else {
        Seq::empty()
    }
}

pub open spec fn stem_path(
    style: PathStyle,
    dir: Seq<char>,
    ch: int,
    names: Seq<Seq<char>>,
    format: Format,
) -> Seq<char> {
    path::joined(style, dir, stem_name(ch, names, format.extension_text()))
}

/// Whether the files are those of the tracks, in order.
pub open spec fn stem_files(
    files: Seq<OutFile>,
    audio: AudioData,
    song: project::SongView,
    names: Seq<Seq<char>>,
    dir: Seq<char>,
    format: Format,
    channels: Seq<usize>,
) -> bool {
    forall|k: int|
        0 <= k < files.len() ==> {
            let p = stem_path(audio.style, dir, channels[k] as int, names, format);
            &&& (#[trigger] files[k]).path@ == p
            &&& files[k].message@ == ""@
            &&& audio_file(
                Ok(files[k].bytes),
                audio.style,
                p,
                stem_samples(audio, song, channels[k] as int),
                1,
                audio.bits_per_sample,
                audio.sample_rate,
            )
        }
}

/// The result of exporting the tracks of a song into files of their own: a
/// file for each track, or as many as came before a failure.
pub open spec fn stems_done(
    b: Batch,
    audio: AudioData,
    song: project::SongView,
    names: Seq<Seq<char>>,
    dir: Seq<char>,
    format: Format,
) -> bool {
    if song.used().len() == 0 {
        &&& b.make_dir is None
        &&& b.files@.len() == 0
        &&& b.outcome matches Err(e) && e@ == nothing_used()
    } else {
        let channels = stem_channels(audio, song, song.used().len());
        &&& b.make_dir matches Some(d) && d@ == dir
        &&& b.files@.len() <= channels.len()
        &&& stem_files(b.files@, audio, song, names, dir, format, channels)
        &&& match b.outcome {
            Ok(t) => b.files@.len() == channels.len() && t@ == "Wrote "@ + text::decimal(
                channels.len(),
            ) + " track files to "@ + dir + "."@,
            Err(e) => b.files@.len() < channels.len() && {
                let ch = channels[b.files@.len() as int] as int;
                audio_file(
                    Err(e),
                    audio.style,
                    stem_path(audio.style, dir, ch, names, format),
                    stem_samples(audio, song, ch),
                    1,
                    audio.bits_per_sample,
                    audio.sample_rate,
                )
            },
        }
    }
}

proof fn lemma_exported_prefix(audio: AudioData, used: Seq<usize>, n: nat, m: nat)
    requires
        n <= m <= used.len(),
    ensures
        exported_below(audio, used, n).len() <= exported_below(audio, used, m).len(),
        forall|k: int|
            0 <= k < exported_below(audio, used, n).len() ==> #[trigger] exported_below(
                audio,
                used,
                n,
            )[k] == exported_below(audio, used, m)[k],
    decreases m - n,
{
    if n < m {
        lemma_exported_prefix(audio, used, n, (m - 1) as nat);
        let a = exported_below(audio, used, n);
        let b = exported_below(audio, used, (m - 1) as nat);
        let c = exported_below(audio, used, m);
        assert forall|k: int| 0 <= k < a.len() implies #[trigger] a[k] == c[k] by {
            assert(a[k] == b[k]);
        }
    }
}

/// Exports the tracks that a song uses into files of their own in a
/// directory.
pub fn export_stem_tracks(
    audio: &AudioData,
    song: &Song,
    track_names: &[String],
    dir: &str,
    format: Format,
) -> (r: Batch)
    requires
        stems_writable(*audio, song@),
    ensures
        stems_done(r, *audio, song@, text::texts(track_names@), dir@, format),
{
    let used = song.active_channels();
    let mut files: Vec<OutFile> = Vec::new();
    if used.len() == 0 {
        return Batch {
            make_dir: None,
            files,
            outcome: Err(String::from_str("The song has no active tracks")),
        };
    }
    let ghost names = text::texts(track_names@);
    let ghost all = stem_channels(*audio, song@, used@.len());
    let mut i: usize = 0;
    while i < used.len()
        invariant
            i <= used@.len(),
            used@ == song@.used(),
            names == text::texts(track_names@),
            stems_writable(*audio, song@),
            all == stem_channels(*audio, song@, used@.len()),
            files@.len() == stem_channels(*audio, song@, i as nat).len(),
            stem_files(
                files@,
                *audio,
                song@,
                names,
                dir@,
                format,
                stem_channels(*audio, song@, i as nat),
            ),
        decreases used.len() - i,
    {
        let ch: usize = used[i];
        let ghost so_far = stem_channels(*audio, song@, i as nat);
        let ghost next = stem_channels(*audio, song@, (i + 1) as nat);
        proof {
            project::law_used_tracks(song@);
            assert(song@.used().contains(ch)) by {
                assert(song@.used()[i as int] == ch);
            }
            lemma_exported_prefix(*audio, used@, i as nat, used@.len());
            lemma_exported_prefix(*audio, used@, (i + 1) as nat, used@.len());
        }
        if let Some(samples) = render_track_stem(audio, song, ch) {
            assert(next == so_far.push(ch));
            let name = stem_file_name(ch, track_names, format.extension());
            let path = join_path(audio.style, dir, name.as_str());
            match write_audio(
                audio.style,
                path.as_str(),
                samples.as_slice(),
                1,
                audio.bits_per_sample,
                audio.sample_rate,
            ) {
                Ok(bytes) => {
                    let ghost before = files@;
                    files.push(OutFile { path, bytes, message: String::from_str("") });
                    proof {
                        assert forall|k: int| 0 <= k < files@.len() implies ({
                            let p = stem_path(audio.style, dir@, next[k] as int, names, format);
                            &&& (#[trigger] files@[k]).path@ == p
                            &&& files@[k].message@ == ""@
                            &&& audio_file(
                                Ok(files@[k].bytes),
                                audio.style,
                                p,
                                stem_samples(*audio, song@, next[k] as int),
                                1,
                                audio.bits_per_sample,
                                audio.sample_rate,
                            )
                        }) by {
                            if k < before.len() {
                                assert(files@[k] == before[k]);
                                assert(next[k] == so_far[k]);
                            }
                        }
                    }
                },
                Err(e) => {
                    proof {
                        assert(all[files@.len() as int] == ch) by {
                            assert(next[files@.len() as int] == ch);
                        }
                        assert(stem_files(files@, *audio, song@, names, dir@, format, all)) by {
                            assert forall|k: int| 0 <= k < files@.len() implies all[k]
                                == so_far[k] by {
                                assert(exported_below(*audio, used@, i as nat)[k] == so_far[k]);
                            }
                        }
                    }
                    return Batch {
                        make_dir: Some(String::from_str(dir)),
                        files,
                        outcome: Err(e),
                    };
                },
            }
        } else {
            assert(next == so_far);
        }
        i += 1;
    }
    let mut message = String::from_str("Wrote ");
    message.append(decimal_text(files.len() as u64).as_str());
    message.append(" track files to ");
    message.append(dir);
    message.append(".");
    Batch { make_dir: Some(String::from_str(dir)), files, outcome: Ok(message) }
}

/// The format of the interleaved file of one song: interleaved FLAC falls
/// back to WAV for songs with more tracks than FLAC allows.
pub open spec fn fallback_format(song: project::SongView, stems: StemFormat) -> Format {
    if stems.format == Format::Flac && song.used().len() > FLAC_MAX_CHANNELS {
        Format::Wav
    } else {
        stems.format
    }
}

/// Where the interleaved file of a song goes.
pub open spec fn multitrack_path(
    style: PathStyle,
    dir: Seq<char>,
    number: nat,
    song: project::SongView,
    stems: StemFormat,
) -> Seq<char> {
    path::joined(
        style,
        dir,
        song_stem(number, song.title) + "."@ + fallback_format(song, stems).extension_text(),
    )
}

/// Whether a batch is what one song among all comes to.
pub open spec fn song_batch(
    b: Batch,
    audio: AudioData,
    song: project::SongView,
    number: nat,
    names: Seq<Seq<char>>,
    dir: Seq<char>,
    stems: StemFormat,
    length: Seq<char>,
) -> bool {
    match stems.layout {
        StemLayout::Interleaved => exists|r: Result<OutFile, String>|
            {
                &&& #[trigger] multitrack_done(
                    r,
                    audio,
                    song,
                    multitrack_path(audio.style, dir, number, song, stems),
                    length,
                )
                &&& b.make_dir is None
                &&& match r {
                    Ok(f) => b.files@ == seq![f] && (b.outcome matches Ok(t) && t@ == f.message@),
                    Err(e) => b.files@.len() == 0 && (b.outcome matches Err(t) && t@ == e@),
                }
            },
        StemLayout::Tracks => stems_done(
            b,
            audio,
            song,
            names,
            path::joined(audio.style, dir, song_stem(number, song.title)),
            stems.format,
        ),
    }
}

/// The next step of exporting the tracks of all songs.
#[derive(Debug)]
pub enum StemStep {
    /// Write these files of the next song.
    Song(Batch),
    /// All are exported.
    Done(String),
    /// A song failed, and with it the export.
    Failed(String),
}

/// What to do once the tracks of the first `at` songs were exported into a
/// directory; `last` is how the last of them went. For a song that is an
/// interleaved `NN - Title.flac`, or a directory `NN - Title` with a file per
/// track. `length` is the length of the song as shown.
pub fn export_all_multitrack(
    audio: &AudioData,
    songs: &[Song],
    track_names: &[String],
    dir: &str,
    stems: StemFormat,
    at: usize,
    length: &str,
    last: Result<(), String>,
) -> (r: StemStep)
    requires
        at <= songs@.len(),
        last is Ok && at < songs@.len() && stems.layout
            == StemLayout::Interleaved ==> multitrack_writable(
            *audio,
            songs@[at as int]@,
            formats::format_of_extension(
                path::extension(
                    audio.style,
                    multitrack_path(
                        audio.style,
                        dir@,
                        (at + 1) as nat,
                        songs@[at as int]@,
                        stems,
                    ),
                ),
            ),
        ),
        last is Ok && at < songs@.len() && stems.layout == StemLayout::Tracks ==> stems_writable(
            *audio,
            songs@[at as int]@,
        ),
    ensures
        match turn(songs@.len(), at as nat, failure_of(last)) {
            Turn::Song => r matches StemStep::Song(b) && song_batch(
                b,
                *audio,
                songs@[at as int]@,
                (at + 1) as nat,
                text::texts(track_names@),
                dir@,
                stems,
                length@,
            ),
            Turn::Done => r matches StemStep::Done(t) && t@ == "Exported "@ + text::decimal(
                at as nat,
            ) + " songs ("@ + stems.label_text() + ") to "@ + dir@ + "."@,
            Turn::Failed(e) => r matches StemStep::Failed(t) && t@ == e,
        },
{
    if let Err(e) = last {
        return StemStep::Failed(song_failure(at, e.as_str()));
    }
    if at == songs.len() {
        let mut message = String::from_str("Exported ");
        message.append(decimal_text(at as u64).as_str());
        message.append(" songs (");
        message.append(stems.label().as_str());
        message.append(") to ");
        message.append(dir);
        message.append(".");
        return StemStep::Done(message);
    }
    let song = &songs[at];
    let stem = song_file_stem(at + 1, song);
    match stems.layout {
        StemLayout::Interleaved => {
            let wide = song.active_channels().len() > FLAC_MAX_CHANNELS;
            let format = if stems.format == Format::Flac && wide {
                Format::Wav
            } else {
                stems.format
            };
            let mut name = stem;
            name.append(".");
            name.append(format.extension());
            let path = join_path(audio.style, dir, name.as_str());
            let r = export_multitrack(audio, song, path.as_str(), length);
            let ghost whole = r;
            match r {
                Ok(f) => {
                    let message = f.message.clone();
                    let mut files: Vec<OutFile> = Vec::new();
                    files.push(f);
                    let b = Batch { make_dir: None, files, outcome: Ok(message) };
                    proof {
                        assert(b.files@ =~= seq![f]);
                        assert(multitrack_done(
                            whole,
                            *audio,
                            song@,
                            multitrack_path(audio.style, dir@, (at + 1) as nat, song@, stems),
                            length@,
                        ));
                    }
                    StemStep::Song(b)
                },
                Err(e) => {
                    let b = Batch { make_dir: None, files: Vec::new(), outcome: Err(e) };
                    assert(multitrack_done(
                        whole,
                        *audio,
                        song@,
                        multitrack_path(audio.style, dir@, (at + 1) as nat, song@, stems),
                        length@,
                    ));
                    StemStep::Song(b)
                },
            }
        },
        StemLayout::Tracks => {
            let inner = join_path(audio.style, dir, stem.as_str());
            StemStep::Song(
                export_stem_tracks(audio, song, track_names, inner.as_str(), stems.format),
            )
        },
    }
}

/// What an exported file states of its format.
pub open spec fn states_format(
    b: Seq<u8>,
    format: Format,
    channels: int,
    bits: int,
    sample_rate: int,
) -> bool {
    match format {
        Format::Wav => {
            &&& wav::wav_channels(b) == channels
            &&& wav::wav_rate(b) == sample_rate
            &&& wav::wav_bits(b) == bits
        },
        Format::Flac => {
            let word = flac::be_value(b.subrange(18, 26)) as int;
            &&& (word / 0x200_0000_0000) % 8 + 1 == channels
            &&& word / 0x1000_0000_0000 == sample_rate
            &&& (word / 0x10_0000_0000) % 32 + 1 == bits
        },
    }
}

/// The fields of a number made of a rate, three bits, five bits and 36 bits.
proof fn lemma_flac_word(word: int, rate: int, c: int, d: int, n: int)
    requires
        0 <= rate,
        0 <= c < 8,
        0 <= d < 32,
        0 <= n < 0x10_0000_0000,
        word == rate * 0x1000_0000_0000 + c * 0x200_0000_0000 + d * 0x10_0000_0000 + n,
    ensures
        word / 0x1000_0000_0000 == rate,
        (word / 0x200_0000_0000) % 8 == c,
        (word / 0x10_0000_0000) % 32 == d,
{
    let k = 0x10_0000_0000;
    let above_d = rate * 8 + c;
    let above_n = rate * 256 + c * 32 + d;
    vstd::arithmetic::div_mod::lemma_fundamental_div_mod_converse(word, k, above_n, n);
    vstd::arithmetic::div_mod::lemma_fundamental_div_mod_converse(above_n, 32, above_d, d);
    vstd::arithmetic::div_mod::lemma_fundamental_div_mod_converse(
        word,
        0x200_0000_0000,
        above_d,
        d * k + n,
    );
    vstd::arithmetic::div_mod::lemma_fundamental_div_mod_converse(above_d, 8, rate, c);
    vstd::arithmetic::div_mod::lemma_fundamental_div_mod_converse(
        word,
        0x1000_0000_0000,
        rate,
        c * 0x200_0000_0000 + d * k + n,
    );
}

/// Exports keep the sample rate and the bit depth of the recording, 16 to 24
/// bits: the file states them, and how many channels it has.
pub proof fn law_export_keeps_format(
    b: Vec<u8>,
    style: PathStyle,
    path: Seq<char>,
    samples: Seq<Single>,
    channels: usize,
    bits_per_sample: u32,
    sample_rate: u32,
)
    requires
        audio_file(Ok(b), style, path, samples, channels, bits_per_sample, sample_rate),
        channels <= 0xffff,
    ensures
        formats::format_of_extension(path::extension(style, path)) matches Some(f) && states_format(
            b@,
            f,
            channels as int,
            file_bits(bits_per_sample) as int,
            sample_rate as int,
        ),
{
    let bits = file_bits(bits_per_sample);
    let ints = integers(samples, bits);
    let f = formats::format_of_extension(path::extension(style, path))->0;
    if f == Format::Wav {
        wav::law_wav_header_states_format(
            ints.len(),
            channels as nat,
            bits as nat,
            sample_rate as nat,
            false,
            wav::int_data(ints, wav::sample_width(bits as nat)),
        );
    } else {
        let c = channels as int - 1;
        let d = bits as int - 1;
        let n = (ints.len() as int / channels as int) % 0x10_0000_0000;
        let word = flac::be_value(b@.subrange(18, 26)) as int;
        assert(word == sample_rate * 0x1000_0000_0000 + c * 0x200_0000_0000 + d * 0x10_0000_0000
            + n);
        lemma_flac_word(word, sample_rate as int, c, d, n);
    }
}

/// A multitrack FLAC export states what it holds of the song: one channel per
/// used track, the frames of the song, the sample rate and the bit depth of the
/// recording, and the digest of the samples of the tracks, in tape order and
/// silent outside their ranges.
pub proof fn law_flac_multitrack_states_song(
    f: OutFile,
    audio: AudioData,
    song: project::SongView,
    path: Seq<char>,
    length: Seq<char>,
)
    requires
        multitrack_done(Ok(f), audio, song, path, length),
        formats::format_of_extension(path::extension(audio.style, path)) == Some(Format::Flac),
        exported(audio, song).len() <= usize::MAX,
    ensures
        ({
            let tracks = exported(audio, song);
            let bits = file_bits(audio.bits_per_sample);
            let frames = song_end(audio, song) - song.start;
            &&& 0 < tracks.len() <= FLAC_MAX_CHANNELS
            &&& states_format(
                f.bytes@,
                Format::Flac,
                tracks.len() as int,
                bits as int,
                audio.sample_rate as int,
            )
            &&& flac::be_value(f.bytes@.subrange(18, 26)) as int % 0x10_0000_0000 == frames
                % 0x10_0000_0000
            &&& f.bytes@.subrange(26, 42) == flac::flac_digest(
                integers(interleaved(audio, song, tracks), bits),
                tracks.len() as int,
                bits as int,
            )
        }),
{
    let tracks = exported(audio, song);
    let n = tracks.len() as int;
    let samples = interleaved(audio, song, tracks);
    let frames = song_end(audio, song) - song.start;
    law_export_keeps_format(
        f.bytes,
        audio.style,
        path,
        samples,
        tracks.len() as usize,
        audio.bits_per_sample,
        audio.sample_rate,
    );
    assert(frames * n >= 0 && (frames * n) / n == frames) by (nonlinear_arith)
        requires
            n > 0,
            frames >= 0,
    ;
    let c = n - 1;
    let d = file_bits(audio.bits_per_sample) as int - 1;
    let word = flac::be_value(f.bytes@.subrange(18, 26)) as int;
    assert(word == audio.sample_rate * 0x1000_0000_0000 + c * 0x200_0000_0000 + d * 0x10_0000_0000
        + frames % 0x10_0000_0000);
    vstd::arithmetic::div_mod::lemma_fundamental_div_mod_converse(
        word,
        0x10_0000_0000,
        audio.sample_rate * 256 + c * 32 + d,
        frames % 0x10_0000_0000,
    );
}

/// A WAV export is read back as it was written: with its channels, sample rate
/// and bit depth, 16 to 24 bits, and with every sample rounded to that depth,
/// no further off than one step. Silence comes back as silence.
pub proof fn law_wav_export_reads_back(
    b: Vec<u8>,
    style: PathStyle,
    path: Seq<char>,
    samples: Seq<Single>,
    channels: usize,
    bits_per_sample: u32,
    sample_rate: u32,
    i: int,
)
    requires
        audio_file(Ok(b), style, path, samples, channels, bits_per_sample, sample_rate),
        formats::format_of_extension(path::extension(style, path)) == Some(Format::Wav),
        channels <= 0xffff,
        0 <= i < samples.len(),
    ensures
        wav::wav_channels(b@) == channels,
        wav::wav_rate(b@) == sample_rate,
        wav::wav_bits(b@) == file_bits(bits_per_sample),
        wav::wav_count(b@) == samples.len(),
        wav::wav_sample(b@, i) == single::quantized(samples[i], file_bits(bits_per_sample) as int),
        !samples[i].is_nan() ==> single::within_one(
            samples[i],
            wav::wav_sample(b@, i),
            file_bits(bits_per_sample) as int,
        ),
        samples[i] == single::zero() ==> wav::wav_sample(b@, i) == 0,
{
    let bits = file_bits(bits_per_sample);
    let ints = integers(samples, bits);
    vstd::arithmetic::power2::lemma2_to64();
    lemma_depths(bits as int);
    single::law_quantized_in_range(samples[i], bits as int);
    assert(ints[i] == single::quantized(samples[i], bits as int));
    wav::law_wav_header_states_format(
        ints.len(),
        channels as nat,
        bits as nat,
        sample_rate as nat,
        false,
        wav::int_data(ints, wav::sample_width(bits as nat)),
    );
    wav::law_wav_gives_samples_back(
        ints,
        channels as nat,
        bits as nat,
        sample_rate as nat,
        i,
    );
    if !samples[i].is_nan() {
        single::law_quantized_is_close(samples[i], bits as int);
    }
    single::law_zero_is_silent(bits as int);
}

/// What full scale comes to at the depths of files.
proof fn lemma_depths(bits: int)
    requires
        16 <= bits <= 24,
    ensures
        bits == 16 ==> single::full_scale(bits) == 0x8000,
        0x8000 <= single::full_scale(bits) <= 0x80_0000,
{
    vstd::arithmetic::power2::lemma2_to64();
}

/// A recording loses nothing in a WAV export: where a sample of the song is an
/// integer sample of the bit depth, that integer is what the file holds.
pub proof fn law_wav_export_is_lossless(
    b: Vec<u8>,
    style: PathStyle,
    path: Seq<char>,
    samples: Seq<Single>,
    channels: usize,
    bits_per_sample: u32,
    sample_rate: u32,
    i: int,
    v: int,
)
    requires
        audio_file(Ok(b), style, path, samples, channels, bits_per_sample, sample_rate),
        formats::format_of_extension(path::extension(style, path)) == Some(Format::Wav),
        16 <= bits_per_sample <= 24,
        channels <= 0xffff,
        0 <= i < samples.len(),
        single::holds_sample(samples[i], v, bits_per_sample as int),
        -single::full_scale(bits_per_sample as int) <= v < single::full_scale(
            bits_per_sample as int,
        ),
    ensures
        wav::wav_sample(b@, i) == v,
{
    single::law_quantized_gives_sample_back(samples[i], v, bits_per_sample as int);
    law_wav_export_reads_back(b, style, path, samples, channels, bits_per_sample, sample_rate, i);
}

/// A multitrack WAV export is read back as the song is on the tape: one
/// channel per used track, in tape order, the frames of the song, and in each
/// the sample of the track, or silence outside its range.
pub proof fn law_multitrack_reads_back(
    f: OutFile,
    audio: AudioData,
    song: project::SongView,
    path: Seq<char>,
    length: Seq<char>,
    frame: int,
    slot: int,
)
    requires
        multitrack_done(Ok(f), audio, song, path, length),
        formats::format_of_extension(path::extension(audio.style, path)) == Some(Format::Wav),
        exported(audio, song).len() <= 0xffff,
        song.start <= frame < song_end(audio, song),
        0 <= slot < exported(audio, song).len(),
    ensures
        ({
            let n = exported(audio, song).len();
            let bits = file_bits(audio.bits_per_sample);
            &&& wav::wav_channels(f.bytes@) == n
            &&& wav::wav_rate(f.bytes@) == audio.sample_rate
            &&& wav::wav_bits(f.bytes@) == bits
            &&& wav::wav_count(f.bytes@) == (song_end(audio, song) - song.start) * n
            &&& wav::wav_sample(f.bytes@, (frame - song.start) * n + slot) == single::quantized(
                song_sample(audio, song, exported(audio, song)[slot] as int, frame),
                bits as int,
            )
        }),
{
    let channels = exported(audio, song);
    let n = channels.len() as int;
    let all = interleaved(audio, song, channels);
    let i = (frame - song.start) * n + slot;
    let frames = song_end(audio, song) - song.start;
    assert(0 <= i < frames * n) by (nonlinear_arith)
        requires
            i == (frame - song.start) * n + slot,
            song.start <= frame,
            frame - song.start < frames,
            0 <= slot < n,
    ;
    vstd::arithmetic::div_mod::lemma_fundamental_div_mod_converse(
        i,
        n,
        frame - song.start,
        slot,
    );
    assert(all[i] == song_sample(audio, song, channels[slot] as int, frame));
    law_wav_export_reads_back(
        f.bytes,
        audio.style,
        path,
        all,
        channels.len() as usize,
        audio.bits_per_sample,
        audio.sample_rate,
        i,
    );
}

proof fn lemma_trim_front_inside(s: Seq<char>, c: char)
    requires
        !s.contains(c),
    ensures
        !text::trim_front(s).contains(c),
    decreases s.len(),
{
    if s.len() > 0 && text::is_white(s.first()) {
        assert forall|i: int| 0 <= i < s.drop_first().len() implies s.drop_first()[i] != c by {
            assert(s.contains(s[i + 1]));
        }
        lemma_trim_front_inside(s.drop_first(), c);
    }
}

proof fn lemma_trim_back_inside(s: Seq<char>, c: char)
    requires
        !s.contains(c),
    ensures
        !text::trim_back(s).contains(c),
    decreases s.len(),
{
    if s.len() > 0 && text::is_white(s.last()) {
        assert forall|i: int| 0 <= i < s.drop_last().len() implies s.drop_last()[i] != c by {
            assert(s.contains(s[i]));
        }
        lemma_trim_back_inside(s.drop_last(), c);
    }
}

/// Whether a text holds nothing that parts a path: no separator, and no colon as
/// behind a drive.
pub open spec fn stays_inside(s: Seq<char>) -> bool {
    !s.contains('/') && !s.contains('\\') && !s.contains(':')
}

/// No title or name can lead out of the directory that is exported to, however
/// paths are written: a file name holds no separator and no drive.
pub proof fn law_file_names_stay_inside(s: Seq<char>)
    ensures
        stays_inside(sanitized(s)),
{
    let clean = s.map_values(|c: char| clean_char(c));
    assert forall|i: int| 0 <= i < clean.len() implies clean[i] != '/' && clean[i] != '\\'
        && clean[i] != ':' by {
        assert(clean[i] == clean_char(s[i]));
    }
    let front = text::trim_front(clean);
    lemma_trim_front_inside(clean, '/');
    lemma_trim_front_inside(clean, '\\');
    lemma_trim_front_inside(clean, ':');
    lemma_trim_back_inside(front, '/');
    lemma_trim_back_inside(front, '\\');
    lemma_trim_back_inside(front, ':');
}

proof fn lemma_digits_inside(n: nat, width: nat)
    ensures
        stays_inside(text::padded(n, width)),
        text::padded(n, width).len() > 0,
{
    text::lemma_padded(n, width);
    assert forall|i: int| 0 <= i < text::padded(n, width).len() implies text::is_digit(
        #[trigger] text::padded(n, width)[i],
    ) by {}
}

proof fn lemma_inside_add(a: Seq<char>, b: Seq<char>)
    requires
        stays_inside(a),
        stays_inside(b),
    ensures
        stays_inside(a + b),
{
    assert forall|i: int| 0 <= i < (a + b).len() implies a.contains(#[trigger] (a + b)[i])
        || b.contains((a + b)[i]) by {
        if i < a.len() {
            assert(a.contains(a[i]));
        } else {
            assert(b.contains(b[i - a.len()]));
        }
    }
}

proof fn lemma_stem_inside(number: nat, title: Seq<char>)
    ensures
        stays_inside(song_stem(number, title)),
        song_stem(number, title).len() > 0,
{
    let digits = text::padded(number, 2);
    lemma_digits_inside(number, 2);
    law_file_names_stay_inside(title);
    reveal_strlit(" - ");
    reveal_strlit("Song ");
    assert(stays_inside(" - "@));
    assert(stays_inside("Song "@));
    lemma_inside_add("Song "@, digits);
    lemma_inside_add(digits, " - "@);
    lemma_inside_add(digits + " - "@, "Song "@ + digits);
    lemma_inside_add(digits + " - "@, sanitized(title));
}

proof fn lemma_last_dot(a: Seq<char>, ext: Seq<char>)
    requires
        !ext.contains('.'),
    ensures
        path::last_dot(a.push('.') + ext) == a.len(),
    decreases ext.len(),
{
    let s = a.push('.') + ext;
    if ext.len() == 0 {
        assert(s =~= a.push('.'));
    } else {
        assert(ext.contains(ext[ext.len() - 1]));
        assert(s.last() == ext.last());
        assert forall|i: int| 0 <= i < ext.drop_last().len() implies ext.drop_last()[i] != '.' by {
            assert(ext.contains(ext[i]));
        }
        lemma_last_dot(a, ext.drop_last());
        assert(s.drop_last() =~= a.push('.') + ext.drop_last());
    }
}

/// A file in a directory whose name ends in the extension of a format is read
/// as that format.
proof fn lemma_named_format(style: PathStyle, dir: Seq<char>, stem: Seq<char>, f: Format)
    requires
        stem.len() > 0,
        stays_inside(stem),
        path::holds_name(style, dir, stem + "."@ + f.extension_text()),
    ensures
        formats::format_of_extension(
            path::extension(style, path::joined(style, dir, stem + "."@ + f.extension_text())),
        ) == Some(f),
{
    reveal_strlit(".");
    reveal_strlit("wav");
    reveal_strlit("flac");
    let ext = f.extension_text();
    let name = stem + "."@ + ext;
    assert(stays_inside("."@));
    assert(stays_inside(ext) && !ext.contains('.'));
    lemma_inside_add(stem, "."@);
    lemma_inside_add(stem + "."@, ext);
    assert(name.len() > 2);
    assert forall|i: int| 0 <= i < name.len() implies !path::is_separator(
        style,
        #[trigger] name[i],
    ) && name[i] != ':' by {
        assert(name.contains(name[i]));
    }
    path::law_joined_components(style, dir, name);
    let p = path::joined(style, dir, name);
    assert(path::body(style, p).last() == name);
    assert(path::file_name(style, p) == Some(name));
    assert(name =~= stem.push('.') + ext);
    lemma_last_dot(stem, ext);
    assert(name.skip(stem.len() as int + 1) =~= ext);
    formats::law_extension_names_format(f);
}

/// The files of single tracks are of the format asked for.
pub proof fn law_stem_files_fit_format(
    style: PathStyle,
    dir: Seq<char>,
    ch: nat,
    names: Seq<Seq<char>>,
    format: Format,
)
    requires
        path::holds_name(style, dir, stem_name(ch as int, names, format.extension_text())),
    ensures
        formats::format_of_extension(
            path::extension(style, stem_path(style, dir, ch as int, names, format)),
        ) == Some(format),
{
    let digits = text::padded(ch + 1, 2);
    lemma_digits_inside(ch + 1, 2);
    lemma_digits_inside(ch + 1, 0);
    assert(text::padded(ch + 1, 0) == text::decimal(ch + 1));
    reveal_strlit("T");
    reveal_strlit(" - ");
    reveal_strlit("Track ");
    assert(stays_inside("T"@));
    assert(stays_inside(" - "@));
    assert(stays_inside("Track "@));
    lemma_inside_add("Track "@, text::decimal(ch + 1));
    if ch < names.len() {
        law_file_names_stay_inside(names[ch as int]);
    }
    let name = stem_track_name(ch as int, names);
    lemma_inside_add("T"@, digits);
    lemma_inside_add("T"@ + digits, " - "@);
    lemma_inside_add("T"@ + digits + " - "@, name);
    lemma_named_format(style, dir, "T"@ + digits + " - "@ + name, format);
}

/// Exporting all songs interleaved never meets the limit of FLAC: the file of
/// a song with more tracks than FLAC allows is a WAV file.
pub proof fn law_wide_songs_become_wav(
    style: PathStyle,
    dir: Seq<char>,
    number: nat,
    song: project::SongView,
    stems: StemFormat,
)
    requires
        path::holds_name(
            style,
            dir,
            song_stem(number, song.title) + "."@ + fallback_format(song, stems).extension_text(),
        ),
    ensures
        formats::format_of_extension(
            path::extension(style, multitrack_path(style, dir, number, song, stems)),
        ) == Some(fallback_format(song, stems)),
        song.used().len() > FLAC_MAX_CHANNELS ==> fallback_format(song, stems) == Format::Wav,
{
    lemma_stem_inside(number, song.title);
    lemma_named_format(style, dir, song_stem(number, song.title), fallback_format(song, stems));
}

/// The files of all mixes are of the kind that the chosen format needs, so a
/// float mix never meets FLAC there.
pub proof fn law_mix_files_fit_format(
    style: PathStyle,
    dir: Seq<char>,
    number: nat,
    title: Seq<char>,
    mode: MixFormat,
)
    requires
        path::holds_name(
            style,
            dir,
            song_stem(number, title) + " (mix)."@ + mode.container().extension_text(),
        ),
    ensures
        formats::format_of_extension(
            path::extension(style, mix_path(style, dir, number, title, mode)),
        ) == Some(mode.container()),
{
    lemma_stem_inside(number, title);
    reveal_strlit(" (mix).");
    reveal_strlit(" (mix)");
    reveal_strlit(".");
    let stem = song_stem(number, title) + " (mix)"@;
    assert(stays_inside(" (mix)"@));
    lemma_inside_add(song_stem(number, title), " (mix)"@);
    assert(" (mix)."@ =~= " (mix)"@ + "."@);
    assert(song_stem(number, title) + " (mix)."@ + mode.container().extension_text() =~= stem
        + "."@ + mode.container().extension_text());
    lemma_named_format(style, dir, stem, mode.container());
}

// ----- what exports hold --------------------------------------------------

/// A multitrack export has one channel for each track that the song uses and the
/// recording has, in tape order, and no other.
pub proof fn law_export_has_used_tracks(audio: AudioData, song: project::SongView)
    requires
        song.tracks.len() <= usize::MAX,
    ensures
        forall|k: int|
            0 <= k < exported(audio, song).len() ==> {
                let ch = #[trigger] exported(audio, song)[k];
                ch < song.tracks.len() && song.tracks[ch as int].active && ch < audio.tracks@.len()
            },
        forall|j: int, k: int|
            0 <= j < k < exported(audio, song).len() ==> (#[trigger] exported(audio, song)[j]) < (
            #[trigger] exported(audio, song)[k]),
        forall|ch: int|
            0 <= ch < song.tracks.len() && (#[trigger] song.tracks[ch]).active && ch
                < audio.tracks@.len() ==> exists|k: int|
                0 <= k < exported(audio, song).len() && (#[trigger] exported(audio, song)[k]) == ch,
{
    law_only_used_tracks_exported(audio, song);
    let all = exported(audio, song);
    assert forall|k: int| 0 <= k < all.len() implies ({
        let ch = #[trigger] all[k];
        ch < song.tracks.len() && song.tracks[ch as int].active && ch < audio.tracks@.len()
    }) by {
        assert(all.contains(all[k]));
        assert(song.uses(all[k] as int));
    }
    assert forall|ch: int|
        0 <= ch < song.tracks.len() && (#[trigger] song.tracks[ch]).active && ch
            < audio.tracks@.len() implies exists|k: int|
        0 <= k < all.len() && (#[trigger] all[k]) == ch by {
        assert(song.uses(ch as usize as int));
        assert(all.contains(ch as usize));
        let k = choose|k: int| 0 <= k < all.len() && all[k] == ch as usize;
        assert(all[k] == ch);
    }
}

/// Whether a sample is the one of a track of a song at a frame of the tape: that of
/// the recording in the frames `[from, to)`, and silence elsewhere.
pub open spec fn is_sample(
    v: Single,
    audio: AudioData,
    ch: int,
    frame: int,
    from: usize,
    to: usize,
) -> bool {
    &&& from <= frame < to ==> v == audio.tracks@[ch]@[frame]
    &&& !(from <= frame < to) ==> v == (Single { bits: 0 })
}

/// A multitrack export runs from the start of the song to its end, or to the end of
/// the recording if that comes first. In each frame each channel has the sample of
/// its own track at this frame of the tape where the track is heard, and silence
/// before it joins and after it has left.
pub proof fn law_export_holds_song(
    audio: AudioData,
    song: project::SongView,
    slot: int,
    f: int,
    from: usize,
    to: usize,
)
    requires
        audio.tracks@.len() > 0,
        song.tracks.len() <= usize::MAX,
        song.start < song.end,
        song.start < audio.tracks@[0]@.len() <= usize::MAX,
        0 <= slot < exported(audio, song).len(),
        mix::runs(song, exported(audio, song)[slot] as int, from, to),
        0 <= f < song.end - song.start,
        f < audio.tracks@[0]@.len() - song.start,
    ensures
        ({
            let channels = exported(audio, song);
            let n = channels.len() as int;
            let all = interleaved(audio, song, channels);
            let ch = channels[slot] as int;
            &&& song.end <= audio.tracks@[0]@.len() ==> all.len() == (song.end - song.start) * n
            &&& audio.tracks@[0]@.len() < song.end ==> all.len() == (audio.tracks@[0]@.len()
                - song.start) * n
            &&& 0 <= f * n + slot < all.len()
            &&& is_sample(all[f * n + slot], audio, ch, song.start + f, from, to)
            &&& is_sample(stem_samples(audio, song, ch)[f], audio, ch, song.start + f, from, to)
            &&& stem_samples(audio, song, ch).len() * n == all.len()
        }),
{
    let channels = exported(audio, song);
    let n = channels.len() as int;
    law_export_has_used_tracks(audio, song);
    let ch = channels[slot] as int;
    assert(song.tracks[ch].active);
    let frames = song_end(audio, song) - song.start;
    vstd::arithmetic::div_mod::lemma_fundamental_div_mod_converse(f * n + slot, n, f, slot);
    assert(0 <= f * n + slot && f * n + slot < frames * n) by (nonlinear_arith)
        requires
            0 <= f < frames,
            0 <= slot < n,
    ;
    assert(frames * n >= 0) by (nonlinear_arith)
        requires
            0 <= f < frames,
            0 <= slot < n,
    ;
}

/// Integer files have the bit depth of the recording where that is from 16 to 24
/// bits, and else the nearest of these.
pub proof fn law_depth_is_kept(bits: u32)
    ensures
        16 <= bits <= 24 ==> file_bits(bits) == bits,
        bits < 16 ==> file_bits(bits) == 16,
        bits > 24 ==> file_bits(bits) == 24,
{
}

/// A 32-bit float mix is read back bit for bit, two channels at the sample rate
/// asked for: nothing is scaled and nothing clips.
pub proof fn law_float_mix_reads_back(
    f: OutFile,
    style: PathStyle,
    path: Seq<char>,
    samples: Seq<Single>,
    level: Seq<char>,
    sample_rate: u32,
    i: int,
)
    requires
        mixdown_done(
            Ok(f),
            style,
            path,
            Format::Wav,
            MixFormat::Float32,
            samples,
            level,
            sample_rate,
        ),
        0 <= i < samples.len(),
    ensures
        f.path@ == path,
        wav::wav_channels(f.bytes@) == 2,
        wav::wav_rate(f.bytes@) == sample_rate,
        wav::wav_bits(f.bytes@) == 32,
        wav::wav_count(f.bytes@) == samples.len(),
        wav::wav_number(f.bytes@, i) == samples[i].bits,
{
    wav::law_wav_header_states_format(
        samples.len(),
        2,
        32,
        sample_rate as nat,
        true,
        wav::float_data(samples),
    );
    wav::law_float_wav_gives_numbers_back(samples, 2, sample_rate as nat, i);
}

/// A normalized mix in a WAV file is read back with the bit depth that was chosen,
/// two channels, and every sample rounded to that depth.
pub proof fn law_normalized_mix_reads_back(
    f: OutFile,
    style: PathStyle,
    path: Seq<char>,
    bits: u32,
    samples: Seq<Single>,
    level: Seq<char>,
    sample_rate: u32,
    i: int,
)
    requires
        mixdown_done(
            Ok(f),
            style,
            path,
            Format::Wav,
            MixFormat::Normalized { format: Format::Wav, bits },
            samples,
            level,
            sample_rate,
        ),
        formats::format_of_extension(path::extension(style, path)) == Some(Format::Wav),
        16 <= bits <= 24,
        0 <= i < samples.len(),
    ensures
        f.path@ == path,
        wav::wav_channels(f.bytes@) == 2,
        wav::wav_rate(f.bytes@) == sample_rate,
        wav::wav_bits(f.bytes@) == bits,
        wav::wav_count(f.bytes@) == samples.len(),
        wav::wav_sample(f.bytes@, i) == single::quantized(samples[i], bits as int),
{
    law_wav_export_reads_back(f.bytes, style, path, samples, 2, bits, sample_rate, i);
}

/// FLAC holds integers of at most eight channels: a float mix, or more channels, is
/// refused and no file comes of it.
pub proof fn law_flac_limits(
    r: Result<OutFile, String>,
    b: Result<Vec<u8>, String>,
    style: PathStyle,
    path: Seq<char>,
    samples: Seq<Single>,
    channels: usize,
    bits: u32,
    level: Seq<char>,
    sample_rate: u32,
)
    requires
        path::extension(style, path) matches Some(e) && text::ascii_lower(e) == "flac"@,
        audio_file(b, style, path, samples, channels, bits, sample_rate),
        channels > 8,
        mixdown_done(
            r,
            style,
            path,
            Format::Flac,
            MixFormat::Float32,
            samples,
            level,
            sample_rate,
        ),
    ensures
        r is Err,
        b is Err,
{
}

// ----- file names ---------------------------------------------------------

/// Whether a character may stand in a file name on every system.
pub open spec fn allowed(c: char) -> bool {
    &&& c != '<' && c != '>' && c != ':' && c != '"' && c != '/' && c != '\\' && c != '|' && c != '?'
        && c != '*'
    &&& ' ' <= c < '\u{7f}' || '\u{9f}' < c
}

/// A name becomes a file name by replacing, one for one, each character that a file
/// system refuses by `_`, and by leaving out white space at both ends, and in no
/// other way: `n` characters are kept, from the place `from` on.
pub proof fn law_name_is_cleaned(s: Seq<char>) -> (from: int)
    ensures
        ({
            let n = sanitized(s).len();
            &&& 0 <= from <= from + n <= s.len()
            &&& forall|i: int|
                0 <= i < n ==> {
                    let c = #[trigger] sanitized(s)[i];
                    &&& allowed(s[from + i]) ==> c == s[from + i]
                    &&& !allowed(s[from + i]) ==> c == '_'
                }
            &&& n > 0 ==> !text::is_white(sanitized(s)[0]) && !text::is_white(
                sanitized(s)[n as int - 1],
            )
            &&& forall|i: int|
                (0 <= i < from || from + n <= i < s.len()) ==> allowed(#[trigger] s[i])
                    && text::is_white(s[i])
        }),
{
    let clean = s.map_values(|c: char| clean_char(c));
    let k = text::lemma_trim_front_from(clean);
    let front = text::trim_front(clean);
    let m = text::lemma_trim_back_to(front);
    let out = sanitized(s);
    assert(out == front.take(m));
    assert forall|i: int|
        (0 <= i < k || k + m <= i < s.len()) implies allowed(#[trigger] s[i]) && text::is_white(
        s[i],
    ) by {
        assert(clean[i] == clean_char(s[i]));
        if i < k {
            assert(text::is_white(clean[i]));
        } else {
            assert(front[i - k] == clean[i]);
            assert(text::is_white(front[i - k]));
        }
    }
    if out.len() > 0 {
        assert(out[0] == clean[k]);
    }
    k
}

/// The files and directories of songs are named by the number of the song, with two
/// digits at least, and its title as a file name; a song whose title is blank is
/// called after its number.
pub proof fn law_song_files_are_named(number: nat, title: Seq<char>)
    ensures
        text::trimmed(title).len() > 0 ==> song_stem(number, title) == text::padded(number, 2)
            + " - "@ + sanitized(title),
        text::trimmed(title).len() == 0 ==> song_stem(number, title) == text::padded(number, 2)
            + " - "@ + ("Song "@ + text::padded(number, 2)),
{
}

/// The file of a track is named by the number of the track on the tape, from one on
/// and with two digits at least, its name as a file name, and the extension; a track
/// without a name is called after its number.
pub proof fn law_track_files_are_named(ch: nat, names: Seq<Seq<char>>, ext: Seq<char>)
    ensures
        ch < names.len() && sanitized(names[ch as int]).len() > 0 ==> stem_name(
            ch as int,
            names,
            ext,
        ) == "T"@ + text::padded(ch + 1, 2) + " - "@ + sanitized(names[ch as int]) + "."@ + ext,
        ch >= names.len() || sanitized(names[ch as int]).len() == 0 ==> stem_name(
            ch as int,
            names,
            ext,
        ) == "T"@ + text::padded(ch + 1, 2) + " - "@ + ("Track "@ + text::decimal(ch + 1)) + "."@
            + ext,
{
}

/// Two numbers in front of texts that start with a blank: the numbers are the same
/// where the whole is.
proof fn lemma_numbers_differ(m: nat, n: nat, x: Seq<char>, y: Seq<char>)
    requires
        m != n,
        x.len() > 0 && x[0] == ' ',
        y.len() > 0 && y[0] == ' ',
    ensures
        text::padded(m, 2) + x != text::padded(n, 2) + y,
{
    let a = text::padded(m, 2);
    let b = text::padded(n, 2);
    text::lemma_padded(m, 2);
    text::lemma_padded(n, 2);
    if a + x == b + y {
        if a.len() < b.len() {
            assert((a + x)[a.len() as int] == ' ');
            assert((b + y)[a.len() as int] == b[a.len() as int]);
            assert(text::is_digit(b[a.len() as int]));
        } else if b.len() < a.len() {
            assert((b + y)[b.len() as int] == ' ');
            assert((a + x)[b.len() as int] == a[b.len() as int]);
            assert(text::is_digit(a[b.len() as int]));
        } else {
            assert forall|i: int| 0 <= i < a.len() implies a[i] == b[i] by {
                assert((a + x)[i] == (b + y)[i]);
            }
            assert(a =~= b);
        }
    }
}

/// No two songs of a list, and no two tracks of a song, share a file: their names
/// differ, whatever the titles and names are.
pub proof fn law_export_names_differ(
    m: nat,
    n: nat,
    a: Seq<char>,
    b: Seq<char>,
    names: Seq<Seq<char>>,
    ext: Seq<char>,
    tail: Seq<char>,
)
    requires
        m != n,
    ensures
        song_stem(m, a) + tail != song_stem(n, b) + tail,
        song_stem(m, a) != song_stem(n, b),
        stem_name(m as int, names, ext) != stem_name(n as int, names, ext),
{
    reveal_strlit(" - ");
    reveal_strlit("T");
    let x = song_stem(m, a).skip(text::padded(m, 2).len() as int);
    let y = song_stem(n, b).skip(text::padded(n, 2).len() as int);
    assert(song_stem(m, a) =~= text::padded(m, 2) + x);
    assert(song_stem(n, b) =~= text::padded(n, 2) + y);
    assert(song_stem(m, a) + tail =~= text::padded(m, 2) + (x + tail));
    assert(song_stem(n, b) + tail =~= text::padded(n, 2) + (y + tail));
    assert(x[0] == " - "@[0]);
    assert(y[0] == " - "@[0]);
    lemma_numbers_differ(m, n, x, y);
    lemma_numbers_differ(m, n, x + tail, y + tail);
    let u = " - "@ + stem_track_name(m as int, names) + "."@ + ext;
    let v = " - "@ + stem_track_name(n as int, names) + "."@ + ext;
    assert(u[0] == " - "@[0]);
    assert(v[0] == " - "@[0]);
    lemma_numbers_differ(m + 1, n + 1, u, v);
    let p = stem_name(m as int, names, ext);
    let q = stem_name(n as int, names, ext);
    assert(p =~= "T"@ + (text::padded(m + 1, 2) + u));
    assert(q =~= "T"@ + (text::padded(n + 1, 2) + v));
    assert(p.skip(1) =~= text::padded(m + 1, 2) + u);
    assert(q.skip(1) =~= text::padded(n + 1, 2) + v);
}

/// The mix of a song, its interleaved tracks and the files of single tracks go into
/// the chosen directory, under the name of the song or track: with `(mix)` and the
/// extension of the chosen mix format, or with that of the chosen format of stems,
/// which for one file of more than eight tracks is WAV.
pub proof fn law_exports_go_into_directory(
    style: PathStyle,
    dir: Seq<char>,
    number: nat,
    song: project::SongView,
    mode: MixFormat,
    stems: StemFormat,
    ch: nat,
    names: Seq<Seq<char>>,
)
    ensures
        mode is Float32 ==> mix_path(style, dir, number, song.title, mode) == path::joined(
            style,
            dir,
            song_stem(number, song.title) + " (mix)."@ + "wav"@,
        ),
        mode matches MixFormat::Normalized { format, .. } ==> mix_path(
            style,
            dir,
            number,
            song.title,
            mode,
        ) == path::joined(
            style,
            dir,
            song_stem(number, song.title) + " (mix)."@ + format.extension_text(),
        ),
        stems.format == Format::Flac && song.used().len() <= 8 ==> multitrack_path(
            style,
            dir,
            number,
            song,
            stems,
        ) == path::joined(style, dir, song_stem(number, song.title) + "."@ + "flac"@),
        stems.format == Format::Wav || song.used().len() > 8 ==> multitrack_path(
            style,
            dir,
            number,
            song,
            stems,
        ) == path::joined(style, dir, song_stem(number, song.title) + "."@ + "wav"@),
        stem_path(style, dir, ch as int, names, stems.format) == path::joined(
            style,
            dir,
            stem_name(ch as int, names, stems.format.extension_text()),
        ),
        Format::Wav.extension_text() == "wav"@,
        Format::Flac.extension_text() == "flac"@,
{
}

/// Tracks exported one by one come as one file per used track that the recording
/// has, in tape order, named after the track and with its samples.
pub proof fn law_tracks_come_one_by_one(
    b: Batch,
    audio: AudioData,
    song: project::SongView,
    names: Seq<Seq<char>>,
    dir: Seq<char>,
    format: Format,
    k: int,
)
    requires
        stems_done(b, audio, song, names, dir, format),
        b.outcome is Ok,
        audio.tracks@.len() > 0,
        song.start < song.end,
        song.start < audio.tracks@[0]@.len() <= usize::MAX,
        0 <= k < b.files@.len(),
    ensures
        b.make_dir matches Some(d) && d@ == dir,
        b.files@.len() == exported(audio, song).len(),
        ({
            let ch = exported(audio, song)[k] as int;
            &&& b.files@[k].path@ == path::joined(
                audio.style,
                dir,
                stem_name(ch, names, format.extension_text()),
            )
            &&& audio_file(
                Ok(b.files@[k].bytes),
                audio.style,
                b.files@[k].path@,
                stem_samples(audio, song, ch),
                1,
                audio.bits_per_sample,
                audio.sample_rate,
            )
        }),
{
}

/// A failure among all songs is told with the number of the song.
pub proof fn law_failure_names_song(number: nat, e: Seq<char>)
    ensures
        song_error(number, e) == "Song "@ + text::decimal(number) + ": "@ + e,
{
}

/// A normalized mix states two channels, the bit depth that was chosen and the sample
/// rate of the recording, whichever format it is written in; a FLAC file of it states
/// the digest of the samples, each rounded to that depth.
pub proof fn law_normalized_mix_states_format(
    f: OutFile,
    style: PathStyle,
    path: Seq<char>,
    format: Format,
    bits: u32,
    samples: Seq<Single>,
    level: Seq<char>,
    sample_rate: u32,
)
    requires
        mixdown_done(
            Ok(f),
            style,
            path,
            format,
            MixFormat::Normalized { format, bits },
            samples,
            level,
            sample_rate,
        ),
        16 <= bits <= 24,
    ensures
        f.path@ == path,
        formats::format_of_extension(path::extension(style, path)) matches Some(g) && states_format(
            f.bytes@,
            g,
            2,
            bits as int,
            sample_rate as int,
        ),
        formats::format_of_extension(path::extension(style, path)) == Some(Format::Flac)
            ==> f.bytes@.subrange(26, 42) == flac::flac_digest(
            Seq::new(samples.len(), |i: int| single::quantized(samples[i], bits as int) as i32),
            2,
            bits as int,
        ),
{
    law_export_keeps_format(f.bytes, style, path, samples, 2, bits, sample_rate);
    assert(integers(samples, bits) =~= Seq::new(
        samples.len(),
        |i: int| single::quantized(samples[i], bits as int) as i32,
    ));
}

}
