//! A decoded recording, held in memory as one run of samples per track, and
//! how it comes together from the packets of a file or from several files.

use crate::path;
use crate::path::{path_file_name, path_file_stem, path_parent, PathStyle};
use crate::project;
use crate::project::default_track_names;
use crate::single;
use crate::single::{Single, LARGEST_BITS, SMALLEST_BITS, ZERO_BITS};
use crate::text;
use crate::text::decimal_text;
use vstd::prelude::*;
use vstd::string::*;

verus! {

/// How many frames go into one peak of the waveform.
pub const PEAK_BIN: usize = 512;

/// A decoded recording.
#[derive(Debug)]
pub struct AudioData {
    /// How the paths of the files are written.
    pub style: PathStyle,
    /// The first file.
    pub path: String,
    /// The files in track order.
    pub sources: Vec<String>,
    /// How many tracks each file has.
    pub source_channels: Vec<usize>,
    /// The samples of each track.
    pub tracks: Vec<Vec<Single>>,
    pub sample_rate: u32,
    pub bits_per_sample: u32,
    /// For each track the least and the greatest sample of every
    /// `PEAK_BIN` frames.
    pub peaks: Vec<Vec<(Single, Single)>>,
}

pub open spec fn tracks_view(v: Seq<Vec<Single>>) -> Seq<Seq<Single>> {
    v.map_values(|t: Vec<Single>| t@)
}

pub open spec fn peaks_view(v: Seq<Vec<(Single, Single)>>) -> Seq<Seq<(Single, Single)>> {
    v.map_values(|t: Vec<(Single, Single)>| t@)
}

/// The least of the samples, the largest number where there is none.
pub open spec fn lowest(s: Seq<Single>) -> Single
    decreases s.len(),
{
    if s.len() == 0 {
        Single { bits: LARGEST_BITS }
    } else {
        lowest(s.drop_last()).lesser(s.last())
    }
}

/// The greatest of the samples, the most negative number where there is none.
pub open spec fn highest(s: Seq<Single>) -> Single
    decreases s.len(),
{
    if s.len() == 0 {
        Single { bits: SMALLEST_BITS }
    } else {
        highest(s.drop_last()).greater(s.last())
    }
}

pub open spec fn bin_end(len: int, k: int) -> int {
    if (k + 1) * PEAK_BIN < len {
        (k + 1) * PEAK_BIN
    } else {
        len
    }
}

/// The samples that go into the peak `k`.
pub open spec fn bin(track: Seq<Single>, k: int) -> Seq<Single> {
    track.subrange(k * PEAK_BIN, bin_end(track.len() as int, k))
}

pub open spec fn bin_count(len: nat) -> nat {
    ((len + PEAK_BIN - 1) / PEAK_BIN as int) as nat
}

/// The peaks of a track.
pub open spec fn peaks_of(track: Seq<Single>) -> Seq<(Single, Single)> {
    Seq::new(bin_count(track.len()), |k: int| (lowest(bin(track, k)), highest(bin(track, k))))
}

pub open spec fn total(counts: Seq<usize>) -> nat
    decreases counts.len(),
{
    if counts.len() == 0 {
        0
    } else {
        total(counts.drop_last()) + counts.last() as nat
    }
}

proof fn lemma_total_adds(a: Seq<usize>, b: Seq<usize>)
    ensures
        total(a + b) == total(a) + total(b),
    decreases b.len(),
{
    if b.len() == 0 {
        assert(a + b =~= a);
    } else {
        assert((a + b).drop_last() =~= a + b.drop_last());
        lemma_total_adds(a, b.drop_last());
    }
}

/// Whether all tracks have the same length.
pub open spec fn level(tracks: Seq<Seq<Single>>, frames: int) -> bool {
    forall|c: int| 0 <= c < tracks.len() ==> (#[trigger] tracks[c]).len() == frames
}

impl AudioData {
    pub open spec fn samples(self) -> Seq<Seq<Single>> {
        tracks_view(self.tracks@)
    }

    pub open spec fn frame_count(self) -> nat {
        if self.tracks@.len() > 0 {
            self.tracks@[0]@.len()
        } else {
            0
        }
    }

    /// All tracks are of one length, the peaks are those of the samples, and
    /// every track comes from one of the files.
    pub open spec fn well_formed(self) -> bool {
        &&& self.sources@.len() == self.source_channels@.len()
        &&& total(self.source_channels@) == self.tracks@.len()
        &&& level(self.samples(), self.frame_count() as int)
        &&& peaks_view(self.peaks@) == self.samples().map_values(
            |t: Seq<Single>| peaks_of(t),
        )
    }

    pub fn channels(&self) -> (r: usize)
        ensures
            r == self.tracks@.len(),
    {
        self.tracks.len()
    }

    pub fn frames(&self) -> (r: usize)
        ensures
            r == self.frame_count(),
    {
        if self.tracks.len() > 0 {
            self.tracks[0].len()
        } else {
            0
        }
    }

    /// What to call the recording: the name of its file, or how many files
    /// there are and in which directory.
    pub open spec fn name_text(self) -> Seq<char> {
        if self.sources@.len() > 1 {
            let dir = match path::parent(self.style, self.path@) {
                Some(d) => path::file_name(self.style, d),
                None => None,
            };
            text::decimal(self.sources@.len()) + " files in "@ + project::or_tape(dir)
        } else {
            match path::file_name(self.style, self.path@) {
                Some(n) => n,
                None => ""@,
            }
        }
    }

    /// What to call the recording.
    pub fn file_name(&self) -> (r: String)
        ensures
            r@ == self.name_text(),
    {
        if self.sources.len() > 1 {
            let mut name = decimal_text(self.sources.len() as u64);
            name.append(" files in ");
            let dir = match path_parent(self.style, self.path.as_str()) {
                Some(d) => path_file_name(self.style, d.as_str()),
                None => None,
            };
            match dir {
                Some(d) => name.append(d.as_str()),
                None => name.append("tape"),
            }
            name
        } else {
            match path_file_name(self.style, self.path.as_str()) {
                Some(n) => n,
                None => String::from_str(""),
            }
        }
    }

    /// The name of the first file without its extension.
    pub fn file_stem(&self) -> (r: String)
        ensures
            r@ == project::or_tape(path::file_stem(self.style, self.path@)),
    {
        match path_file_stem(self.style, self.path.as_str()) {
            Some(s) => s,
            None => String::from_str("tape"),
        }
    }
}

pub proof fn lemma_not_nan(s: Seq<Single>)
    ensures
        !lowest(s).is_nan(),
        !highest(s).is_nan(),
        lowest(s).rank() <= (Single { bits: LARGEST_BITS }).rank(),
        highest(s).rank() >= (Single { bits: SMALLEST_BITS }).rank(),
    decreases s.len(),
{
    if s.len() > 0 {
        lemma_not_nan(s.drop_last());
    } else {
        assert(0x7f7f_ffffint / 0x80_0000 % 0x100 != 255);
        assert(0xff7f_ffffint / 0x80_0000 % 0x100 != 255);
    }
}

/// The extremes of two runs of samples together are those of their extremes.
pub proof fn lemma_extremes_join(a: Seq<Single>, b: Seq<Single>)
    ensures
        lowest(a + b) == lowest(a).lesser(lowest(b)),
        highest(a + b) == highest(a).greater(highest(b)),
    decreases b.len(),
{
    lemma_not_nan(a);
    lemma_not_nan(b);
    if b.len() == 0 {
        assert(a + b =~= a);
    } else {
        assert((a + b).drop_last() =~= a + b.drop_last());
        lemma_extremes_join(a, b.drop_last());
        lemma_not_nan(b.drop_last());
    }
}

/// The least and the greatest of the samples `[begin, end)`.
pub fn extremes(track: &Vec<Single>, begin: usize, end: usize) -> (r: (Single, Single))
    requires
        begin <= end <= track@.len(),
    ensures
        r == (lowest(track@.subrange(begin as int, end as int)), highest(
            track@.subrange(begin as int, end as int),
        )),
{
    let mut lo = Single { bits: LARGEST_BITS };
    let mut hi = Single { bits: SMALLEST_BITS };
    let mut i: usize = begin;
    while i < end
        invariant
            begin <= i <= end <= track@.len(),
            lo == lowest(track@.subrange(begin as int, i as int)),
            hi == highest(track@.subrange(begin as int, i as int)),
        decreases end - i,
    {
        proof {
            let s = track@.subrange(begin as int, i as int);
            lemma_not_nan(s);
            let longer = track@.subrange(begin as int, i + 1);
            assert(longer.drop_last() == s);
            assert(longer.last() == track@[i as int]);
        }
        lo = lo.min(track[i]);
        hi = hi.max(track[i]);
        i += 1;
    }
    (lo, hi)
}

/// The peaks of a track.
pub fn compute_peaks(track: &Vec<Single>) -> (r: Vec<(Single, Single)>)
    ensures
        r@ == peaks_of(track@),
{
    let n: usize = track.len();
    let mut out: Vec<(Single, Single)> = Vec::new();
    let mut begin: usize = 0;
    while begin < n
        invariant
            n == track@.len(),
            begin <= n,
            out@.len() <= bin_count(n as nat),
            begin == if out@.len() * PEAK_BIN < n { out@.len() * PEAK_BIN } else { n as int },
            out@ == peaks_of(track@).take(out@.len() as int),
        decreases n - begin,
    {
        let end: usize = if n - begin > PEAK_BIN {
            begin + PEAK_BIN
        } else {
            n
        };
        let ghost k = out@.len() as int;
        assert(begin == k * PEAK_BIN);
        assert(end == bin_end(n as int, k));
        let peak = extremes(track, begin, end);
        proof {
            assert(bin(track@, k) == track@.subrange(begin as int, end as int));
            assert(k < bin_count(n as nat));
            assert(peaks_of(track@).take(k + 1) =~= peaks_of(track@).take(k).push(peak));
        }
        out.push(peak);
        begin = end;
    }
    assert(out@.len() == bin_count(n as nat));
    assert(peaks_of(track@).take(out@.len() as int) =~= peaks_of(track@));
    out
}

/// The peaks of every track.
fn all_peaks(tracks: &Vec<Vec<Single>>) -> (r: Vec<Vec<(Single, Single)>>)
    ensures
        peaks_view(r@) == tracks_view(tracks@).map_values(|t: Seq<Single>| peaks_of(t)),
{
    let mut out: Vec<Vec<(Single, Single)>> = Vec::new();
    let mut i: usize = 0;
    while i < tracks.len()
        invariant
            i <= tracks.len(),
            out@.len() == i,
            forall|k: int| 0 <= k < i ==> (#[trigger] out@[k])@ == peaks_of(tracks@[k]@),
        decreases tracks.len() - i,
    {
        let p = compute_peaks(&tracks[i]);
        out.push(p);
        i += 1;
    }
    assert(peaks_view(out@) =~= tracks_view(tracks@).map_values(|t: Seq<Single>| peaks_of(t)));
    out
}

/// Why a file could not be loaded, with the words of what failed.
#[derive(Debug)]
pub enum LoadError {
    Open(String),
    Unsupported(String),
    NoTrack,
    NoSampleRate,
    NoChannels,
    Decoder(String),
    Read(String),
    Decode(String),
    Empty,
}

impl LoadError {
    pub open spec fn message(self) -> Seq<char> {
        match self {
            LoadError::Open(e) => "Cannot open file: "@ + e@,
            LoadError::Unsupported(e) => "Unsupported format: "@ + e@,
            LoadError::NoTrack => "No audio track found"@,
            LoadError::NoSampleRate => "Unknown sample rate"@,
            LoadError::NoChannels => "Unknown channel layout"@,
            LoadError::Decoder(e) => "Cannot create decoder: "@ + e@,
            LoadError::Read(e) => "Read error: "@ + e@,
            LoadError::Decode(e) => "Decode error: "@ + e@,
            LoadError::Empty => "File contains no audio"@,
        }
    }

    pub fn text(&self) -> (r: String)
        ensures
            r@ == self.message(),
    {
        let (head, words) = match self {
            LoadError::Open(e) => ("Cannot open file: ", e),
            LoadError::Unsupported(e) => ("Unsupported format: ", e),
            LoadError::NoTrack => return String::from_str("No audio track found"),
            LoadError::NoSampleRate => return String::from_str("Unknown sample rate"),
            LoadError::NoChannels => return String::from_str("Unknown channel layout"),
            LoadError::Decoder(e) => ("Cannot create decoder: ", e),
            LoadError::Read(e) => ("Read error: ", e),
            LoadError::Decode(e) => ("Decode error: ", e),
            LoadError::Empty => return String::from_str("File contains no audio"),
        };
        let mut message = String::from_str(head);
        message.append(words.as_str());
        message
    }
}

/// What is known of the samples of a file before the first is decoded.
#[derive(Clone, Copy, Debug, PartialEq, Eq, Structural)]
pub struct StreamFormat {
    pub sample_rate: u32,
    pub channels: usize,
    pub bits_per_sample: u32,
}

/// The bit depth of a recording: as the container states it, else that of its
/// floating-point samples, else 16 bits.
pub open spec fn depth_of(bits_per_sample: Option<u32>, float_bits: Option<u32>) -> u32 {
    match (bits_per_sample, float_bits) {
        (Some(b), _) => b,
        (None, Some(b)) => b,
        (None, None) => 16,
    }
}

/// What a container says of its default track: nothing without a track. The
/// sample rate and the channels have to be there. `float_bits` is the width of
/// floating-point samples, for which containers state no bit depth.
pub fn stream_format(
    has_track: bool,
    sample_rate: Option<u32>,
    channels: Option<usize>,
    bits_per_sample: Option<u32>,
    float_bits: Option<u32>,
) -> (r: Result<StreamFormat, LoadError>)
    ensures
        !has_track ==> r == Err::<StreamFormat, LoadError>(LoadError::NoTrack),
        has_track && sample_rate is None ==> r == Err::<StreamFormat, LoadError>(
            LoadError::NoSampleRate,
        ),
        has_track && sample_rate is Some && channels is None ==> r == Err::<
            StreamFormat,
            LoadError,
        >(LoadError::NoChannels),
        has_track && sample_rate is Some && channels is Some ==> r == Ok::<
            StreamFormat,
            LoadError,
        >(
            StreamFormat {
                sample_rate: sample_rate->0,
                channels: channels->0,
                bits_per_sample: depth_of(bits_per_sample, float_bits),
            },
        ),
{
    if !has_track {
        return Err(LoadError::NoTrack);
    }
    let rate: u32 = match sample_rate {
        Some(v) => v,
        None => return Err(LoadError::NoSampleRate),
    };
    let count: usize = match channels {
        Some(v) => v,
        None => return Err(LoadError::NoChannels),
    };
    let bits: u32 = match (bits_per_sample, float_bits) {
        (Some(b), _) => b,
        (None, Some(b)) => b,
        (None, None) => 16,
    };
    Ok(StreamFormat { sample_rate: rate, channels: count, bits_per_sample: bits })
}

/// What came of asking for the next packet of a file.
#[derive(Debug)]
pub enum ReadOutcome {
    /// A packet of the track with this number.
    Packet(u32),
    EndOfFile,
    /// The tracks of the file change here.
    ResetRequired,
    Failed(String),
}

/// What to do then.
#[derive(Debug)]
pub enum ReadStep {
    Decode,
    Skip,
    Finish,
    Fail(LoadError),
}

/// What came of decoding a packet.
#[derive(Debug)]
pub enum DecodeOutcome {
    /// Interleaved samples.
    Samples(Vec<Single>),
    /// The packet is malformed; the next may be sound.
    Malformed,
    Failed(String),
}

/// The samples of one channel among interleaved ones; an incomplete frame at
/// the end does not count.
pub open spec fn channel_of(samples: Seq<Single>, channels: int, c: int) -> Seq<Single> {
    Seq::new((samples.len() as int / channels) as nat, |f: int| samples[f * channels + c])
}

/// A file being decoded.
#[derive(Debug)]
pub struct Decoding {
    pub track_id: u32,
    pub format: StreamFormat,
    pub tracks: Vec<Vec<Single>>,
}

impl Decoding {
    pub open spec fn samples(self) -> Seq<Seq<Single>> {
        tracks_view(self.tracks@)
    }

    pub open spec fn frame_count(self) -> nat {
        if self.tracks@.len() > 0 {
            self.tracks@[0]@.len()
        } else {
            0
        }
    }

    /// There is one run of samples per channel, all of one length.
    pub open spec fn well_formed(self) -> bool {
        &&& self.tracks@.len() == self.format.channels
        &&& level(self.samples(), self.frame_count() as int)
    }

    /// Starts to decode the track with the number `track_id`.
    pub fn new(track_id: u32, format: StreamFormat) -> (r: Self)
        ensures
            r.well_formed(),
            r.track_id == track_id,
            r.format == format,
            r.samples() == Seq::new(format.channels as nat, |c: int| Seq::<Single>::empty()),
    {
        let mut tracks: Vec<Vec<Single>> = Vec::new();
        let mut c: usize = 0;
        while c < format.channels
            invariant
                c <= format.channels,
                tracks@.len() == c,
                forall|k: int| 0 <= k < c ==> (#[trigger] tracks@[k])@.len() == 0,
            decreases format.channels - c,
        {
            tracks.push(Vec::new());
            c += 1;
        }
        let r = Decoding { track_id, format, tracks };
        proof {
            let empty = Seq::new(format.channels as nat, |c: int| Seq::<Single>::empty());
            assert forall|k: int| 0 <= k < c implies r.samples()[k] == empty[k] by {
                assert(r.samples()[k] == tracks@[k]@);
                assert(tracks@[k]@ =~= Seq::<Single>::empty());
            }
            assert(r.samples() =~= empty);
        }
        r
    }

    /// What to do with the next packet: packets of other tracks are passed
    /// over, and the recording ends with the file or where its tracks change.
    pub fn after_read(&self, outcome: ReadOutcome) -> (r: ReadStep)
        ensures
            r == match outcome {
                ReadOutcome::Packet(id) => if id == self.track_id {
                    ReadStep::Decode
                } else {
                    ReadStep::Skip
                },
                ReadOutcome::EndOfFile => ReadStep::Finish,
                ReadOutcome::ResetRequired => ReadStep::Finish,
                ReadOutcome::Failed(e) => ReadStep::Fail(LoadError::Read(e)),
            },
    {
        match outcome {
            ReadOutcome::Packet(id) => if id == self.track_id {
                ReadStep::Decode
            } else {
                ReadStep::Skip
            },
            ReadOutcome::EndOfFile => ReadStep::Finish,
            ReadOutcome::ResetRequired => ReadStep::Finish,
            ReadOutcome::Failed(e) => ReadStep::Fail(LoadError::Read(e)),
        }
    }

    /// Takes in a decoded packet. A malformed packet is passed over.
    pub fn after_decode(&mut self, outcome: DecodeOutcome) -> (r: Result<(), LoadError>)
        requires
            old(self).well_formed(),
            outcome is Samples ==> old(self).format.channels > 0,
        ensures
            final(self).well_formed(),
            final(self).track_id == old(self).track_id,
            final(self).format == old(self).format,
            outcome matches DecodeOutcome::Failed(e) ==> r == Err::<(), LoadError>(
                LoadError::Decode(e),
            ),
            !(outcome is Failed) ==> r is Ok,
            !(outcome is Samples) ==> final(self).samples() == old(self).samples(),
            outcome matches DecodeOutcome::Samples(s) ==> {
                &&& final(self).samples().len() == old(self).samples().len()
                &&& forall|c: int|
                    0 <= c < final(self).samples().len() ==> #[trigger] final(self).samples()[c]
                        == old(self).samples()[c] + channel_of(
                        s@,
                        old(self).format.channels as int,
                        c,
                    )
            },
    {
        match outcome {
            DecodeOutcome::Samples(s) => {
                self.append_frames(&s);
                Ok(())
            },
            DecodeOutcome::Malformed => Ok(()),
            DecodeOutcome::Failed(e) => Err(LoadError::Decode(e)),
        }
    }

    fn append_frames(&mut self, s: &Vec<Single>)
        requires
            old(self).well_formed(),
            old(self).format.channels > 0,
        ensures
            final(self).well_formed(),
            final(self).track_id == old(self).track_id,
            final(self).format == old(self).format,
            final(self).samples().len() == old(self).samples().len(),
            forall|c: int|
                0 <= c < final(self).samples().len() ==> #[trigger] final(self).samples()[c] == old(
                    self,
                ).samples()[c] + channel_of(s@, old(self).format.channels as int, c),
    {
        let n: usize = self.format.channels;
        let ghost start = self.tracks@;
        let mut c: usize = 0;
        while c < n
            invariant
                c <= n == self.tracks@.len() == start.len(),
                n > 0,
                self.track_id == old(self).track_id,
                self.format == old(self).format,
                start == old(self).tracks@,
                forall|k: int|
                    0 <= k < n ==> (#[trigger] self.tracks@[k])@ == if k < c {
                        start[k]@ + channel_of(s@, n as int, k)
                    } else {
                        start[k]@
                    },
            decreases n - c,
        {
            let ghost prev = self.tracks@;
            let ghost before = self.tracks@[c as int]@;
            let mut f: usize = 0;
            let frames: usize = s.len() / n;
            let mut at: usize = c;
            proof {
                assert(frames * n <= s.len()) by (nonlinear_arith)
                    requires
                        frames == s.len() / n,
                        n > 0,
                ;
                assert(before =~= before + channel_of(s@, n as int, c as int).take(0));
            }
            while f < frames
                invariant
                    c < n == self.tracks@.len() == prev.len(),
                    frames == s@.len() / n as nat,
                    frames * n <= s@.len() <= usize::MAX,
                    f <= frames,
                    f < frames ==> at == f * n + c,
                    self.track_id == old(self).track_id,
                    self.format == old(self).format,
                    self.tracks@[c as int]@ == before + channel_of(s@, n as int, c as int).take(
                        f as int,
                    ),
                    forall|k: int|
                        0 <= k < n && k != c ==> (#[trigger] self.tracks@[k])@ == prev[k]@,
                decreases frames - f,
            {
                proof {
                    assert((f + 1) * n <= frames * n && f * n + n == (f + 1) * n)
                        by (nonlinear_arith)
                        requires
                            f + 1 <= frames,
                            n > 0,
                    ;
                    assert(f + 1 < frames ==> (f + 2) * n <= frames * n && (f + 2) * n == (f + 1)
                        * n + n) by (nonlinear_arith)
                        requires
                            n > 0,
                    ;
                    assert(f + 1 < frames ==> at + n == (f + 1) * n + c && at + n < s@.len());
                }
                let v = s[at];
                let ghost mid = self.tracks@;
                self.tracks[c].push(v);
                proof {
                    let ch = channel_of(s@, n as int, c as int);
                    assert(ch[f as int] == v);
                    assert(ch.take(f + 1) =~= ch.take(f as int).push(v));
                    assert(self.tracks@[c as int]@ =~= before + ch.take(f + 1));
                }
                f += 1;
                if f < frames {
                    at += n;
                }
            }
            proof {
                let ch = channel_of(s@, n as int, c as int);
                assert(ch.take(frames as int) =~= ch);
            }
            c += 1;
        }
        proof {
            assert forall|k: int| 0 <= k < n implies #[trigger] self.samples()[k] == old(
                self,
            ).samples()[k] + channel_of(s@, n as int, k) by {
                assert(self.samples()[k] == self.tracks@[k]@);
            }
            assert(self.samples()[0] == self.tracks@[0]@);
            assert forall|k: int| 0 <= k < n implies (#[trigger] self.samples()[k]).len()
                == self.frame_count() by {
                assert(old(self).samples()[k].len() == old(self).frame_count());
                assert(old(self).samples()[0].len() == old(self).frame_count());
            }
        }
    }

    /// The recording, once all packets are taken in.
    pub fn finish(self, style: PathStyle, path: &str) -> (r: Result<AudioData, LoadError>)
        requires
            self.well_formed(),
        ensures
            self.frame_count() == 0 ==> r == Err::<AudioData, LoadError>(LoadError::Empty),
            self.frame_count() > 0 ==> (r matches Ok(a) && {
                &&& a.well_formed()
                &&& a.style == style
                &&& a.path@ == path@
                &&& text::texts(a.sources@) == seq![path@]
                &&& a.source_channels@ == seq![self.format.channels]
                &&& a.samples() == self.samples()
                &&& a.sample_rate == self.format.sample_rate
                &&& a.bits_per_sample == self.format.bits_per_sample
            }),
    {
        if self.tracks.len() == 0 || self.tracks[0].len() == 0 {
            return Err(LoadError::Empty);
        }
        let peaks = all_peaks(&self.tracks);
        let mut sources: Vec<String> = Vec::new();
        sources.push(String::from_str(path));
        assert(text::texts(sources@) =~= seq![path@]);
        let mut source_channels: Vec<usize> = Vec::new();
        source_channels.push(self.format.channels);
        proof {
            assert(source_channels@.drop_last() =~= Seq::empty());
            assert(total(source_channels@) == self.format.channels) by {
                reveal_with_fuel(total, 2);
            }
        }
        Ok(
            AudioData {
                style,
                path: String::from_str(path),
                sources,
                source_channels,
                tracks: self.tracks,
                sample_rate: self.format.sample_rate,
                bits_per_sample: self.format.bits_per_sample,
                peaks,
            },
        )
    }
}

/// A track with silence behind it, up to a length.
pub open spec fn padded_track(track: Seq<Single>, frames: nat) -> Seq<Single> {
    Seq::new(frames, |f: int| if f < track.len() { track[f] } else { single::zero() })
}

/// The length of the longest recording.
pub open spec fn longest(parts: Seq<AudioData>) -> nat
    decreases parts.len(),
{
    if parts.len() == 0 {
        0
    } else {
        let front = longest(parts.drop_last());
        let last = parts.last().frame_count();
        if last > front {
            last
        } else {
            front
        }
    }
}

/// The greatest bit depth.
pub open spec fn deepest(parts: Seq<AudioData>) -> u32
    decreases parts.len(),
{
    if parts.len() == 0 {
        0
    } else {
        let front = deepest(parts.drop_last());
        let last = parts.last().bits_per_sample;
        if last > front {
            last
        } else {
            front
        }
    }
}

/// The tracks of all recordings, one recording behind the other.
pub open spec fn all_tracks(parts: Seq<AudioData>, frames: nat) -> Seq<Seq<Single>>
    decreases parts.len(),
{
    if parts.len() == 0 {
        Seq::empty()
    } else {
        all_tracks(parts.drop_last(), frames) + parts.last().samples().map_values(
            |t: Seq<Single>| padded_track(t, frames),
        )
    }
}

pub open spec fn all_sources(parts: Seq<AudioData>) -> Seq<Seq<char>>
    decreases parts.len(),
{
    if parts.len() == 0 {
        Seq::empty()
    } else {
        all_sources(parts.drop_last()) + text::texts(parts.last().sources@)
    }
}

pub open spec fn all_source_channels(parts: Seq<AudioData>) -> Seq<usize>
    decreases parts.len(),
{
    if parts.len() == 0 {
        Seq::empty()
    } else {
        all_source_channels(parts.drop_last()) + parts.last().source_channels@
    }
}

/// The message for files with different sample rates.
pub open spec fn mismatch_message(part: AudioData, first: AudioData) -> Seq<char> {
    part.name_text() + " has a sample rate of "@ + text::decimal(part.sample_rate as nat)
        + " Hz, but "@ + first.name_text() + " has "@ + text::decimal(first.sample_rate as nat)
        + " Hz"@
}

fn mismatch_text(part: &AudioData, first: &AudioData) -> (r: String)
    ensures
        r@ == mismatch_message(*part, *first),
{
    let mut message = part.file_name();
    message.append(" has a sample rate of ");
    message.append(decimal_text(part.sample_rate as u64).as_str());
    message.append(" Hz, but ");
    message.append(first.file_name().as_str());
    message.append(" has ");
    message.append(decimal_text(first.sample_rate as u64).as_str());
    message.append(" Hz");
    message
}

fn pad_track(track: &Vec<Single>, frames: usize) -> (r: Vec<Single>)
    ensures
        r@ == padded_track(track@, frames as nat),
{
    let mut out: Vec<Single> = Vec::new();
    let mut f: usize = 0;
    while f < frames
        invariant
            f <= frames,
            out@ == padded_track(track@, frames as nat).take(f as int),
        decreases frames - f,
    {
        let v = if f < track.len() {
            track[f]
        } else {
            Single { bits: ZERO_BITS }
        };
        out.push(v);
        f += 1;
        assert(out@ =~= padded_track(track@, frames as nat).take(f as int));
    }
    assert(padded_track(track@, frames as nat).take(frames as int) =~= padded_track(
        track@,
        frames as nat,
    ));
    out
}

fn append_padded(tracks: &mut Vec<Vec<Single>>, part: &AudioData, frames: usize)
    ensures
        tracks_view(final(tracks)@) == tracks_view(old(tracks)@) + part.samples().map_values(
            |t: Seq<Single>| padded_track(t, frames as nat),
        ),
{
    let ghost pad = |t: Seq<Single>| padded_track(t, frames as nat);
    let ghost base = tracks_view(tracks@);
    let mut c: usize = 0;
    assert(base =~= base + part.samples().map_values(pad).take(0));
    while c < part.tracks.len()
        invariant
            c <= part.tracks.len(),
            pad == |t: Seq<Single>| padded_track(t, frames as nat),
            tracks_view(tracks@) == base + part.samples().map_values(pad).take(c as int),
        decreases part.tracks.len() - c,
    {
        let t = pad_track(&part.tracks[c], frames);
        let ghost before = tracks@;
        tracks.push(t);
        proof {
            let all = part.samples().map_values(pad);
            assert(all[c as int] == t@);
            assert(tracks_view(tracks@) =~= tracks_view(before).push(t@));
            assert(all.take(c + 1) =~= all.take(c as int).push(t@));
            assert(tracks_view(tracks@) =~= base + all.take(c + 1));
        }
        c += 1;
    }
    assert(part.samples().map_values(pad).take(part.tracks@.len() as int)
        =~= part.samples().map_values(pad));
}

proof fn lemma_all_tracks_level(parts: Seq<AudioData>, frames: nat)
    ensures
        level(all_tracks(parts, frames), frames as int),
    decreases parts.len(),
{
    if parts.len() > 0 {
        lemma_all_tracks_level(parts.drop_last(), frames);
        let front = all_tracks(parts.drop_last(), frames);
        assert forall|c: int| 0 <= c < all_tracks(parts, frames).len() implies (
        #[trigger] all_tracks(parts, frames)[c]).len() == frames by {
            if c < front.len() {
                assert(all_tracks(parts, frames)[c] == front[c]);
            }
        }
    }
}

/// Makes one recording of several files that start at the same instant: their
/// tracks stand one behind the other, and shorter files are filled up with
/// silence. All files have to have the same sample rate.
pub fn load_many(parts: Vec<AudioData>) -> (r: Result<AudioData, String>)
    requires
        forall|i: int| 0 <= i < parts@.len() ==> (#[trigger] parts@[i]).well_formed(),
    ensures
        parts@.len() == 0 ==> (r matches Err(e) && e@ == "No files to open"@),
        parts@.len() > 0 && (forall|i: int|
            0 <= i < parts@.len() ==> (#[trigger] parts@[i]).sample_rate == parts@[0].sample_rate)
            ==> (r matches Ok(a) && {
            &&& a.well_formed()
            &&& a.style == parts@[0].style
            &&& a.path@ == parts@[0].path@
            &&& text::texts(a.sources@) == all_sources(parts@)
            &&& a.source_channels@ == all_source_channels(parts@)
            &&& a.samples() == all_tracks(parts@, longest(parts@))
            &&& a.sample_rate == parts@[0].sample_rate
            &&& a.bits_per_sample == deepest(parts@)
        }),
        forall|i: int|
            0 <= i < parts@.len() && (#[trigger] parts@[i]).sample_rate != parts@[0].sample_rate && (
            forall|j: int|
                0 <= j < i ==> (#[trigger] parts@[j]).sample_rate == parts@[0].sample_rate) ==> (
            r matches Err(e) && e@ == mismatch_message(parts@[i], parts@[0])),
{
    let n: usize = parts.len();
    if n == 0 {
        return Err(String::from_str("No files to open"));
    }
    let rate: u32 = parts[0].sample_rate;
    let mut i: usize = 0;
    let mut frames: usize = 0;
    let mut bits: u32 = 0;
    while i < n
        invariant
            i <= n == parts@.len(),
            n > 0,
            rate == parts@[0].sample_rate,
            frames == longest(parts@.take(i as int)),
            bits == deepest(parts@.take(i as int)),
            forall|j: int| 0 <= j < i ==> (#[trigger] parts@[j]).sample_rate == rate,
        decreases n - i,
    {
        let part = &parts[i];
        if part.sample_rate != rate {
            assert(parts@[i as int].sample_rate != rate);
            return Err(mismatch_text(part, &parts[0]));
        }
        proof {
            assert(parts@.take(i + 1).drop_last() =~= parts@.take(i as int));
            assert(parts@.take(i + 1).last() == *part);
        }
        if part.frames() > frames {
            frames = part.frames();
        }
        if part.bits_per_sample > bits {
            bits = part.bits_per_sample;
        }
        i += 1;
    }
    assert(parts@.take(n as int) =~= parts@);
    let mut tracks: Vec<Vec<Single>> = Vec::new();
    let mut sources: Vec<String> = Vec::new();
    let mut source_channels: Vec<usize> = Vec::new();
    let mut k: usize = 0;
    proof {
        assert(tracks_view(tracks@) =~= all_tracks(parts@.take(0), frames as nat));
        assert(text::texts(sources@) =~= all_sources(parts@.take(0)));
        assert(source_channels@ =~= all_source_channels(parts@.take(0)));
    }
    while k < n
        invariant
            k <= n == parts@.len(),
            forall|i: int| 0 <= i < parts@.len() ==> (#[trigger] parts@[i]).well_formed(),
            sources@.len() == source_channels@.len(),
            total(source_channels@) == tracks@.len(),
            tracks_view(tracks@) == all_tracks(parts@.take(k as int), frames as nat),
            text::texts(sources@) == all_sources(parts@.take(k as int)),
            source_channels@ == all_source_channels(parts@.take(k as int)),
        decreases n - k,
    {
        let part = &parts[k];
        let ghost counts = source_channels@;
        let ghost names = sources@;
        let ghost lanes = tracks@;
        append_padded(&mut tracks, part, frames);
        append_texts(&mut sources, &part.sources);
        append_counts(&mut source_channels, &part.source_channels);
        proof {
            lemma_total_adds(counts, part.source_channels@);
            assert(text::texts(sources@).len() == text::texts(names).len() + text::texts(
                part.sources@,
            ).len());
            assert(tracks_view(tracks@).len() == tracks_view(lanes).len() + part.samples().len());
        }
        proof {
            assert(parts@.take(k + 1).drop_last() =~= parts@.take(k as int));
            assert(parts@.take(k + 1).last() == *part);
        }
        k += 1;
    }
    assert(parts@.take(n as int) =~= parts@);
    let peaks = all_peaks(&tracks);
    let a = AudioData {
        style: parts[0].style,
        path: parts[0].path.clone(),
        sources,
        source_channels,
        tracks,
        sample_rate: rate,
        bits_per_sample: bits,
        peaks,
    };
    proof {
        lemma_all_tracks_level(parts@, frames as nat);
        if a.tracks@.len() > 0 {
            assert(a.samples()[0] == a.tracks@[0]@);
        }
    }
    Ok(a)
}

fn append_texts(out: &mut Vec<String>, more: &Vec<String>)
    ensures
        text::texts(final(out)@) == text::texts(old(out)@) + text::texts(more@),
{
    let ghost base = text::texts(out@);
    let mut i: usize = 0;
    assert(base =~= base + text::texts(more@).take(0));
    while i < more.len()
        invariant
            i <= more.len(),
            text::texts(out@) == base + text::texts(more@).take(i as int),
        decreases more.len() - i,
    {
        let ghost before = out@;
        let t = more[i].clone();
        out.push(t);
        proof {
            assert(text::texts(out@) =~= text::texts(before).push(t@));
            assert(text::texts(more@)[i as int] == t@);
            assert(text::texts(out@) =~= base + text::texts(more@).take(i + 1));
        }
        i += 1;
    }
    assert(text::texts(more@).take(more@.len() as int) =~= text::texts(more@));
}

fn append_counts(out: &mut Vec<usize>, more: &Vec<usize>)
    ensures
        final(out)@ == old(out)@ + more@,
{
    let ghost base = out@;
    let mut i: usize = 0;
    while i < more.len()
        invariant
            i <= more.len(),
            out@ == base + more@.take(i as int),
        decreases more.len() - i,
    {
        out.push(more[i]);
        i += 1;
        assert(out@ =~= base + more@.take(i as int));
    }
    assert(more@.take(more@.len() as int) =~= more@);
}

/// The names of the tracks of one file among several.
pub open spec fn source_names(stem: Seq<char>, channels: nat) -> Seq<Seq<char>> {
    if channels == 1 {
        seq![stem]
    } else if channels == 2 {
        seq![stem + " L"@, stem + " R"@]
    } else {
        Seq::new(channels, |i: int| stem + " "@ + text::decimal((i + 1) as nat))
    }
}

/// The names of the tracks of the first `n` files.
pub open spec fn set_names(a: AudioData, n: nat) -> Seq<Seq<char>>
    decreases n,
{
    if n == 0 {
        Seq::empty()
    } else {
        set_names(a, (n - 1) as nat) + source_names(
            project::or_tape(path::file_stem(a.style, a.sources@[n - 1]@)),
            a.source_channels@[n - 1] as nat,
        )
    }
}

impl AudioData {
    /// The names that tracks have at first: counted through for a single
    /// file, and after the files for several.
    pub open spec fn first_names(self) -> Seq<Seq<char>> {
        if self.sources@.len() > 1 {
            set_names(self, self.sources@.len())
        } else {
            project::plain_names(self.tracks@.len())
        }
    }

    /// The names that tracks have at first.
    pub fn default_track_names(&self) -> (r: Vec<String>)
        requires
            self.well_formed(),
        ensures
            text::texts(r@) == self.first_names(),
    {
        if self.sources.len() <= 1 {
            return default_track_names(self.tracks.len());
        }
        let mut out: Vec<String> = Vec::new();
        let mut i: usize = 0;
        assert(text::texts(out@) =~= set_names(*self, 0));
        while i < self.sources.len()
            invariant
                i <= self.sources@.len() == self.source_channels@.len(),
                text::texts(out@) == set_names(*self, i as nat),
            decreases self.sources.len() - i,
        {
            let stem = match path_file_stem(self.style, self.sources[i].as_str()) {
                Some(s) => s,
                None => String::from_str("tape"),
            };
            append_source_names(&mut out, stem.as_str(), self.source_channels[i]);
            i += 1;
        }
        out
    }
}

fn with_ending(stem: &str, ending: &str) -> (r: String)
    ensures
        r@ == stem@ + ending@,
{
    let mut name = String::from_str(stem);
    name.append(ending);
    name
}

fn append_source_names(out: &mut Vec<String>, stem: &str, channels: usize)
    ensures
        text::texts(final(out)@) == text::texts(old(out)@) + source_names(stem@, channels as nat),
{
    let ghost base = text::texts(out@);
    if channels == 1 {
        out.push(String::from_str(stem));
        assert(text::texts(out@) =~= base + source_names(stem@, 1));
    } else if channels == 2 {
        let left = with_ending(stem, " L");
        let right = with_ending(stem, " R");
        out.push(left);
        out.push(right);
        assert(text::texts(out@) =~= base + source_names(stem@, 2));
    } else {
        let mut i: usize = 0;
        assert(base =~= base + source_names(stem@, channels as nat).take(0));
        while i < channels
            invariant
                i <= channels,
                channels != 1,
                channels != 2,
                text::texts(out@) == base + source_names(stem@, channels as nat).take(i as int),
            decreases channels - i,
        {
            let mut name = with_ending(stem, " ");
            name.append(decimal_text((i + 1) as u64).as_str());
            let ghost before = out@;
            out.push(name);
            proof {
                let all = source_names(stem@, channels as nat);
                assert(all[i as int] == name@);
                assert(text::texts(out@) =~= text::texts(before).push(name@));
                assert(text::texts(out@) =~= base + all.take(i + 1));
            }
            i += 1;
        }
        assert(source_names(stem@, channels as nat).take(channels as int) =~= source_names(
            stem@,
            channels as nat,
        ));
    }
}

proof fn lemma_set_names_len(a: AudioData, n: nat)
    requires
        n <= a.sources@.len() == a.source_channels@.len(),
    ensures
        set_names(a, n).len() == total(a.source_channels@.take(n as int)),
    decreases n,
{
    if n > 0 {
        lemma_set_names_len(a, (n - 1) as nat);
        assert(a.source_channels@.take(n as int).drop_last() =~= a.source_channels@.take(n - 1));
    }
}

/// Every track has a name at first.
pub proof fn law_every_track_named(a: AudioData)
    requires
        a.well_formed(),
    ensures
        a.first_names().len() == a.tracks@.len(),
{
    if a.sources@.len() > 1 {
        lemma_set_names_len(a, a.sources@.len());
        assert(a.source_channels@.take(a.sources@.len() as int) =~= a.source_channels@);
    }
}

proof fn lemma_longest(parts: Seq<AudioData>, i: int)
    requires
        0 <= i < parts.len(),
    ensures
        parts[i].frame_count() <= longest(parts),
    decreases parts.len(),
{
    if i < parts.len() - 1 {
        lemma_longest(parts.drop_last(), i);
        assert(parts.drop_last()[i] == parts[i]);
    }
}

/// How many tracks stand before those of the recording `i`.
pub open spec fn tracks_before(parts: Seq<AudioData>, i: int) -> nat
    decreases i,
{
    if i <= 0 {
        0
    } else {
        tracks_before(parts, i - 1) + parts[i - 1].tracks@.len()
    }
}

proof fn lemma_all_tracks_at(parts: Seq<AudioData>, frames: nat, i: int, c: int)
    requires
        0 <= i < parts.len(),
        0 <= c < parts[i].tracks@.len(),
    ensures
        all_tracks(parts, frames).len() == tracks_before(parts, parts.len() as int),
        tracks_before(parts, i) + c < all_tracks(parts, frames).len(),
        all_tracks(parts, frames)[tracks_before(parts, i) + c] == padded_track(
            parts[i].tracks@[c]@,
            frames,
        ),
    decreases parts.len(),
{
    let front = parts.drop_last();
    lemma_all_tracks_len(front, frames);
    lemma_tracks_before_front(parts, parts.len() - 1);
    assert(parts.last().samples().len() == parts.last().tracks@.len());
    if i < front.len() {
        lemma_all_tracks_at(front, frames, i, c);
        lemma_tracks_before_front(parts, i);
        assert(front[i] == parts[i]);
    }
}

proof fn lemma_all_tracks_len(parts: Seq<AudioData>, frames: nat)
    ensures
        all_tracks(parts, frames).len() == tracks_before(parts, parts.len() as int),
    decreases parts.len(),
{
    if parts.len() > 0 {
        lemma_all_tracks_len(parts.drop_last(), frames);
        lemma_tracks_before_front(parts, parts.len() - 1);
        assert(parts.last().samples().len() == parts.last().tracks@.len());
    }
}

proof fn lemma_tracks_before_front(parts: Seq<AudioData>, i: int)
    requires
        0 <= i < parts.len(),
    ensures
        tracks_before(parts.drop_last(), i) == tracks_before(parts, i),
    decreases i,
{
    if i > 0 {
        lemma_tracks_before_front(parts, i - 1);
        assert(parts.drop_last()[i - 1] == parts[i - 1]);
    }
}

/// Of several files, each keeps all its samples on its own tracks, in the
/// order of the files, and is silent from its end to the end of the longest.
pub proof fn law_files_keep_samples(parts: Seq<AudioData>, i: int, c: int, f: int)
    requires
        0 <= i < parts.len(),
        parts[i].well_formed(),
        0 <= c < parts[i].tracks@.len(),
        0 <= f < longest(parts),
    ensures
        ({
            let track = all_tracks(parts, longest(parts))[tracks_before(parts, i) + c];
            &&& track.len() == longest(parts)
            &&& parts[i].frame_count() <= longest(parts)
            &&& track[f] == if f < parts[i].frame_count() {
                parts[i].tracks@[c]@[f]
            } else {
                single::zero()
            }
        }),
{
    lemma_longest(parts, i);
    lemma_all_tracks_at(parts, longest(parts), i, c);
    assert(parts[i].samples()[c].len() == parts[i].frame_count());
}

proof fn lemma_extremes_bound(s: Seq<Single>, i: int)
    requires
        0 <= i < s.len(),
        !s[i].is_nan(),
    ensures
        lowest(s).at_most(s[i]),
        s[i].at_most(highest(s)),
    decreases s.len(),
{
    lemma_not_nan(s);
    lemma_not_nan(s.drop_last());
    if i < s.len() - 1 {
        lemma_extremes_bound(s.drop_last(), i);
    }
}

/// No sample is louder than its peak: it lies between the two ends of it.
pub proof fn law_peak_bounds_samples(track: Seq<Single>, f: int)
    requires
        0 <= f < track.len(),
        !track[f].is_nan(),
    ensures
        ({
            let k = f / PEAK_BIN as int;
            &&& 0 <= k < peaks_of(track).len()
            &&& peaks_of(track)[k].0.at_most(track[f])
            &&& track[f].at_most(peaks_of(track)[k].1)
        }),
{
    let k = f / PEAK_BIN as int;
    let b = bin(track, k);
    assert(b[f - k * PEAK_BIN] == track[f]);
    lemma_extremes_bound(b, f - k * PEAK_BIN);
}

/// Several files become as long as the longest of them, and as deep as the deepest.
pub proof fn law_longest_and_deepest(parts: Seq<AudioData>) -> (at: (int, int))
    requires
        parts.len() > 0,
    ensures
        0 <= at.0 < parts.len() && parts[at.0].frame_count() == longest(parts),
        0 <= at.1 < parts.len() && parts[at.1].bits_per_sample == deepest(parts),
        forall|i: int|
            0 <= i < parts.len() ==> (#[trigger] parts[i]).frame_count() <= longest(parts)
                && parts[i].bits_per_sample <= deepest(parts),
    decreases parts.len(),
{
    let front = parts.drop_last();
    let last = parts.len() - 1;
    if front.len() > 0 {
        let (a, b) = law_longest_and_deepest(front);
        assert(front[a] == parts[a] && front[b] == parts[b]);
        assert forall|i: int| 0 <= i < parts.len() implies (#[trigger] parts[i]).frame_count()
            <= longest(parts) && parts[i].bits_per_sample <= deepest(parts) by {
            if i < last {
                assert(front[i] == parts[i]);
            }
        }
        (
            if parts[last].frame_count() > longest(front) {
                last
            } else {
                a
            },
            if parts[last].bits_per_sample > deepest(front) {
                last
            } else {
                b
            },
        )
    } else {
        assert(longest(front) == 0 && deepest(front) == 0);
        assert(parts.last() == parts[0]);
        (0, 0)
    }
}

/// The files of a recording, and how many tracks each has, stand in the order in which
/// they were given.
pub proof fn law_sources_stand_in_order(parts: Seq<AudioData>, i: int)
    requires
        0 <= i < parts.len(),
        forall|k: int|
            0 <= k < parts.len() ==> (#[trigger] parts[k]).sources@.len() == 1
                && parts[k].source_channels@.len() == 1,
    ensures
        all_sources(parts).len() == parts.len(),
        all_source_channels(parts).len() == parts.len(),
        all_sources(parts)[i] == parts[i].sources@[0]@,
        all_source_channels(parts)[i] == parts[i].source_channels@[0],
    decreases parts.len(),
{
    let front = parts.drop_last();
    assert forall|k: int| 0 <= k < front.len() implies (#[trigger] front[k]).sources@.len() == 1
        && front[k].source_channels@.len() == 1 by {
        assert(front[k] == parts[k]);
    }
    assert(parts[parts.len() - 1].sources@.len() == 1);
    if front.len() > 0 {
        if i < front.len() {
            law_sources_stand_in_order(front, i);
        } else {
            law_sources_stand_in_order(front, 0);
        }
    }
    assert(text::texts(parts.last().sources@)[0] == parts.last().sources@[0]@);
}

/// The frames of a packet are shared out to the channels: of interleaved samples a
/// channel gets those at its own place, one per whole frame, in order.
pub proof fn law_packets_are_shared_out(samples: Seq<Single>, channels: int, c: int, f: int)
    requires
        0 <= c < channels,
        0 <= f < samples.len() as int / channels,
    ensures
        channel_of(samples, channels, c).len() == samples.len() as int / channels,
        channel_of(samples, channels, c)[f] == samples[f * channels + c],
{
    assert(samples.len() as int / channels >= 0) by (nonlinear_arith)
        requires
            channels > 0,
    ;
}

/// The bit depth of a recording is the one that its file states, else the width of its
/// floating-point samples where it has such, else 16.
pub proof fn law_depth_of_recording(stated: Option<u32>, float_bits: Option<u32>)
    ensures
        stated is Some ==> depth_of(stated, float_bits) == stated->0,
        stated is None && float_bits is Some ==> depth_of(stated, float_bits) == float_bits->0,
        stated is None && float_bits is None ==> depth_of(stated, float_bits) == 16,
{
}

/// The ends of a peak are samples of its range, and no sample of the range lies
/// outside them.
pub proof fn law_extremes_are_samples(s: Seq<Single>) -> (at: (int, int))
    requires
        s.len() > 0,
        forall|i: int|
            0 <= i < s.len() ==> !(#[trigger] s[i]).is_nan() && s[i].exponent() < 255,
    ensures
        0 <= at.0 < s.len() && lowest(s) == s[at.0],
        0 <= at.1 < s.len() && highest(s) == s[at.1],
        forall|i: int|
            0 <= i < s.len() ==> lowest(s).at_most(#[trigger] s[i]) && s[i].at_most(highest(s)),
    decreases s.len(),
{
    let front = s.drop_last();
    let last = s.len() - 1;
    assert forall|i: int| 0 <= i < s.len() implies lowest(s).at_most(#[trigger] s[i])
        && s[i].at_most(highest(s)) by {
        lemma_extremes_bound(s, i);
    }
    assert(!s[last].is_nan() && s[last].exponent() < 255);
    if front.len() > 0 {
        assert forall|i: int| 0 <= i < front.len() implies !(#[trigger] front[i]).is_nan()
            && front[i].exponent() < 255 by {
            assert(front[i] == s[i]);
        }
        let (a, b) = law_extremes_are_samples(front);
        assert(front[a] == s[a] && front[b] == s[b]);
        assert(lowest(s) == lowest(front) || lowest(s) == s[last]);
        assert(highest(s) == highest(front) || highest(s) == s[last]);
        (
            if lowest(s) == lowest(front) {
                a
            } else {
                last
            },
            if highest(s) == highest(front) {
                b
            } else {
                last
            },
        )
    } else {
        assert(front =~= Seq::<Single>::empty());
        let v = s[last];
        lemma_finite(v);
        assert(lowest(front) == (Single { bits: 0x7f7f_ffff }));
        assert(highest(front) == (Single { bits: 0xff7f_ffff }));
        assert(lowest(s) == v && highest(s) == v);
        (0, 0)
    }
}

proof fn lemma_finite(v: Single)
    requires
        v.exponent() < 255,
    ensures
        v.rank() <= 0x7f7f_ffff,
        v.rank() >= -0x7f7f_ffff,
        v.rank() == 0x7f7f_ffff ==> v.bits == 0x7f7f_ffff,
        v.rank() == -0x7f7f_ffff ==> v.bits == 0xff7f_ffff,
{
}

proof fn lemma_names_at(a: AudioData, n: nat, i: int, c: int)
    requires
        0 <= i < n <= a.sources@.len(),
        a.sources@.len() == a.source_channels@.len(),
        0 <= c < a.source_channels@[i],
    ensures
        total(a.source_channels@.take(i)) + c < set_names(a, n).len(),
        set_names(a, n)[total(a.source_channels@.take(i)) + c] == source_names(
            project::or_tape(path::file_stem(a.style, a.sources@[i]@)),
            a.source_channels@[i] as nat,
        )[c],
    decreases n,
{
    lemma_set_names_len(a, (n - 1) as nat);
    if i < n - 1 {
        lemma_names_at(a, (n - 1) as nat, i, c);
    }
}

/// The tracks of several files are named after their files: the track of a mono file
/// by the name of the file alone, the two of a stereo file with `L` and `R` behind it,
/// and those of a wider file counted through from one on. The tracks of a single file
/// are counted through.
pub proof fn law_tracks_are_named_after_files(a: AudioData, i: int, c: int, stem: Seq<char>)
    requires
        a.well_formed(),
        0 <= i < a.sources@.len(),
        0 <= c < a.source_channels@[i],
        path::file_stem(a.style, a.sources@[i]@) == Some(stem),
    ensures
        ({
            let n = a.source_channels@[i];
            let at = total(a.source_channels@.take(i)) + c;
            &&& a.sources@.len() > 1 ==> {
                &&& at < a.first_names().len()
                &&& n == 1 ==> a.first_names()[at] == stem
                &&& n == 2 && c == 0 ==> a.first_names()[at] == stem + " L"@
                &&& n == 2 && c == 1 ==> a.first_names()[at] == stem + " R"@
                &&& n > 2 ==> a.first_names()[at] == stem + " "@ + text::decimal((c + 1) as nat)
            }
            &&& a.sources@.len() == 1 && c < a.tracks@.len() ==> a.first_names()[c] == "Track "@
                + text::decimal((c + 1) as nat)
        }),
{
    if a.sources@.len() > 1 {
        lemma_names_at(a, a.sources@.len(), i, c);
    }
}

/// A peak is made of the samples of its own 512 frames and of no others: its two ends
/// are samples out of these frames.
pub proof fn law_peak_is_of_its_frames(track: Seq<Single>, k: int) -> (at: (int, int))
    requires
        0 <= 512 * k < track.len(),
        forall|i: int|
            0 <= i < track.len() ==> !(#[trigger] track[i]).is_nan() && track[i].exponent() < 255,
    ensures
        k < peaks_of(track).len(),
        0 <= at.0 < track.len() && at.0 / 512 == k && peaks_of(track)[k].0 == track[at.0],
        0 <= at.1 < track.len() && at.1 / 512 == k && peaks_of(track)[k].1 == track[at.1],
{
    let b = bin(track, k);
    assert forall|i: int| 0 <= i < b.len() implies !(#[trigger] b[i]).is_nan() && b[i].exponent()
        < 255 by {
        assert(b[i] == track[k * 512 + i]);
    }
    let (x, y) = law_extremes_are_samples(b);
    (k * 512 + x, k * 512 + y)
}

/// A recording of one file is called by the name of the file, and one of several by
/// how many they are and the name of their directory.
pub proof fn law_recording_is_called_after_files(a: AudioData)
    ensures
        a.sources@.len() <= 1 ==> (path::file_name(a.style, a.path@) matches Some(n) ==> a.name_text()
            == n),
        a.sources@.len() > 1 ==> (path::parent(a.style, a.path@) matches Some(dir) ==> (
        path::file_name(a.style, dir) matches Some(n) ==> a.name_text() == text::decimal(
            a.sources@.len(),
        ) + " files in "@ + n)),
{
}

}
