//! The project: which songs live where on the tape, which tracks each song
//! uses, and the simple mix of each track.

use crate::formats::{MixFormat, StemFormat};
use crate::mix;
use crate::path;
use crate::path::{
    absolute, equal_parents, join_path, path_file_name, path_file_stem, path_parent, rename_path,
    PathStyle,
};
use crate::single::{Single, ONE_BITS, ZERO_BITS};
use crate::text;
use crate::text::{copy_texts, decimal_text};
use vstd::prelude::*;
use vstd::string::*;

verus! {

/// What a song says of one track of the tape.
#[derive(Clone, Copy, Debug, PartialEq, Eq, Structural)]
pub struct TrackSettings {
    /// Whether the song uses the track at all.
    pub active: bool,
    /// The first frame of the track, where it is not that of the song.
    pub start: Option<usize>,
    /// The end of the track, where it is not that of the song.
    pub end: Option<usize>,
    /// The gain, one for an untouched fader.
    pub volume: Single,
    /// From minus one, left, to one, right.
    pub pan: Single,
    pub mute: bool,
    pub solo: bool,
}

/// A track that the song uses from its start to its end, untouched.
pub open spec fn untouched() -> TrackSettings {
    TrackSettings {
        active: true,
        start: None,
        end: None,
        volume: (Single { bits: ONE_BITS }),
        pan: (Single { bits: ZERO_BITS }),
        mute: false,
        solo: false,
    }
}

impl Default for TrackSettings {
    fn default() -> (r: Self)
        ensures
            r == untouched(),
    {
        TrackSettings {
            active: true,
            start: None,
            end: None,
            volume: Single { bits: ONE_BITS },
            pan: Single { bits: ZERO_BITS },
            mute: false,
            solo: false,
        }
    }
}

/// A song: a range of frames on the tape, and one entry per track.
#[derive(Debug)]
pub struct Song {
    /// Only to find the song again; given anew when a project is loaded.
    pub id: u64,
    pub title: String,
    pub start: usize,
    pub end: usize,
    pub tracks: Vec<TrackSettings>,
}

/// A song by its contents.
#[verifier::ext_equal]
pub struct SongView {
    pub id: u64,
    pub title: Seq<char>,
    pub start: usize,
    pub end: usize,
    pub tracks: Seq<TrackSettings>,
}

impl View for Song {
    type V = SongView;

    open spec fn view(&self) -> SongView {
        SongView {
            id: self.id,
            title: self.title@,
            start: self.start,
            end: self.end,
            tracks: self.tracks@,
        }
    }
}

impl Clone for Song {
    fn clone(&self) -> (r: Self)
        ensures
            r@ == self@,
    {
        let tracks = self.tracks.clone();
        assert(tracks@ =~= self.tracks@);
        Song { id: self.id, title: self.title.clone(), start: self.start, end: self.end, tracks }
    }
}

/// The contents of a list of songs.
pub open spec fn songs_view(v: Seq<Song>) -> Seq<SongView> {
    v.map_values(|s: Song| s@)
}

/// A frame of a track, kept inside its song.
pub open spec fn inside(frame: usize, start: usize, end: usize) -> usize {
    if frame < start {
        start
    } else if frame > end {
        end
    } else {
        frame
    }
}

impl SongView {
    pub open spec fn frames(self) -> nat {
        if self.end > self.start {
            (self.end - self.start) as nat
        } else {
            0
        }
    }

    pub open spec fn uses(self, ch: int) -> bool {
        0 <= ch < self.tracks.len() && self.tracks[ch].active
    }

    /// The first frame of a track.
    pub open spec fn track_start(self, ch: int) -> usize {
        match self.tracks[ch].start {
            Some(f) => inside(f, self.start, self.end),
            None => self.start,
        }
    }

    /// The end of a track.
    pub open spec fn track_end(self, ch: int) -> usize {
        match self.tracks[ch].end {
            Some(f) => inside(f, self.start, self.end),
            None => self.end,
        }
    }

    /// Where a track is heard: the range of the song, narrowed by the start
    /// and end of the track. Nothing for a track that is not used or whose
    /// range is empty.
    pub open spec fn range(self, ch: int) -> Option<(usize, usize)> {
        if self.uses(ch) && self.track_end(ch) > self.track_start(ch) {
            Some((self.track_start(ch), self.track_end(ch)))
        } else {
            None
        }
    }

    /// Whether the starts and ends of the used tracks can be kept inside the
    /// song.
    pub open spec fn clampable(self) -> bool {
        self.start <= self.end || forall|ch: int|
            self.uses(ch) ==> (#[trigger] self.tracks[ch]).start is None
                && self.tracks[ch].end is None
    }

    /// The tracks that the song uses, in tape order.
    pub open spec fn used(self) -> Seq<usize> {
        used_below(self, self.tracks.len())
    }

    /// The song with one entry for each of `channels` tracks.
    pub open spec fn fitted(self, channels: nat) -> SongView {
        SongView {
            tracks: Seq::new(
                channels,
                |i: int| if i < self.tracks.len() { self.tracks[i] } else { untouched() },
            ),
            ..self
        }
    }
}

/// The used tracks among the first `n`.
pub open spec fn used_below(song: SongView, n: nat) -> Seq<usize>
    decreases n,
{
    if n == 0 {
        Seq::empty()
    } else if song.tracks[n - 1].active {
        used_below(song, (n - 1) as nat).push((n - 1) as usize)
    } else {
        used_below(song, (n - 1) as nat)
    }
}

proof fn lemma_used_below(song: SongView, n: nat)
    requires
        n <= song.tracks.len(),
        n <= usize::MAX,
    ensures
        used_below(song, n).len() <= n,
        forall|i: int|
            0 <= i < used_below(song, n).len() ==> song.uses(#[trigger] used_below(song, n)[i] as int)
                && used_below(song, n)[i] < n,
        forall|i: int, j: int|
            0 <= i < j < used_below(song, n).len() ==> used_below(song, n)[i] < used_below(
                song,
                n,
            )[j],
        forall|ch: usize| ch < n && song.uses(ch as int) ==> used_below(song, n).contains(ch),
    decreases n,
{
    if n > 0 {
        lemma_used_below(song, (n - 1) as nat);
        let front = used_below(song, (n - 1) as nat);
        let all = used_below(song, n);
        assert forall|ch: usize| ch < n && song.uses(ch as int) implies all.contains(ch) by {
            if ch == n - 1 {
                assert(all[all.len() - 1] == ch);
            } else {
                assert(front.contains(ch));
                let i = choose|i: int| 0 <= i < front.len() && front[i] == ch;
                assert(all[i] == ch);
            }
        }
    }
}

/// The list of used tracks holds each used track once, in tape order, and no
/// other.
pub proof fn law_used_tracks(song: SongView)
    requires
        song.tracks.len() <= usize::MAX,
    ensures
        song.used().len() <= song.tracks.len(),
        forall|ch: usize| song.used().contains(ch) <==> song.uses(ch as int),
        forall|i: int, j: int|
            0 <= i < j < song.used().len() ==> song.used()[i] < song.used()[j],
{
    lemma_used_below(song, song.tracks.len());
    assert forall|ch: usize| song.used().contains(ch) implies song.uses(ch as int) by {
        let i = choose|i: int| 0 <= i < song.used().len() && song.used()[i] == ch;
        assert(song.uses(song.used()[i] as int));
    }
}

/// A track is never heard outside its song.
pub proof fn law_range_inside_song(song: SongView, ch: int)
    requires
        song.start <= song.end,
    ensures
        song.range(ch) matches Some((s, e)) ==> song.start <= s < e <= song.end && song.uses(ch),
{
}

impl Song {
    pub fn new(id: u64, title: String, start: usize, end: usize, channels: usize) -> (r: Self)
        ensures
            r@ == (SongView {
                id,
                title: title@,
                start,
                end,
                tracks: Seq::new(channels as nat, |i: int| untouched()),
            }),
    {
        let mut tracks: Vec<TrackSettings> = Vec::new();
        let mut i: usize = 0;
        while i < channels
            invariant
                i <= channels,
                tracks@ == Seq::new(i as nat, |i: int| untouched()),
            decreases channels - i,
        {
            tracks.push(TrackSettings::default());
            i += 1;
            assert(tracks@ =~= Seq::new(i as nat, |i: int| untouched()));
        }
        Song { id, title, start, end, tracks }
    }

    pub fn frames(&self) -> (r: usize)
        ensures
            r == self@.frames(),
    {
        if self.end > self.start {
            self.end - self.start
        } else {
            0
        }
    }

    /// Where a track is heard.
    pub fn track_range(&self, ch: usize) -> (r: Option<(usize, usize)>)
        requires
            self.start <= self.end || !self@.uses(ch as int) || (self.tracks@[ch as int].start is None
                && self.tracks@[ch as int].end is None),
        ensures
            r == self@.range(ch as int),
    {
        if ch >= self.tracks.len() {
            return None;
        }
        let t = self.tracks[ch];
        if !t.active {
            return None;
        }
        let start: usize = match t.start {
            Some(f) => keep_inside(f, self.start, self.end),
            None => self.start,
        };
        let end: usize = match t.end {
            Some(f) => keep_inside(f, self.start, self.end),
            None => self.end,
        };
        if end > start {
            Some((start, end))
        } else {
            None
        }
    }

    /// The tracks that the song uses, in tape order.
    pub fn active_channels(&self) -> (r: Vec<usize>)
        ensures
            r@ == self@.used(),
    {
        let mut out: Vec<usize> = Vec::new();
        let mut i: usize = 0;
        while i < self.tracks.len()
            invariant
                i <= self.tracks.len(),
                out@ == used_below(self@, i as nat),
            decreases self.tracks.len() - i,
        {
            if self.tracks[i].active {
                out.push(i);
            }
            i += 1;
        }
        out
    }

    /// Grows or shrinks the list of tracks to that of a recording.
    pub fn fit_channels(&mut self, channels: usize)
        ensures
            final(self)@ == old(self)@.fitted(channels as nat),
    {
        if channels < self.tracks.len() {
            self.tracks.truncate(channels);
        }
        let ghost kept = self.tracks@;
        while self.tracks.len() < channels
            invariant
                old(self).tracks@.len() <= channels ==> kept == old(self).tracks@,
                old(self).tracks@.len() > channels ==> kept == old(self).tracks@.take(
                    channels as int,
                ),
                kept.len() <= self.tracks.len() <= channels,
                forall|i: int|
                    0 <= i < self.tracks.len() ==> self.tracks@[i] == if i < kept.len() {
                        kept[i]
                    } else {
                        untouched()
                    },
                self.id == old(self).id,
                self.title@ == old(self).title@,
                self.start == old(self).start,
                self.end == old(self).end,
            decreases channels - self.tracks.len(),
        {
            self.tracks.push(TrackSettings::default());
        }
        assert(self.tracks@ =~= old(self)@.fitted(channels as nat).tracks);
    }
}

/// A frame of a track, kept inside its song.
pub fn keep_inside(frame: usize, start: usize, end: usize) -> (r: usize)
    requires
        start <= end,
    ensures
        r == inside(frame, start, end),
{
    if frame < start {
        start
    } else if frame > end {
        end
    } else {
        frame
    }
}

/// Ending of the project file that is saved next to a recording.
pub const PROJECT_SUFFIX: &'static str = ".mtsplit.json";

/// All that is kept of the work on a recording.
#[derive(Debug)]
pub struct Project {
    /// The files of the recording in track order: bare names where they sit
    /// next to the project file, otherwise full paths.
    pub audio_files: Vec<String>,
    /// Older projects hold a single file here.
    pub audio_file: String,
    pub sample_rate: u32,
    pub channels: usize,
    pub track_names: Vec<String>,
    pub songs: Vec<Song>,
    /// How mixes are written; missing in older projects.
    pub mix_format: Option<MixFormat>,
    /// How stems are written; missing in older projects.
    pub stem_format: Option<StemFormat>,
}

/// A project by its contents.
#[verifier::ext_equal]
pub struct ProjectView {
    pub audio_files: Seq<Seq<char>>,
    pub audio_file: Seq<char>,
    pub sample_rate: u32,
    pub channels: usize,
    pub track_names: Seq<Seq<char>>,
    pub songs: Seq<SongView>,
    pub mix_format: Option<MixFormat>,
    pub stem_format: Option<StemFormat>,
}

impl View for Project {
    type V = ProjectView;

    open spec fn view(&self) -> ProjectView {
        ProjectView {
            audio_files: text::texts(self.audio_files@),
            audio_file: self.audio_file@,
            sample_rate: self.sample_rate,
            channels: self.channels,
            track_names: text::texts(self.track_names@),
            songs: songs_view(self.songs@),
            mix_format: self.mix_format,
            stem_format: self.stem_format,
        }
    }
}

impl ProjectView {
    /// The files of the recording, whichever field the project used.
    pub open spec fn recording(self) -> Seq<Seq<char>> {
        if self.audio_files.len() == 0 && self.audio_file.len() > 0 {
            seq![self.audio_file]
        } else {
            self.audio_files
        }
    }
}

/// The songs with their place in the list as id.
pub open spec fn numbered(songs: Seq<SongView>) -> Seq<SongView> {
    Seq::new(songs.len(), |i: int| SongView { id: i as u64, ..songs[i] })
}

/// A copy of a list of songs.
pub fn copy_songs(v: &Vec<Song>) -> (r: Vec<Song>)
    ensures
        songs_view(r@) == songs_view(v@),
        r.len() == v.len(),
{
    let n: usize = v.len();
    let mut out: Vec<Song> = Vec::new();
    let mut i: usize = 0;
    while i < n
        invariant
            i <= n == v.len(),
            songs_view(out@) == songs_view(v@.take(i as int)),
        decreases n - i,
    {
        let song = v[i].clone();
        let ghost before = out@;
        out.push(song);
        proof {
            assert(songs_view(out@) =~= songs_view(before).push(v@[i as int]@));
            assert(songs_view(v@.take(i + 1)) =~= songs_view(v@.take(i as int)).push(v@[i as int]@));
        }
        i += 1;
    }
    proof {
        assert(v@.take(n as int) =~= v@);
        assert(songs_view(out@).len() == out@.len());
        assert(songs_view(v@).len() == v@.len());
    }
    out
}

impl Project {
    /// The files of the recording, whichever field the project used.
    pub fn files(&self) -> (r: Vec<String>)
        ensures
            text::texts(r@) == self@.recording(),
    {
        if self.audio_files.len() == 0 && self.audio_file.as_str().unicode_len() > 0 {
            let mut files: Vec<String> = Vec::new();
            files.push(self.audio_file.clone());
            assert(text::texts(files@) =~= seq![self.audio_file@]);
            files
        } else {
            copy_texts(&self.audio_files)
        }
    }

    /// Gives the songs their place in the list as id.
    pub fn number_songs(&mut self)
        requires
            old(self).songs@.len() <= u64::MAX,
        ensures
            final(self)@ == (ProjectView { songs: numbered(old(self)@.songs), ..old(self)@ }),
    {
        let n: usize = self.songs.len();
        let mut i: usize = 0;
        let ghost before = songs_view(self.songs@);
        while i < n
            invariant
                i <= n == self.songs.len() == before.len(),
                n <= u64::MAX,
                before == songs_view(old(self).songs@),
                forall|k: int|
                    0 <= k < n ==> #[trigger] self.songs@[k]@ == if k < i {
                        (SongView { id: k as u64, ..before[k] })
                    } else {
                        before[k]
                    },
                self.audio_files@ == old(self).audio_files@,
                self.audio_file@ == old(self).audio_file@,
                self.sample_rate == old(self).sample_rate,
                self.channels == old(self).channels,
                self.track_names@ == old(self).track_names@,
                self.mix_format == old(self).mix_format,
                self.stem_format == old(self).stem_format,
            decreases n - i,
        {
            let ghost prev = self.songs@;
            self.songs[i].id = i as u64;
            proof {
                assert forall|k: int| 0 <= k < n implies #[trigger] self.songs@[k]@ == if k <= i {
                    (SongView { id: k as u64, ..before[k] })
                } else {
                    before[k]
                } by {
                    assert(prev[k]@ == if k < i {
                        (SongView { id: k as u64, ..before[k] })
                    } else {
                        before[k]
                    });
                }
            }
            i += 1;
        }
        assert(songs_view(self.songs@) =~= numbered(before));
    }
}

/// The names of tracks that have none of their own.
pub open spec fn plain_names(channels: nat) -> Seq<Seq<char>> {
    Seq::new(channels, |i: int| "Track "@ + text::decimal((i + 1) as nat))
}

/// `Track 1`, `Track 2` and so on.
pub fn default_track_names(channels: usize) -> (r: Vec<String>)
    ensures
        text::texts(r@) == plain_names(channels as nat),
        r.len() == channels,
{
    let mut names: Vec<String> = Vec::new();
    let mut i: usize = 0;
    while i < channels
        invariant
            i <= channels,
            text::texts(names@) == plain_names(i as nat),
            names.len() == i,
        decreases channels - i,
    {
        let ghost before = names@;
        let name = plain_name(i);
        names.push(name);
        i += 1;
        proof {
            assert(text::texts(names@) =~= text::texts(before).push(name@));
            assert(plain_names(i as nat) =~= plain_names((i - 1) as nat).push(name@));
        }
    }
    names
}

/// The name of the track at an index, counted from one.
pub fn plain_name(ch: usize) -> (r: String)
    requires
        ch < usize::MAX,
    ensures
        r@ == "Track "@ + text::decimal((ch + 1) as nat),
{
    let mut name = String::from_str("Track ");
    name.append(decimal_text((ch + 1) as u64).as_str());
    name
}

/// What a missing name is replaced by.
pub open spec fn or_tape(name: Option<Seq<char>>) -> Seq<char> {
    match name {
        Some(n) => n,
        None => "tape"@,
    }
}

/// Where the project of a recording is saved: next to a single file, named
/// after it, or, for a set of files, in their directory, named after that.
pub open spec fn sidecar(style: PathStyle, files: Seq<Seq<char>>) -> Seq<char> {
    let first = if files.len() > 0 { files[0] } else { Seq::empty() };
    if files.len() > 1 {
        let dir = match path::parent(style, first) {
            Some(d) => d,
            None => "."@,
        };
        path::joined(style, dir, or_tape(path::file_name(style, dir)) + PROJECT_SUFFIX@)
    } else {
        path::renamed(style, first, or_tape(path::file_stem(style, first)) + PROJECT_SUFFIX@)
    }
}

fn tape_if_missing(name: Option<String>) -> (r: String)
    ensures
        r@ == or_tape(text::opt_text(name)),
{
    match name {
        Some(n) => n,
        None => String::from_str("tape"),
    }
}

/// Where the project of a recording is saved.
pub fn sidecar_path(style: PathStyle, audio_paths: &[String]) -> (r: String)
    ensures
        r@ == sidecar(style, text::texts(audio_paths@)),
{
    let first = if audio_paths.len() > 0 {
        assert(text::texts(audio_paths@)[0] == audio_paths@[0]@);
        audio_paths[0].clone()
    } else {
        let none = String::new();
        assert(none@ =~= Seq::empty());
        none
    };
    if audio_paths.len() > 1 {
        let dir = match path_parent(style, first.as_str()) {
            Some(d) => d,
            None => String::from_str("."),
        };
        let mut name = tape_if_missing(path_file_name(style, dir.as_str()));
        name.append(PROJECT_SUFFIX);
        join_path(style, dir.as_str(), name.as_str())
    } else {
        let mut name = tape_if_missing(path_file_stem(style, first.as_str()));
        name.append(PROJECT_SUFFIX);
        rename_path(style, first.as_str(), name.as_str())
    }
}

/// Where a file of a recording may lie: as written, absolute or relative to
/// the project file, else by its bare name next to the project file.
pub open spec fn audio_candidates(
    style: PathStyle,
    project_path: Seq<char>,
    audio_file: Seq<char>,
) -> Seq<Seq<char>> {
    let dir = match path::parent(style, project_path) {
        Some(d) => d,
        None => "."@,
    };
    let written = if path::is_absolute(style, audio_file) {
        audio_file
    } else {
        path::joined(style, dir, audio_file)
    };
    match path::file_name(style, audio_file) {
        Some(name) => seq![written, path::joined(style, dir, name)],
        None => seq![written],
    }
}

/// Whether the test was made on the path `c` and said `answer`.
pub open spec fn tested<F: Fn(&String) -> bool>(is_file: F, c: Seq<char>, answer: bool) -> bool {
    exists|p: &String| #![trigger is_file.ensures((p,), answer)] p@ == c && is_file.ensures((p,), answer)
}

/// The first candidate for a file of a recording that is a file.
pub fn resolve_audio_path<F: Fn(&String) -> bool>(
    style: PathStyle,
    project_path: &str,
    audio_file: &str,
    is_file: F,
) -> (r: Option<String>)
    requires
        forall|p: &String| is_file.requires((p,)),
    ensures
        ({
            let c = audio_candidates(style, project_path@, audio_file@);
            match r {
                Some(p) => exists|i: int|
                    0 <= i < c.len() && #[trigger] c[i] == p@ && tested(is_file, c[i], true) && (forall|
                        j: int,
                    |
                        0 <= j < i ==> tested(is_file, #[trigger] c[j], false)),
                None => forall|j: int| 0 <= j < c.len() ==> tested(is_file, #[trigger] c[j], false),
            }
        }),
{
    let ghost c = audio_candidates(style, project_path@, audio_file@);
    let dir = match path_parent(style, project_path) {
        Some(d) => d,
        None => String::from_str("."),
    };
    let written = if absolute(style, audio_file) {
        String::from_str(audio_file)
    } else {
        join_path(style, dir.as_str(), audio_file)
    };
    assert(c[0] == written@);
    if is_file(&written) {
        assert(tested(is_file, c[0], true));
        return Some(written);
    }
    assert(tested(is_file, c[0], false));
    if let Some(name) = path_file_name(style, audio_file) {
        let near = join_path(style, dir.as_str(), name.as_str());
        assert(c[1] == near@);
        if is_file(&near) {
            assert(tested(is_file, c[1], true));
            return Some(near);
        }
        assert(tested(is_file, c[1], false));
    }
    None
}

/// How a project file refers to a file of its recording: by the bare name
/// where they share a directory, otherwise by the full path.
pub open spec fn reference(
    style: PathStyle,
    project_path: Seq<char>,
    audio_path: Seq<char>,
) -> Seq<char> {
    if path::same_parent(
        style,
        path::parent(style, project_path),
        path::parent(style, audio_path),
    ) {
        match path::file_name(style, audio_path) {
            Some(name) => name,
            None => Seq::empty(),
        }
    } else {
        audio_path
    }
}

/// How a project file refers to a file of its recording.
pub fn audio_reference(style: PathStyle, project_path: &str, audio_path: &str) -> (r: String)
    ensures
        r@ == reference(style, project_path@, audio_path@),
{
    let a = path_parent(style, project_path);
    let b = path_parent(style, audio_path);
    if equal_parents(style, &a, &b) {
        match path_file_name(style, audio_path) {
            Some(name) => name,
            None => {
                let none = String::new();
                assert(none@ =~= Seq::empty());
                none
            },
        }
    } else {
        String::from_str(audio_path)
    }
}

/// A project finds its recording again: where a file sits next to the project
/// file, or is named by an absolute path, the place that is looked at first is
/// that file.
pub proof fn law_reference_found_again(
    style: PathStyle,
    project_path: Seq<char>,
    audio_path: Seq<char>,
)
    requires
        path::file_name(style, audio_path) is Some,
        ({
            let dir = path::parent(style, project_path);
            if path::same_parent(style, dir, path::parent(style, audio_path)) {
                path::holds_name(style, dir->0, path::file_name(style, audio_path)->0)
            } else {
                path::is_absolute(style, audio_path)
            }
        }),
    ensures
        path::same_path(
            style,
            audio_candidates(style, project_path, reference(style, project_path, audio_path))[0],
            audio_path,
        ),
{
    let dir = path::parent(style, project_path);
    if path::same_parent(style, dir, path::parent(style, audio_path)) {
        path::law_parent_components(style, audio_path);
        let name = path::file_name(style, audio_path)->0;
        if style == PathStyle::Unix {
            assert forall|i: int| 0 <= i < name.len() implies !path::is_separator(
                style,
                #[trigger] name[i],
            ) by {
                assert(!path::separates(path::Separators::Slash, name[i]));
            }
        }
        path::law_joined_components(style, dir->0, name);
        assert(!path::is_separator(style, name[0]));
    }
}

/// The name of the project of a recording whose first file lies in `dir`.
pub open spec fn sidecar_name(
    style: PathStyle,
    files: Seq<Seq<char>>,
    dir: Seq<char>,
) -> Seq<char> {
    let name = if files.len() > 1 {
        path::file_name(style, dir)
    } else {
        path::file_stem(style, files[0])
    };
    or_tape(name) + PROJECT_SUFFIX@
}

proof fn lemma_unix_name(p: Seq<char>)
    ensures
        path::file_name(PathStyle::Unix, p) matches Some(n) ==> !n.contains('/'),
        path::file_stem(PathStyle::Unix, p) matches Some(n) ==> !n.contains('/'),
{
    if let Some(n) = path::file_name(PathStyle::Unix, p) {
        path::law_parent_components(PathStyle::Unix, p);
        assert forall|i: int| 0 <= i < n.len() implies n[i] != '/' by {
            assert(!path::separates(path::Separators::Slash, n[i]));
        }
        path::lemma_dot_fits(n);
        let stem = path::file_stem(PathStyle::Unix, p)->0;
        assert forall|i: int| 0 <= i < stem.len() implies stem[i] != '/' by {
            assert(stem[i] == n[i]);
            assert(n.contains(n[i]));
        }
    }
}

/// The project of a recording is saved in the directory of its first file, and
/// refers to that file by its bare name.
pub proof fn law_sidecar_next_to_recording(style: PathStyle, files: Seq<Seq<char>>)
    requires
        files.len() > 0,
        path::file_name(style, files[0]) is Some,
        ({
            let dir = path::parent(style, files[0])->0;
            path::holds_name(style, dir, sidecar_name(style, files, dir))
        }),
    ensures
        path::same_parent(
            style,
            path::parent(style, sidecar(style, files)),
            path::parent(style, files[0]),
        ),
        Some(reference(style, sidecar(style, files), files[0])) == path::file_name(
            style,
            files[0],
        ),
{
    path::law_parent_components(style, files[0]);
    let dir = path::parent(style, files[0])->0;
    let name = sidecar_name(style, files, dir);
    let saved = path::joined(style, dir, name);
    assert(saved == sidecar(style, files));
    reveal_strlit(".mtsplit.json");
    reveal_strlit("tape");
    assert(name.len() > 2);
    if style == PathStyle::Unix {
        lemma_unix_name(files[0]);
        lemma_unix_name(dir);
        let front = name.take(name.len() - PROJECT_SUFFIX@.len());
        assert forall|i: int| 0 <= i < name.len() implies !path::is_separator(
            style,
            #[trigger] name[i],
        ) by {
            if i < front.len() {
                assert(name[i] == front[i]);
            }
        }
    }
    path::law_joined_components(style, dir, name);
    assert(path::body(style, saved).last() == name);
    path::law_parent_components(style, saved);
    let up = path::components(style, path::parent(style, saved)->0);
    assert(up.push(name).drop_last() =~= up);
    assert(path::components(style, dir).push(name).drop_last() =~= path::components(style, dir));
}

/// Whether two projects differ in the ids of their songs at most, which a
/// project file leaves out.
pub open spec fn same_work(p: ProjectView, q: ProjectView) -> bool {
    &&& q == (ProjectView { songs: q.songs, ..p })
    &&& q.songs.len() == p.songs.len()
    &&& forall|i: int|
        0 <= i < p.songs.len() ==> #[trigger] q.songs[i] == (SongView {
            id: q.songs[i].id,
            ..p.songs[i]
        })
}

/// A project that was saved and read is the same work: `q` is what the file
/// gave of `p`. Once its songs are numbered all but the ids is as it was, and
/// the ids are the places in the list.
pub proof fn law_read_project_is_same_work(p: ProjectView, q: ProjectView)
    requires
        same_work(p, q),
        p.songs.len() <= u64::MAX,
    ensures
        ({
            let r = ProjectView { songs: numbered(q.songs), ..q };
            &&& same_work(p, r)
            &&& r.songs == numbered(p.songs)
            &&& forall|i: int| 0 <= i < r.songs.len() ==> (#[trigger] r.songs[i]).id == i
        }),
{
    let r = ProjectView { songs: numbered(q.songs), ..q };
    assert forall|i: int| 0 <= i < p.songs.len() implies #[trigger] r.songs[i] == (SongView {
        id: r.songs[i].id,
        ..p.songs[i]
    }) by {
        assert(q.songs[i].title == p.songs[i].title);
    }
    assert forall|i: int| 0 <= i < p.songs.len() implies numbered(q.songs)[i] == numbered(
        p.songs,
    )[i] by {
        assert(q.songs[i].title == p.songs[i].title);
    }
    assert(numbered(q.songs) =~= numbered(p.songs));
}

/// How a project file refers to all files of its recording.
pub open spec fn references(
    style: PathStyle,
    project_path: Seq<char>,
    files: Seq<Seq<char>>,
) -> Seq<Seq<char>> {
    files.map_values(|f: Seq<char>| reference(style, project_path, f))
}

/// How a project file refers to all files of its recording.
pub fn audio_references(style: PathStyle, project_path: &str, files: &Vec<String>) -> (r: Vec<
    String,
>)
    ensures
        text::texts(r@) == references(style, project_path@, text::texts(files@)),
{
    let mut out: Vec<String> = Vec::new();
    let mut i: usize = 0;
    while i < files.len()
        invariant
            i <= files.len(),
            text::texts(out@) == references(
                style,
                project_path@,
                text::texts(files@.take(i as int)),
            ),
        decreases files.len() - i,
    {
        let name = audio_reference(style, project_path, files[i].as_str());
        let ghost before = out@;
        out.push(name);
        proof {
            assert(text::texts(out@) =~= text::texts(before).push(name@));
            assert(references(style, project_path@, text::texts(files@.take(i + 1))) =~= references(
                style,
                project_path@,
                text::texts(files@.take(i as int)),
            ).push(name@));
        }
        i += 1;
    }
    assert(files@.take(files@.len() as int) =~= files@);
    out
}

/// A track is heard in the frames of the song that are behind its own start and
/// before its own end, where the song uses it and such frames are left.
pub proof fn law_track_is_heard_in_its_range(song: SongView, ch: int, start: usize, end: usize)
    requires
        0 <= ch < song.tracks.len(),
        song.start <= song.end,
        mix::runs(song, ch, start, end),
    ensures
        song.tracks[ch].active && start < end ==> song.range(ch) == Some((start, end)),
        !song.tracks[ch].active || end <= start ==> song.range(ch) is None,
{
}

/// The files of a recording are those that the project lists, or the single one that
/// an older project names.
pub proof fn law_project_names_its_files(p: ProjectView)
    ensures
        p.audio_files.len() > 0 ==> p.recording() == p.audio_files,
        p.audio_files.len() == 0 && p.audio_file.len() > 0 ==> p.recording() == seq![p.audio_file],
        p.audio_files.len() == 0 && p.audio_file.len() == 0 ==> p.recording().len() == 0,
{
}

/// A project refers to a file in its own directory by the bare name, and to any other
/// by its whole path.
pub proof fn law_reference_is_name_or_path(
    style: PathStyle,
    project_path: Seq<char>,
    audio_path: Seq<char>,
)
    requires
        path::file_name(style, audio_path) is Some,
        path::parent(style, project_path) is Some,
        path::parent(style, audio_path) is Some,
    ensures
        path::components(style, path::parent(style, project_path)->0) == path::components(
            style,
            path::parent(style, audio_path)->0,
        ) ==> reference(style, project_path, audio_path) == path::file_name(style, audio_path)->0,
        path::components(style, path::parent(style, project_path)->0) != path::components(
            style,
            path::parent(style, audio_path)->0,
        ) ==> reference(style, project_path, audio_path) == audio_path,
{
}

/// A file of a recording is looked for where the project says, seen from the directory
/// of the project, and then by its bare name in that directory; nowhere else.
pub proof fn law_recording_is_looked_for(
    style: PathStyle,
    project_path: Seq<char>,
    audio_file: Seq<char>,
    dir: Seq<char>,
    name: Seq<char>,
)
    requires
        path::parent(style, project_path) == Some(dir),
        path::file_name(style, audio_file) == Some(name),
    ensures
        ({
            let places = audio_candidates(style, project_path, audio_file);
            &&& places.len() == 2
            &&& path::is_absolute(style, audio_file) ==> places[0] == audio_file
            &&& !path::is_absolute(style, audio_file) ==> places[0] == path::joined(
                style,
                dir,
                audio_file,
            )
            &&& places[1] == path::joined(style, dir, name)
        }),
{
}

/// The project of a recording of one file has the name of that file, with its
/// extension replaced by `.mtsplit.json`; that of several files has the name of their
/// directory.
pub proof fn law_sidecar_is_named_after_recording(style: PathStyle, files: Seq<Seq<char>>)
    requires
        files.len() > 0,
        path::file_name(style, files[0]) is Some,
        path::parent(style, files[0]) is Some,
    ensures
        ({
            let dir = path::parent(style, files[0])->0;
            &&& files.len() == 1 ==> sidecar(style, files) == path::joined(
                style,
                dir,
                path::file_stem(style, files[0])->0 + ".mtsplit.json"@,
            )
            &&& files.len() > 1 && path::file_name(style, dir) is Some ==> sidecar(style, files)
                == path::joined(style, dir, path::file_name(style, dir)->0 + ".mtsplit.json"@)
            &&& files.len() > 1 && path::file_name(style, dir) is None ==> sidecar(style, files)
                == path::joined(style, dir, "tape"@ + ".mtsplit.json"@)
        }),
{
}

/// Tracks without names are counted through from one on.
pub proof fn law_plain_names_count(channels: nat, ch: int)
    requires
        0 <= ch < channels,
    ensures
        plain_names(channels).len() == channels,
        plain_names(channels)[ch] == "Track "@ + text::decimal((ch + 1) as nat),
{
}

}
