//! The editor: what is loaded, the songs and their tracks, what is selected,
//! playing and being exported. Every message moves it from one state to the
//! next; what has to be done outside is put into a list of effects.

use crate::export::song_file_stem;
use crate::formats::{MixFormat, StemFormat, FLAC_MAX_CHANNELS};
use crate::message;
use crate::message::{Effect, Message, Tape, TimeField};
use crate::mix;
use crate::mix::{flat_mixes, song_mixes, TrackMix};
use crate::natural::order_files;
use crate::path;
use crate::path::{equal_paths, path_extension, path_file_name, path_parent, PathStyle};
use crate::project;
use crate::project::{
    audio_references, copy_songs, keep_inside, plain_name, sidecar_path, Project, ProjectView, Song,
    SongView, TrackSettings,
};
use crate::single::{Single, ONE_BITS, ZERO_BITS};
use crate::songs;
use crate::songs::{
    find_song, find_track, put_end, put_start, put_title, put_track, remove_song, sort_songs,
};
use crate::state;
use crate::state::{AppState, Area, DEFAULT_DEVICE, NEW_SONG_SECS, USUAL_RATE};
use crate::text;
use crate::text::{copy_texts, decimal_text, lower_text, same_text, trim};
use crate::time;
use crate::time::parse_time;
use vstd::prelude::*;
use vstd::string::*;

verus! {

/// The editor.
#[derive(Debug)]
pub struct App {
    /// How paths are written.
    pub style: PathStyle,
    pub tape: Option<Tape>,
    pub loading: bool,
    pub exporting: bool,
    pub project_path: Option<String>,
    /// A project that waits for its recording to be loaded.
    pub pending_project: Option<Project>,
    /// Whether there is something to save.
    pub dirty: bool,
    pub track_names: Vec<String>,
    pub songs: Vec<Song>,
    pub next_id: u64,
    pub selected: Option<u64>,
    /// A time that is being typed.
    pub draft: Option<(TimeField, String)>,
    pub playhead: usize,
    pub playing: bool,
    /// Where the playback started.
    pub play_anchor: Option<usize>,
    /// Where the playback stops.
    pub play_end: usize,
    pub selected_device: String,
    pub mix_format: MixFormat,
    pub stem_format: StemFormat,
    pub status: String,
    /// What is to be done outside.
    pub effects: Vec<Effect>,
}

impl View for App {
    type V = AppState;

    open spec fn view(&self) -> AppState {
        AppState {
            style: self.style,
            tape: match self.tape {
                Some(t) => Some(t@),
                None => None,
            },
            loading: self.loading,
            exporting: self.exporting,
            project_path: text::opt_text(self.project_path),
            pending_project: match self.pending_project {
                Some(p) => Some(p@),
                None => None,
            },
            dirty: self.dirty,
            track_names: text::texts(self.track_names@),
            songs: project::songs_view(self.songs@),
            next_id: self.next_id,
            selected: self.selected,
            draft: match self.draft {
                Some((f, t)) => Some((f, t@)),
                None => None,
            },
            playhead: self.playhead,
            playing: self.playing,
            play_anchor: self.play_anchor,
            play_end: self.play_end,
            selected_device: self.selected_device@,
            mix_format: self.mix_format,
            stem_format: self.stem_format,
            status: self.status@,
            effects: message::effects_view(self.effects@),
        }
    }
}

proof fn lemma_changed_sound(s: AppState)
    requires
        s.sound(),
    ensures
        s.changed().sound(),
        s.changed().songs == songs::by_start(s.songs),
        s.changed().tape == s.tape,
{
    songs::lemma_by_start_from(s.songs);
    songs::law_songs_in_tape_order(s.songs);
    let t = s.changed();
    assert forall|i: int| 0 <= i < t.songs.len() implies t.keeps(#[trigger] t.songs[i]) by {
        assert(s.songs.contains(songs::by_start(s.songs)[i]));
        let k = choose|k: int| 0 <= k < s.songs.len() && s.songs[k] == t.songs[i];
        assert(s.keeps(s.songs[k]));
    }
}

impl App {
    fn emit(&mut self, e: Effect)
        ensures
            final(self)@ == old(self)@.emit(e@),
            old(self)@.sound() ==> final(self)@.sound(),
    {
        let ghost v = e@;
        self.effects.push(e);
        proof {
            assert(message::effects_view(self.effects@) =~= message::effects_view(
                old(self).effects@,
            ).push(v));
            assert(self@ =~= old(self)@.emit(v));
        }
    }

    fn frames(&self) -> (r: usize)
        ensures
            r == self@.frames(),
    {
        match &self.tape {
            Some(t) => t.frames,
            None => 0,
        }
    }

    fn channels(&self) -> (r: usize)
        ensures
            r == self@.channels(),
    {
        match &self.tape {
            Some(t) => t.channels,
            None => 0,
        }
    }

    fn sample_rate(&self) -> (r: u32)
        ensures
            r == self@.rate(),
    {
        match &self.tape {
            Some(t) => t.sample_rate,
            None => USUAL_RATE,
        }
    }

    /// The shortest song: half a second.
    pub fn min_range(&self) -> (r: usize)
        ensures
            r == self@.min_range(),
    {
        (self.sample_rate() / 2) as usize
    }

    /// Where the selected song stands in the list, if there is one.
    pub fn selected_index(&self) -> (r: Option<usize>)
        ensures
            r is Some <==> self@.selected_song() is Some,
            r matches Some(p) ==> p < self.songs@.len() && self@.selected_song() == Some(
                self.songs@[p as int]@,
            ) && p == songs::place_of(self@.songs, self.selected->0),
    {
        match self.selected {
            Some(id) => {
                let p: usize = find_song(&self.songs, id);
                if p < self.songs.len() {
                    assert(self@.songs[p as int] == self.songs@[p as int]@);
                    Some(p)
                } else {
                    None
                }
            },
            None => None,
        }
    }

    /// What to play: the selected song with its mix, or the whole tape.
    fn play_plan(&self) -> (r: (usize, usize, Vec<TrackMix>))
        requires
            self@.sound(),
        ensures
            (r.0, r.1, r.2@) == self@.plan(),
    {
        let frames: usize = self.frames();
        match self.selected_index() {
            Some(p) => {
                proof {
                    songs::lemma_place(self@.songs, self.selected->0);
                    assert(self@.keeps(self@.songs[p as int]));
                }
                let song = &self.songs[p];
                let end: usize = if song.end < frames {
                    song.end
                } else {
                    frames
                };
                (song.start, end, song_mixes(song))
            },
            None => (0, frames, flat_mixes(self.channels(), frames)),
        }
    }

    fn start_playback(&mut self)
        requires
            old(self)@.sound(),
        ensures
            final(self)@ == old(self)@.started(),
            final(self)@.sound(),
    {
        if self.tape.is_none() {
            return;
        }
        let (from, to, mixes): (usize, usize, Vec<TrackMix>) = self.play_plan();
        let start: usize = if self.playhead >= from && self.playhead < to {
            self.playhead
        } else {
            from
        };
        self.emit(Effect::Play { start, end: to, mixes });
        self.playhead = start;
        self.playing = true;
        self.play_anchor = Some(start);
        self.play_end = to;
        assert(self@ =~= old(self)@.started());
    }

    fn stop_playback(&mut self)
        ensures
            final(self)@ == old(self)@.stopped(),
            old(self)@.sound() ==> final(self)@.sound(),
    {
        self.emit(Effect::StopPlayer);
        self.playing = false;
        self.play_anchor = None;
        assert(self@ =~= old(self)@.stopped());
    }

    /// Hands the mix to the playback that is running.
    fn refresh_live_mix(&mut self)
        requires
            old(self)@.sound(),
        ensures
            final(self)@ == old(self)@.refreshed(),
            final(self)@.sound(),
    {
        if self.playing {
            let (_, _, mixes) = self.play_plan();
            self.emit(Effect::SetMix(mixes));
        }
    }

    /// After a change to the songs.
    fn song_changed(&mut self)
        requires
            old(self)@.sound(),
        ensures
            final(self)@ == old(self)@.changed(),
            final(self)@.sound(),
    {
        proof {
            lemma_changed_sound(self@);
        }
        sort_songs(&mut self.songs);
        self.dirty = true;
        assert(self@ =~= (AppState {
            songs: songs::by_start(old(self)@.songs),
            dirty: true,
            ..old(self)@
        }));
        self.emit(Effect::Redraw);
        proof {
            assert forall|i: int| 0 <= i < self@.songs.len() implies self@.keeps(
                #[trigger] self@.songs[i],
            ) by {
                assert(old(self)@.changed().keeps(old(self)@.changed().songs[i]));
            }
        }
        self.refresh_live_mix();
    }

    fn set_song_start(&mut self, id: u64, frame: usize)
        requires
            old(self)@.sound(),
        ensures
            final(self)@ == old(self)@.song_start_set(id, frame),
            final(self)@.sound(),
    {
        let min_range: usize = self.min_range();
        let p: usize = find_song(&self.songs, id);
        if p < self.songs.len() {
            let ghost s = self@.songs[p as int];
            assert(s == self.songs@[p as int]@);
            assert(self@.keeps(self@.songs[p as int]));
            let end: usize = self.songs[p].end;
            let limit: usize = if end > min_range {
                end - min_range
            } else {
                0
            };
            let start: usize = if frame < limit {
                frame
            } else {
                limit
            };
            put_start(&mut self.songs, id, start);
            proof {
                let mid = AppState { songs: songs::with_start(old(self)@.songs, id, start), ..old(self)@ };
                assert(self@ =~= mid);
                assert forall|i: int| 0 <= i < mid.songs.len() implies mid.keeps(
                    #[trigger] mid.songs[i],
                ) by {
                    assert(old(self)@.keeps(old(self)@.songs[i]));
                }
            }
        }
        self.song_changed();
    }

    fn set_song_end(&mut self, id: u64, frame: usize)
        requires
            old(self)@.sound(),
        ensures
            final(self)@ == old(self)@.song_end_set(id, frame),
            final(self)@.sound(),
    {
        let min_range: usize = self.min_range();
        let frames: usize = self.frames();
        let p: usize = find_song(&self.songs, id);
        if p < self.songs.len() {
            let ghost s = self@.songs[p as int];
            assert(s == self.songs@[p as int]@);
            assert(self@.keeps(self@.songs[p as int]));
            let wanted: usize = if frame < frames {
                frame
            } else {
                frames
            };
            let limit: usize = self.songs[p].start + min_range;
            let end: usize = if wanted > limit {
                wanted
            } else {
                limit
            };
            put_end(&mut self.songs, id, end);
            proof {
                let mid = AppState { songs: songs::with_end(old(self)@.songs, id, end), ..old(self)@ };
                assert(self@ =~= mid);
                assert forall|i: int| 0 <= i < mid.songs.len() implies mid.keeps(
                    #[trigger] mid.songs[i],
                ) by {
                    assert(old(self)@.keeps(old(self)@.songs[i]));
                }
            }
        }
        self.song_changed();
    }

    /// Replaces what a song says of a track.
    fn put(&mut self, id: u64, ch: usize, t: TrackSettings)
        requires
            old(self)@.sound(),
        ensures
            final(self)@ == old(self)@.track_put(id, ch, t),
            final(self)@.sound(),
    {
        put_track(&mut self.songs, id, ch, t);
        proof {
            let next = old(self)@.track_put(id, ch, t);
            assert(self@ =~= next);
            assert forall|i: int| 0 <= i < next.songs.len() implies next.keeps(
                #[trigger] next.songs[i],
            ) by {
                assert(old(self)@.keeps(old(self)@.songs[i]));
            }
        }
    }

    fn set_track_start(&mut self, id: u64, ch: usize, value: Option<usize>)
        requires
            old(self)@.sound(),
        ensures
            final(self)@ == old(self)@.track_start_set(id, ch, value),
            final(self)@.sound(),
    {
        let p: usize = find_song(&self.songs, id);
        if let Some(t) = find_track(&self.songs, id, ch) {
            proof {
                songs::lemma_place(self@.songs, id);
                assert(self@.songs[p as int] == self.songs@[p as int]@);
                assert(self@.keeps(self@.songs[p as int]));
            }
            let s_start: usize = self.songs[p].start;
            let s_end: usize = self.songs[p].end;
            let end: usize = match t.end {
                Some(e) => keep_inside(e, s_start, s_end),
                None => s_end,
            };
            let limit: usize = if end > 1 {
                end - 1
            } else {
                0
            };
            let start: Option<usize> = match value {
                Some(f) => if f > s_start {
                    Some(
                        if f < limit {
                            f
                        } else {
                            limit
                        },
                    )
                } else {
                    None
                },
                None => None,
            };
            self.put(id, ch, TrackSettings { start, ..t });
        }
        self.song_changed();
    }

    fn set_track_end(&mut self, id: u64, ch: usize, value: Option<usize>)
        requires
            old(self)@.sound(),
        ensures
            final(self)@ == old(self)@.track_end_set(id, ch, value),
            final(self)@.sound(),
    {
        let p: usize = find_song(&self.songs, id);
        if let Some(t) = find_track(&self.songs, id, ch) {
            proof {
                songs::lemma_place(self@.songs, id);
                assert(self@.songs[p as int] == self.songs@[p as int]@);
                assert(self@.keeps(self@.songs[p as int]));
            }
            let s_start: usize = self.songs[p].start;
            let s_end: usize = self.songs[p].end;
            let start: usize = match t.start {
                Some(f) => keep_inside(f, s_start, s_end),
                None => s_start,
            };
            let limit: usize = start + 1;
            let end: Option<usize> = match value {
                Some(f) => if f < s_end {
                    Some(
                        if f > limit {
                            f
                        } else {
                            limit
                        },
                    )
                } else {
                    None
                },
                None => None,
            };
            self.put(id, ch, TrackSettings { end, ..t });
        }
        self.song_changed();
    }

    fn select_song(&mut self, id: Option<u64>)
        requires
            old(self)@.sound(),
        ensures
            final(self)@ == old(self)@.song_selected(id),
            final(self)@.sound(),
    {
        if self.selected == id {
            return;
        }
        self.stop_playback();
        self.selected = id;
        self.draft = None;
        assert(self@ =~= (AppState { selected: id, draft: None, ..old(self)@.stopped() }));
        if let Some(p) = self.selected_index() {
            let start: usize = self.songs[p].start;
            let ghost before = self@;
            self.playhead = start;
            assert(self@ =~= (AppState { playhead: start, ..before }));
            self.emit(Effect::ScrollTo(start));
        }
        self.emit(Effect::Redraw);
    }

    fn add_song(&mut self)
        requires
            old(self)@.sound(),
            old(self)@.next_id < u64::MAX,
            old(self)@.songs.len() < usize::MAX,
        ensures
            final(self)@ == old(self)@.song_added(),
            final(self)@.sound(),
    {
        let frames: usize = self.frames();
        if frames == 0 {
            return;
        }
        let min_range: usize = self.min_range();
        let latest: usize = if frames > min_range {
            frames - min_range
        } else {
            0
        };
        let start: usize = if self.playhead < latest {
            self.playhead
        } else {
            latest
        };
        let full: usize = start + NEW_SONG_SECS * self.sample_rate() as usize;
        let end: usize = if full < frames {
            full
        } else {
            frames
        };
        let id: u64 = self.next_id;
        let channels: usize = self.channels();
        let mut title = String::from_str("Song ");
        assert(self.songs@.len() == self@.songs.len());
        title.append(decimal_text((self.songs.len() + 1) as u64).as_str());
        let song = Song::new(id, title, start, end, channels);
        assert(song@ =~= old(self)@.new_song());
        let ghost v = song@;
        self.songs.push(song);
        self.next_id = id + 1;
        proof {
            let next = AppState {
                songs: old(self)@.songs.push(v),
                next_id: (id + 1) as u64,
                ..old(self)@
            };
            assert(project::songs_view(self.songs@) =~= old(self)@.songs.push(v));
            assert(self@ =~= next);
            assert forall|i: int| 0 <= i < next.songs.len() implies next.keeps(
                #[trigger] next.songs[i],
            ) by {
                if i < old(self)@.songs.len() {
                    assert(old(self)@.keeps(old(self)@.songs[i]));
                }
            }
        }
        self.song_changed();
        self.select_song(Some(id));
        self.emit(Effect::ReportAdded(start));
    }

    fn delete_song(&mut self, id: u64)
        requires
            old(self)@.sound(),
        ensures
            final(self)@ == old(self)@.song_deleted(id),
            final(self)@.sound(),
    {
        if self.selected == Some(id) {
            self.stop_playback();
            self.selected = None;
            assert(self@ =~= (AppState { selected: None, ..old(self)@.stopped() }));
        }
        let ghost mid = self@;
        let kept = copy_songs(&self.songs);
        self.songs = remove_song(kept, id);
        self.draft = None;
        proof {
            let next = AppState { songs: songs::without(mid.songs, id), draft: None, ..mid };
            assert(self@ =~= next);
            songs::law_delete_removes(mid.songs, id);
            assert forall|i: int| 0 <= i < next.songs.len() implies next.keeps(
                #[trigger] next.songs[i],
            ) by {
                assert(mid.songs.contains(next.songs[i]));
                let k = choose|k: int| 0 <= k < mid.songs.len() && mid.songs[k] == next.songs[i];
                assert(old(self)@.keeps(old(self)@.songs[k]));
            }
        }
        self.song_changed();
    }

    fn set_title(&mut self, id: u64, title: String)
        requires
            old(self)@.sound(),
        ensures
            final(self)@ == old(self)@.song_titled(id, title@),
            final(self)@.sound(),
    {
        let ghost t = title@;
        put_title(&mut self.songs, id, title);
        self.dirty = true;
        proof {
            let next = AppState {
                songs: songs::with_title(old(self)@.songs, id, t),
                dirty: true,
                ..old(self)@
            };
            assert(self@ =~= next);
            assert forall|i: int| 0 <= i < next.songs.len() implies next.keeps(
                #[trigger] next.songs[i],
            ) by {
                assert(old(self)@.keeps(old(self)@.songs[i]));
            }
        }
        self.emit(Effect::Redraw);
    }

    /// After a change to the mix of a track.
    fn mix_changed(&mut self)
        requires
            old(self)@.sound(),
        ensures
            final(self)@ == old(self)@.mixed(),
            final(self)@.sound(),
    {
        self.dirty = true;
        assert(self@ =~= (AppState { dirty: true, ..old(self)@ }));
        self.refresh_live_mix();
    }
}

impl App {
    fn apply_time(&mut self, field: TimeField, frame: Option<usize>)
        requires
            old(self)@.sound(),
        ensures
            final(self)@ == old(self)@.time_applied(field, frame),
            final(self)@.sound(),
    {
        match (field, frame) {
            (TimeField::SongStart(id), Some(f)) => self.set_song_start(id, f),
            (TimeField::SongEnd(id), Some(f)) => self.set_song_end(id, f),
            (TimeField::TrackStart(id, ch), f) => self.set_track_start(id, ch, f),
            (TimeField::TrackEnd(id, ch), f) => self.set_track_end(id, ch, f),
            _ => {},
        }
    }

    fn report_no_time(&mut self, typed: &str)
        ensures
            final(self)@ == (AppState { status: state::no_time_message(typed@), ..old(self)@ }),
    {
        let mut message = String::from_str("\"");
        message.append(typed);
        message.append("\" is not a time. Use mm:ss.mmm or seconds.");
        self.status = message;
        assert(self@ =~= (AppState { status: state::no_time_message(typed@), ..old(self)@ }));
    }

    fn commit_time(&mut self, field: TimeField)
        requires
            old(self)@.sound(),
        ensures
            final(self)@ == old(self)@.time_committed(field),
            final(self)@.sound(),
    {
        let (f, draft): (TimeField, String) = match self.draft.take() {
            Some(d) => d,
            None => {
                assert(self@ =~= old(self)@);
                return;
            },
        };
        assert(self@ =~= (AppState { draft: None, ..old(self)@ }));
        if f != field {
            return;
        }
        let typed = trim(draft.as_str());
        let is_override = match field {
            TimeField::TrackStart(_, _) => true,
            TimeField::TrackEnd(_, _) => true,
            _ => false,
        };
        if typed.as_str().unicode_len() == 0 && is_override {
            self.apply_time(field, None);
            return;
        }
        match parse_time(typed.as_str()) {
            Some(parts) => self.emit(Effect::ReadTime { field, text: typed, parts }),
            None => self.report_no_time(typed.as_str()),
        }
    }

    fn time_was_read(&mut self, field: TimeField, typed: String, frame: Option<usize>)
        requires
            old(self)@.sound(),
        ensures
            final(self)@ == old(self)@.time_read(field, typed@, frame),
            final(self)@.sound(),
    {
        match frame {
            Some(_) => self.apply_time(field, frame),
            None => self.report_no_time(typed.as_str()),
        }
    }

    fn rename_track(&mut self, ch: usize, name: String)
        requires
            old(self)@.sound(),
        ensures
            final(self)@ == old(self)@.track_named(ch, name@),
            final(self)@.sound(),
    {
        let ghost n = name@;
        if ch < self.track_names.len() {
            self.track_names[ch] = name;
            assert(text::texts(self.track_names@) =~= old(self)@.track_names.update(ch as int, n));
        }
        self.dirty = true;
        assert(self@ =~= (AppState {
            track_names: if ch < old(self)@.track_names.len() {
                old(self)@.track_names.update(ch as int, n)
            } else {
                old(self)@.track_names
            },
            dirty: true,
            ..old(self)@
        }));
        self.emit(Effect::Redraw);
    }

    fn set_playhead(&mut self, frame: usize)
        requires
            old(self)@.sound(),
        ensures
            final(self)@ == old(self)@.playhead_set(frame),
            final(self)@.sound(),
    {
        self.playhead = frame;
        assert(self@ =~= (AppState { playhead: frame, ..old(self)@ }));
        if self.playing {
            self.start_playback();
        }
    }

    fn stop_at_start(&mut self)
        requires
            old(self)@.sound(),
        ensures
            final(self)@ == old(self)@.stopped_at_start(),
            final(self)@.sound(),
    {
        self.stop_playback();
        if let Some(p) = self.selected_index() {
            let start: usize = self.songs[p].start;
            let ghost before = self@;
            self.playhead = start;
            assert(self@ =~= (AppState { playhead: start, ..before }));
        }
    }

    fn seek(&mut self, frame: usize)
        requires
            old(self)@.sound(),
        ensures
            final(self)@ == old(self)@.seeked(frame),
            final(self)@.sound(),
    {
        if self.tape.is_some() {
            let frames: usize = self.frames();
            self.set_playhead(
                if frame < frames {
                    frame
                } else {
                    frames
                },
            );
        }
    }

    fn tick(&mut self, elapsed: usize)
        requires
            old(self)@.sound(),
            old(self)@.play_anchor matches Some(a) ==> a + elapsed <= usize::MAX,
        ensures
            final(self)@ == old(self)@.ticked(elapsed),
            final(self)@.sound(),
    {
        if self.tape.is_none() {
            return;
        }
        if let Some(anchor) = self.play_anchor {
            let pos: usize = anchor + elapsed;
            if pos >= self.play_end {
                self.playhead = self.play_end;
                assert(self@ =~= (AppState { playhead: old(self)@.play_end, ..old(self)@ }));
                self.stop_playback();
            } else {
                self.playhead = pos;
                assert(self@ =~= (AppState { playhead: pos, ..old(self)@ }));
                self.emit(Effect::ScrollTo(pos));
            }
        }
    }

    fn play_song(&mut self, id: u64)
        requires
            old(self)@.sound(),
        ensures
            final(self)@ == old(self)@.song_played(id),
            final(self)@.sound(),
    {
        self.select_song(Some(id));
        let ghost s = self@;
        let p: usize = find_song(&self.songs, id);
        if p < self.songs.len() {
            assert(self@.songs[p as int] == self.songs@[p as int]@);
            let start: usize = self.songs[p].start;
            self.playhead = start;
            assert(self@ =~= (AppState { playhead: start, ..s }));
            self.start_playback();
        }
    }
}

fn names_project(style: PathStyle, p: &str) -> (r: bool)
    ensures
        r == state::is_project(style, p@),
{
    match path_extension(style, p) {
        Some(e) => {
            let lower = lower_text(e.as_str());
            same_text(lower.as_str(), "json")
        },
        None => false,
    }
}

fn loading_text(files: &Vec<String>) -> (r: String)
    ensures
        r@ == state::loading_message(text::texts(files@)),
{
    let mut message = String::from_str("Loading ");
    if files.len() == 1 {
        assert(text::texts(files@)[0] == files@[0]@);
        message.append(files[0].as_str());
        message.append("…");
    } else {
        assert(text::texts(files@).len() == files@.len());
        message.append(decimal_text(files.len() as u64).as_str());
        message.append(" files…");
    }
    message
}

fn missing_text(file: &str) -> (r: String)
    ensures
        r@ == state::missing_message(file@),
{
    let mut message = String::from_str("Recording \"");
    message.append(file);
    message.append("\" referenced by the project was not found next to it.");
    message
}

fn find_missing(found: &Vec<Option<String>>) -> (r: usize)
    ensures
        r == state::first_missing(found@),
        r <= found@.len(),
        forall|i: int| 0 <= i < r ==> (#[trigger] found@[i]) is Some,
{
    let mut i: usize = 0;
    assert(found@.skip(0) =~= found@);
    while i < found.len()
        invariant
            i <= found@.len(),
            state::first_missing(found@) == i + state::first_missing(found@.skip(i as int)),
            forall|k: int| 0 <= k < i ==> (#[trigger] found@[k]) is Some,
        decreases found.len() - i,
    {
        assert(found@.skip(i as int)[0] == found@[i as int]);
        if found[i].is_none() {
            return i;
        }
        assert(found@.skip(i as int).drop_first() =~= found@.skip(i + 1));
        i += 1;
    }
    i
}

fn paths_of(found: &Vec<Option<String>>) -> (r: Vec<String>)
    requires
        forall|i: int| 0 <= i < found@.len() ==> (#[trigger] found@[i]) is Some,
    ensures
        text::texts(r@) == state::found_paths(found@),
{
    let mut out: Vec<String> = Vec::new();
    let mut i: usize = 0;
    while i < found.len()
        invariant
            i <= found@.len(),
            forall|k: int| 0 <= k < found@.len() ==> (#[trigger] found@[k]) is Some,
            text::texts(out@) == state::found_paths(found@).take(i as int),
        decreases found.len() - i,
    {
        let ghost before = out@;
        let p = match &found[i] {
            Some(p) => p.clone(),
            None => String::new(),
        };
        assert(found@[i as int] is Some);
        out.push(p);
        proof {
            assert(text::texts(out@) =~= text::texts(before).push(p@));
            assert(text::texts(out@) =~= state::found_paths(found@).take(i + 1));
        }
        i += 1;
    }
    assert(state::found_paths(found@).take(found@.len() as int) =~= state::found_paths(found@));
    out
}

fn tape_text(t: &Tape) -> (r: String)
    ensures
        r@ == state::tape_info(t@),
{
    let mut info = String::from_str("Loaded ");
    info.append(t.name.as_str());
    info.append(" — ");
    info.append(decimal_text(t.channels as u64).as_str());
    info.append(" tracks, ");
    info.append(decimal_text(t.sample_rate as u64).as_str());
    info.append(" Hz, ");
    info.append(decimal_text(t.bits_per_sample as u64).as_str());
    info.append(" bit, ");
    info.append(t.duration.as_str());
    info
}

fn names_for(names: &Vec<String>, channels: usize) -> (r: Vec<String>)
    ensures
        text::texts(r@) == state::project_names(text::texts(names@), channels as nat),
{
    let ghost goal = state::project_names(text::texts(names@), channels as nat);
    let mut out: Vec<String> = Vec::new();
    let mut i: usize = 0;
    while i < channels
        invariant
            i <= channels,
            goal == state::project_names(text::texts(names@), channels as nat),
            text::texts(out@) == goal.take(i as int),
        decreases channels - i,
    {
        let ghost before = out@;
        let name = if i < names.len() && names[i].as_str().unicode_len() > 0 {
            names[i].clone()
        } else {
            plain_name(i)
        };
        proof {
            if i < names@.len() {
                assert(text::texts(names@)[i as int] == names@[i as int]@);
            }
            assert(name@ == goal[i as int]);
        }
        out.push(name);
        proof {
            assert(text::texts(out@) =~= text::texts(before).push(name@));
            assert(text::texts(out@) =~= goal.take(i + 1));
        }
        i += 1;
    }
    assert(goal.take(channels as int) =~= goal);
    out
}

fn cut_all(list: Vec<Song>, channels: usize, frames: usize) -> (r: Vec<Song>)
    ensures
        project::songs_view(r@) == state::cut_songs(
            project::songs_view(list@),
            list@.len(),
            channels,
            frames,
        ),
        r@.len() <= list@.len(),
{
    let ghost all = project::songs_view(list@);
    let mut out: Vec<Song> = Vec::new();
    let mut i: usize = 0;
    while i < list.len()
        invariant
            i <= list@.len(),
            all == project::songs_view(list@),
            out@.len() <= i,
            project::songs_view(out@) == state::cut_songs(all, i as nat, channels, frames),
        decreases list.len() - i,
    {
        let mut song = list[i].clone();
        assert(all[i as int] == song@);
        song.fit_channels(channels);
        let end: usize = if song.end < frames {
            song.end
        } else {
            frames
        };
        let start: usize = if song.start < end {
            song.start
        } else {
            end
        };
        song.id = i as u64;
        song.end = end;
        song.start = start;
        assert(song@ =~= state::cut_song(all[i as int], i as int, channels, frames));
        if end > start {
            let ghost before = out@;
            let ghost v = song@;
            out.push(song);
            assert(project::songs_view(out@) =~= project::songs_view(before).push(v));
        }
        i += 1;
    }
    out
}

proof fn lemma_cut_songs(songs: Seq<SongView>, n: nat, channels: usize, frames: usize)
    requires
        n <= songs.len(),
    ensures
        state::cut_songs(songs, n, channels, frames).len() <= n,
        forall|i: int|
            0 <= i < state::cut_songs(songs, n, channels, frames).len() ==> {
                let s = #[trigger] state::cut_songs(songs, n, channels, frames)[i];
                s.start < s.end <= frames
            },
    decreases n,
{
    if n > 0 {
        lemma_cut_songs(songs, (n - 1) as nat, channels, frames);
        let front = state::cut_songs(songs, (n - 1) as nat, channels, frames);
        let all = state::cut_songs(songs, n, channels, frames);
        assert forall|i: int| 0 <= i < all.len() implies ({
            let s = #[trigger] all[i];
            s.start < s.end <= frames
        }) by {
            if i < front.len() {
                assert(all[i] == front[i]);
            }
        }
    }
}

impl App {
    fn choose_files(&mut self, files: Vec<String>)
        requires
            old(self)@.sound(),
        ensures
            final(self)@ == old(self)@.files_chosen(text::texts(files@)),
            final(self)@.sound(),
    {
        assert(text::texts(files@).len() == files@.len());
        if files.len() == 0 {
            return;
        }
        assert(text::texts(files@)[0] == files@[0]@);
        if names_project(self.style, files[0].as_str()) {
            let p = files[0].clone();
            self.emit(Effect::ReadProject(p));
        } else {
            let ordered = order_files(self.style, files);
            self.pending_project = None;
            self.project_path = None;
            assert(self@ =~= (AppState { pending_project: None, project_path: None, ..old(self)@ }));
            let sidecar = sidecar_path(self.style, ordered.as_slice());
            self.emit(Effect::ProbeSidecar { sidecar, files: ordered });
        }
    }

    fn start_load(&mut self, files: Vec<String>)
        requires
            old(self)@.sound(),
        ensures
            final(self)@ == old(self)@.load_started(text::texts(files@)),
            final(self)@.sound(),
    {
        self.stop_playback();
        let ghost before = self@;
        self.loading = true;
        self.status = loading_text(&files);
        assert(self@ =~= (AppState {
            loading: true,
            status: state::loading_message(text::texts(files@)),
            ..before
        }));
        self.emit(Effect::LoadRecording(files));
    }

    fn project_was_read(
        &mut self,
        path: String,
        outcome: Result<Project, String>,
        found: Vec<Option<String>>,
    )
        requires
            old(self)@.sound(),
            outcome matches Ok(p) ==> found@.len() == p@.recording().len(),
        ensures
            final(self)@ == old(self)@.project_read(path@, outcome, found@),
            final(self)@.sound(),
    {
        match outcome {
            Err(e) => {
                self.status = e;
                assert(self@ =~= (AppState { status: e@, ..old(self)@ }));
            },
            Ok(p) => {
                let files = p.files();
                assert(text::texts(files@).len() == files@.len());
                if files.len() == 0 {
                    self.status = missing_text("");
                    assert(self@ =~= (AppState { status: state::missing_message(""@), ..old(self)@ }));
                    return;
                }
                let missing: usize = find_missing(&found);
                if missing < found.len() {
                    assert(text::texts(files@)[missing as int] == files@[missing as int]@);
                    self.status = missing_text(files[missing].as_str());
                    assert(self@ =~= (AppState {
                        status: state::missing_message(p@.recording()[missing as int]),
                        ..old(self)@
                    }));
                    return;
                }
                let ghost v = p@;
                let ghost at = path@;
                self.pending_project = Some(p);
                self.project_path = Some(path);
                assert(self@ =~= (AppState {
                    pending_project: Some(v),
                    project_path: Some(at),
                    ..old(self)@
                }));
                let paths = paths_of(&found);
                self.start_load(paths);
            },
        }
    }

    fn sidecar_was_probed(
        &mut self,
        sidecar: String,
        files: Vec<String>,
        outcome: Option<Result<Project, String>>,
    )
        requires
            old(self)@.sound(),
        ensures
            final(self)@ == old(self)@.sidecar_probed(sidecar@, text::texts(files@), outcome),
            final(self)@.sound(),
    {
        match outcome {
            None => {},
            Some(Ok(p)) => {
                let ghost v = p@;
                let ghost at = sidecar@;
                self.pending_project = Some(p);
                self.project_path = Some(sidecar);
                assert(self@ =~= (AppState {
                    pending_project: Some(v),
                    project_path: Some(at),
                    ..old(self)@
                }));
            },
            Some(Err(e)) => {
                let mut message = String::from_str("Ignoring ");
                message.append(sidecar.as_str());
                message.append(": ");
                message.append(e.as_str());
                self.status = message;
                assert(self@ =~= (AppState {
                    status: "Ignoring "@ + sidecar@ + ": "@ + e@,
                    ..old(self)@
                }));
            },
        }
        self.start_load(files);
    }

    fn apply_project(&mut self, p: Project)
        requires
            old(self)@.sound(),
            old(self)@.tape is Some,
        ensures
            final(self)@ == old(self)@.project_applied(p@),
            final(self)@.sound(),
    {
        let ghost v = p@;
        let channels: usize = self.channels();
        let frames: usize = self.frames();
        self.track_names = names_for(&p.track_names, channels);
        let ghost kept = state::cut_songs(v.songs, v.songs.len(), channels, frames);
        assert(project::songs_view(p.songs@).len() == p.songs@.len());
        let count: usize = p.songs.len();
        self.songs = cut_all(p.songs, channels, frames);
        assert(self@.songs == kept);
        assert(kept.len() == self.songs@.len());
        self.next_id = count as u64;
        self.selected = None;
        self.mix_format = match p.mix_format {
            Some(f) => f,
            None => MixFormat::default(),
        };
        self.stem_format = match p.stem_format {
            Some(f) => f,
            None => StemFormat::default(),
        };
        let ghost s = AppState {
            track_names: state::project_names(v.track_names, channels as nat),
            songs: kept,
            next_id: v.songs.len() as u64,
            selected: None,
            mix_format: match v.mix_format {
                Some(f) => f,
                None => MixFormat::Float32,
            },
            stem_format: match v.stem_format {
                Some(f) => f,
                None => StemFormat {
                    format: crate::formats::Format::Flac,
                    layout: crate::formats::StemLayout::Interleaved,
                },
            },
            ..old(self)@
        };
        proof {
            lemma_cut_songs(v.songs, v.songs.len(), channels, frames);
            assert(self@ =~= s);
            assert forall|i: int| 0 <= i < s.songs.len() implies s.keeps(#[trigger] s.songs[i]) by {
                let c = kept[i];
                assert(c.start < c.end <= frames);
            }
        }
        let first: Option<u64> = if self.songs.len() > 0 {
            assert(kept[0] == self.songs@[0]@);
            Some(self.songs[0].id)
        } else {
            None
        };
        self.select_song(first);
        let ghost t = self@;
        self.dirty = false;
        assert(self@ =~= (AppState { dirty: false, ..t }));
        self.emit(Effect::Redraw);
    }

    fn tape_was_loaded(&mut self, t: Tape)
        requires
            old(self)@.sound(),
            t.frames + NEW_SONG_SECS * t.sample_rate < usize::MAX,
        ensures
            final(self)@ == old(self)@.tape_loaded(t@),
            final(self)@.sound(),
    {
        let ghost v = t@;
        self.loading = false;
        assert(self@ =~= (AppState { loading: false, ..old(self)@ }));
        self.stop_playback();
        let ghost u = self@;
        let mut info = tape_text(&t);
        let channels: usize = t.channels;
        let names = copy_texts(&t.track_names);
        self.tape = Some(t);
        self.playhead = 0;
        self.selected = None;
        self.draft = None;
        self.songs = Vec::new();
        let pending = self.pending_project.take();
        let ghost s = AppState {
            tape: Some(v),
            playhead: 0,
            selected: None,
            draft: None,
            songs: Seq::empty(),
            pending_project: None,
            ..u
        };
        proof {
            assert(project::songs_view(self.songs@) =~= Seq::empty());
            assert(self@ =~= s);
        }
        match pending {
            Some(p) => {
                let ghost pv = p@;
                let mismatch = p.channels != channels;
                self.apply_project(p);
                let ghost applied = self@;
                info.append(" — ");
                assert(self@.songs.len() == self.songs@.len());
                info.append(decimal_text(self.songs.len() as u64).as_str());
                info.append(" songs from ");
                match &self.project_path {
                    Some(p) => info.append(p.as_str()),
                    None => info.append(""),
                }
                info.append(
                    if mismatch {
                        ". Warning: the project was made for a different track count."
                    } else {
                        ""
                    },
                );
                proof {
                    lemma_applied_keeps_path(s, pv);
                }
                self.status = info;
                assert(self@ =~= (AppState { status: info@, ..applied }));
            },
            None => {
                self.track_names = names;
                self.next_id = 0;
                self.dirty = false;
                info.append(". Press N to add a song at the playhead.");
                self.status = info;
                assert(self@ =~= (AppState {
                    track_names: v.track_names,
                    next_id: 0,
                    dirty: false,
                    status: info@,
                    ..s
                }));
            },
        }
        self.emit(Effect::ZoomFit);
    }
}

proof fn lemma_applied_keeps_path(s: AppState, p: ProjectView)
    ensures
        s.project_applied(p).project_path == s.project_path,
{
}

impl App {
    fn fail_load(&mut self, e: String)
        requires
            old(self)@.sound(),
        ensures
            final(self)@ == old(self)@.load_failed(e@),
            final(self)@.sound(),
    {
        self.loading = false;
        self.pending_project = None;
        let mut message = String::from_str("Load failed: ");
        message.append(e.as_str());
        self.status = message;
        assert(self@ =~= old(self)@.load_failed(e@));
    }

    /// The project as it is saved to a path.
    fn build_project(&self, path: &str) -> (r: Option<Project>)
        ensures
            match self@.tape {
                Some(t) => r matches Some(p) && p@ == self@.project_for(path@, t),
                None => r is None,
            },
    {
        match &self.tape {
            Some(t) => {
                let p = Project {
                    audio_files: audio_references(self.style, path, &t.sources),
                    audio_file: String::from_str(""),
                    sample_rate: t.sample_rate,
                    channels: t.channels,
                    track_names: copy_texts(&self.track_names),
                    songs: copy_songs(&self.songs),
                    mix_format: Some(self.mix_format),
                    stem_format: Some(self.stem_format),
                };
                assert(p@ =~= self@.project_for(path@, t@));
                Some(p)
            },
            None => None,
        }
    }

    fn save_project_to(&mut self, path: String)
        requires
            old(self)@.sound(),
        ensures
            final(self)@ == old(self)@.save_started(path@),
            final(self)@.sound(),
    {
        if let Some(project) = self.build_project(path.as_str()) {
            self.emit(Effect::WriteProject { path, project });
        }
    }

    fn save_project_as(&mut self)
        requires
            old(self)@.sound(),
        ensures
            final(self)@ == old(self)@.save_as(),
            final(self)@.sound(),
    {
        let default = match (&self.tape, &self.project_path) {
            (Some(_), Some(p)) => p.clone(),
            (Some(t), None) => sidecar_path(self.style, t.sources.as_slice()),
            _ => {
                return;
            },
        };
        let name = path_file_name(self.style, default.as_str());
        let dir = path_parent(self.style, default.as_str());
        self.emit(Effect::PickProjectPath { name, dir });
    }

    fn save_project(&mut self)
        requires
            old(self)@.sound(),
        ensures
            final(self)@ == old(self)@.save(),
            final(self)@.sound(),
    {
        if self.tape.is_none() {
            return;
        }
        let path = match &self.project_path {
            Some(p) => Some(p.clone()),
            None => None,
        };
        match path {
            Some(p) => self.save_project_to(p),
            None => self.save_project_as(),
        }
    }

    fn project_was_saved(&mut self, path: String, outcome: Result<(), String>)
        requires
            old(self)@.sound(),
        ensures
            final(self)@ == old(self)@.saved(path@, outcome),
            final(self)@.sound(),
    {
        match outcome {
            Ok(_) => {
                let mut message = String::from_str("Saved project ");
                message.append(path.as_str());
                message.append(" (");
                assert(self@.songs.len() == self.songs@.len());
                message.append(decimal_text(self.songs.len() as u64).as_str());
                message.append(" songs).");
                let ghost at = path@;
                self.status = message;
                self.project_path = Some(path);
                self.dirty = false;
                assert(self@ =~= old(self)@.saved(at, outcome));
            },
            Err(e) => {
                self.status = e;
                assert(self@ =~= (AppState { status: e@, ..old(self)@ }));
            },
        }
    }

    fn tape_directory(&self) -> (r: Option<String>)
        ensures
            text::opt_text(r) == self@.tape_dir(),
    {
        match &self.tape {
            Some(t) => path_parent(self.style, t.path.as_str()),
            None => None,
        }
    }

    /// The number of the song at a place, counted from one.
    fn number_at(&self, p: usize) -> (r: usize)
        requires
            p < self.songs@.len(),
        ensures
            r == p + 1,
    {
        let count: usize = self.songs.len();
        assert(p < count);
        p + 1
    }

    fn ask_export(&mut self, is_mix: bool)
        requires
            old(self)@.sound(),
        ensures
            final(self)@ == if is_mix {
                old(self)@.mix_export_asked()
            } else {
                old(self)@.multi_export_asked()
            },
            final(self)@.sound(),
    {
        let p: usize = match self.selected_index() {
            Some(p) => p,
            None => {
                return;
            },
        };
        if self.exporting {
            return;
        }
        proof {
            songs::lemma_place(self@.songs, self.selected->0);
            assert(self@.songs[p as int] == self.songs@[p as int]@);
        }
        let number: usize = self.number_at(p);
        let song = &self.songs[p];
        let mut name = song_file_stem(number, song);
        let wide = song.active_channels().len() > FLAC_MAX_CHANNELS;
        let dir = self.tape_directory();
        if is_mix {
            name.append(" (mix).");
            name.append(self.mix_format.extension());
            self.emit(Effect::PickMixPath { name, dir });
        } else {
            name.append(
                if wide {
                    ".wav"
                } else {
                    ".flac"
                },
            );
            self.emit(Effect::PickMultiPath { name, dir });
        }
    }

    fn is_source(&self, path: &str) -> (r: bool)
        ensures
            r == self@.is_source(path@),
    {
        match &self.tape {
            Some(t) => {
                let ghost v = text::texts(t.sources@);
                let mut i: usize = 0;
                while i < t.sources.len()
                    invariant
                        i <= t.sources@.len(),
                        v == text::texts(t.sources@),
                        self@.tape matches Some(u) && u.sources == v,
                        forall|k: int|
                            0 <= k < i ==> !path::same_path(self.style, #[trigger] v[k], path@),
                    decreases t.sources.len() - i,
                {
                    assert(v[i as int] == t.sources@[i as int]@);
                    if equal_paths(self.style, t.sources[i].as_str(), path) {
                        return true;
                    }
                    i += 1;
                }
                false
            },
            None => false,
        }
    }

    fn start_export(&mut self, path: String, is_mix: bool)
        requires
            old(self)@.sound(),
        ensures
            final(self)@ == old(self)@.export_started(path@, is_mix),
            final(self)@.sound(),
    {
        if self.tape.is_none() {
            return;
        }
        let p: usize = match self.selected_index() {
            Some(p) => p,
            None => {
                return;
            },
        };
        if self.is_source(path.as_str()) {
            self.status = String::from_str(
                "Refusing to overwrite the loaded recording — pick another name.",
            );
            assert(self@ =~= (AppState {
                status: "Refusing to overwrite the loaded recording — pick another name."@,
                ..old(self)@
            }));
            return;
        }
        let song = self.songs[p].clone();
        let mode = self.mix_format;
        self.exporting = true;
        let mut message = String::from_str("Exporting ");
        message.append(path.as_str());
        message.append("…");
        self.status = message;
        assert(self@ =~= (AppState {
            exporting: true,
            status: "Exporting "@ + path@ + "…"@,
            ..old(self)@
        }));
        if is_mix {
            self.emit(Effect::ExportMix { song, path, mode });
        } else {
            self.emit(Effect::ExportMulti { song, path });
        }
    }

    fn ask_export_all(&mut self, is_mix: bool)
        requires
            old(self)@.sound(),
        ensures
            final(self)@ == old(self)@.all_export_asked(is_mix),
            final(self)@.sound(),
    {
        assert(self@.songs.len() == self.songs@.len());
        if self.tape.is_none() || self.songs.len() == 0 || self.exporting {
            return;
        }
        let dir = self.tape_directory();
        if is_mix {
            self.emit(Effect::PickMixDir(dir));
        } else {
            self.emit(Effect::PickMultiDir(dir));
        }
    }

    fn start_all_mixes(&mut self, dir: String)
        requires
            old(self)@.sound(),
        ensures
            final(self)@ == old(self)@.all_mixes_started(dir@),
            final(self)@.sound(),
    {
        if self.tape.is_none() {
            return;
        }
        let list = copy_songs(&self.songs);
        let mode = self.mix_format;
        let mut message = String::from_str("Exporting ");
        assert(self@.songs.len() == self.songs@.len());
        message.append(decimal_text(self.songs.len() as u64).as_str());
        message.append(" mixes as ");
        message.append(mode.label().as_str());
        message.append("…");
        self.exporting = true;
        self.status = message;
        assert(self@ =~= (AppState { exporting: true, status: message@, ..old(self)@ }));
        self.emit(Effect::ExportAllMixes { songs: list, dir, mode });
    }

    fn start_all_multi(&mut self, dir: String)
        requires
            old(self)@.sound(),
        ensures
            final(self)@ == old(self)@.all_multi_started(dir@),
            final(self)@.sound(),
    {
        if self.tape.is_none() {
            return;
        }
        let list = copy_songs(&self.songs);
        let track_names = copy_texts(&self.track_names);
        let stems = self.stem_format;
        let mut message = String::from_str("Exporting ");
        assert(self@.songs.len() == self.songs@.len());
        message.append(decimal_text(self.songs.len() as u64).as_str());
        message.append(" songs as multitrack ");
        message.append(stems.format.name());
        message.append("…");
        self.exporting = true;
        self.status = message;
        assert(self@ =~= (AppState { exporting: true, status: message@, ..old(self)@ }));
        self.emit(Effect::ExportAllMulti { songs: list, track_names, dir, stems });
    }

    fn finish_export(&mut self, outcome: Result<String, String>)
        requires
            old(self)@.sound(),
        ensures
            final(self)@ == old(self)@.export_done(outcome),
            final(self)@.sound(),
    {
        let message = match &outcome {
            Ok(t) => t.clone(),
            Err(e) => {
                let mut m = String::from_str("Export failed: ");
                m.append(e.as_str());
                m
            },
        };
        self.exporting = false;
        self.status = message;
        assert(self@ =~= old(self)@.export_done(outcome));
    }

    fn select_device(&mut self, name: String)
        requires
            old(self)@.sound(),
        ensures
            final(self)@ == old(self)@.device_selected(name@),
            final(self)@.sound(),
    {
        self.stop_playback();
        let ghost s = self@;
        let ghost n = name@;
        let device = if same_text(name.as_str(), DEFAULT_DEVICE) {
            None
        } else {
            Some(name.clone())
        };
        self.selected_device = name;
        assert(self@ =~= (AppState { selected_device: n, ..s }));
        self.emit(Effect::SetDevice(device));
    }
}

fn find_area(m: &Message) -> (r: Area)
    ensures
        r == state::area_of(*m),
{
    match m {
        Message::OpenFile | Message::FilesChosen(..) | Message::ProjectRead(..) | Message::SidecarProbed(..) | Message::Loaded(..) | Message::SaveProject | Message::SaveProjectAs | Message::ProjectPathChosen(..) | Message::ProjectSaved(..) => Area::Files,
        Message::ViewChanged { .. } | Message::ZoomIn | Message::ZoomOut | Message::ZoomFit | Message::ZoomSong | Message::VZoomIn | Message::VZoomOut | Message::VZoomReset | Message::WindowResized(..) => Area::Look,
        Message::SetPlayhead(..) | Message::PlayPause | Message::Stop | Message::SeekVisible(..) | Message::Seeked(..) | Message::Tick(..) | Message::PlaySong(..) | Message::DeviceSelected(..) => Area::Playback,
        Message::AddSong | Message::SongAdded(..) | Message::DeleteSong(..) | Message::SelectSong(..) | Message::SongTitle(..) | Message::SongStartToPlayhead | Message::SongEndToPlayhead | Message::MoveSongStart(..) | Message::MoveSongEnd(..) => Area::Songs,
        Message::TrackActive(..) | Message::ToggleTrackActive(..) | Message::TrackStart(..) | Message::TrackEnd(..) | Message::TrackStartToPlayhead(..) | Message::TrackEndToPlayhead(..) | Message::TrackVolume(..) | Message::TrackPan(..) | Message::TrackMute(..) | Message::TrackSolo(..) | Message::ResetTrackMix(..) | Message::TrackName(..) => Area::Tracks,
        Message::TimeDraft(..) | Message::TimeCommit(..) | Message::TimeRead(..) => Area::Times,
        Message::MixFormatSelected(..) | Message::StemFormatSelected(..) | Message::ExportMix | Message::ExportMixPathChosen(..) | Message::ExportMulti | Message::ExportMultiPathChosen(..) | Message::ExportAll | Message::ExportAllDirChosen(..) | Message::ExportAllMixes | Message::ExportAllMixesDirChosen(..) | Message::ExportDone(..) => Area::Exports,
    }
}

impl Default for App {
    fn default() -> (r: Self)
        ensures
            r@ == state::initial(PathStyle::Unix),
            r@.sound(),
    {
        App::new(PathStyle::Unix)
    }
}

impl App {
    /// The editor before anything is opened, for paths written in a style.
    pub fn new(style: PathStyle) -> (r: Self)
        ensures
            r@ == state::initial(style),
            r@.sound(),
    {
        let r = App {
            style,
            tape: None,
            loading: false,
            exporting: false,
            project_path: None,
            pending_project: None,
            dirty: false,
            track_names: Vec::new(),
            songs: Vec::new(),
            next_id: 0,
            selected: None,
            draft: None,
            playhead: 0,
            playing: false,
            play_anchor: None,
            play_end: 0,
            selected_device: String::from_str(DEFAULT_DEVICE),
            mix_format: MixFormat::default(),
            stem_format: StemFormat::default(),
            status: String::from_str(
                "Open a multitrack WAV or FLAC file (or a saved project) to get started.",
            ),
            effects: Vec::new(),
        };
        proof {
            assert(text::texts(r.track_names@) =~= Seq::empty());
            assert(project::songs_view(r.songs@) =~= Seq::empty());
            assert(message::effects_view(r.effects@) =~= Seq::empty());
        }
        r
    }
}

impl App {
    fn set_active(&mut self, id: u64, ch: usize, active: bool)
        requires
            old(self)@.sound(),
        ensures
            final(self)@ == old(self)@.track_activated(id, ch, active),
            final(self)@.sound(),
    {
        if let Some(t) = find_track(&self.songs, id, ch) {
            self.put(id, ch, TrackSettings { active, ..t });
        }
        self.song_changed();
    }

    fn toggle_active(&mut self, id: u64, ch: usize)
        requires
            old(self)@.sound(),
        ensures
            final(self)@ == old(self)@.track_toggled(id, ch),
            final(self)@.sound(),
    {
        if let Some(t) = find_track(&self.songs, id, ch) {
            self.put(id, ch, TrackSettings { active: !t.active, ..t });
        }
        self.song_changed();
    }

    fn set_volume(&mut self, id: u64, ch: usize, volume: Single)
        requires
            old(self)@.sound(),
        ensures
            final(self)@ == old(self)@.volume_set(id, ch, volume),
            final(self)@.sound(),
    {
        if let Some(t) = find_track(&self.songs, id, ch) {
            self.put(id, ch, TrackSettings { volume, ..t });
        }
        self.mix_changed();
    }

    fn set_pan(&mut self, id: u64, ch: usize, pan: Single)
        requires
            old(self)@.sound(),
        ensures
            final(self)@ == old(self)@.pan_set(id, ch, pan),
            final(self)@.sound(),
    {
        if let Some(t) = find_track(&self.songs, id, ch) {
            self.put(id, ch, TrackSettings { pan, ..t });
        }
        self.mix_changed();
    }

    fn set_mute(&mut self, id: u64, ch: usize, mute: bool)
        requires
            old(self)@.sound(),
        ensures
            final(self)@ == old(self)@.mute_set(id, ch, mute),
            final(self)@.sound(),
    {
        if let Some(t) = find_track(&self.songs, id, ch) {
            self.put(id, ch, TrackSettings { mute, ..t });
        }
        self.mix_changed();
    }

    fn set_solo(&mut self, id: u64, ch: usize, solo: bool)
        requires
            old(self)@.sound(),
        ensures
            final(self)@ == old(self)@.solo_set(id, ch, solo),
            final(self)@.sound(),
    {
        if let Some(t) = find_track(&self.songs, id, ch) {
            self.put(id, ch, TrackSettings { solo, ..t });
        }
        self.mix_changed();
    }

    fn reset_mix(&mut self, id: u64, ch: usize)
        requires
            old(self)@.sound(),
        ensures
            final(self)@ == old(self)@.mix_reset(id, ch),
            final(self)@.sound(),
    {
        if let Some(t) = find_track(&self.songs, id, ch) {
            self.put(
                id,
                ch,
                TrackSettings {
                    volume: Single { bits: ONE_BITS },
                    pan: Single { bits: ZERO_BITS },
                    mute: false,
                    solo: false,
                    ..t
                },
            );
        }
        self.mix_changed();
    }

    fn update_files(&mut self, message: Message)
        requires
            old(self)@.sound(),
            state::acceptable(old(self)@, message),
            state::area_of(message) == Area::Files,
        ensures
            final(self)@ == state::step_files(old(self)@, message),
            final(self)@.sound(),
    {
        reveal(state::step_files);
        match message {
            Message::OpenFile => {
                if !self.loading {
                    self.emit(Effect::PickFiles);
                }
            },
            Message::FilesChosen(Some(files)) => self.choose_files(files),
            Message::FilesChosen(None) => {},
            Message::ProjectRead(path, outcome, found) => self.project_was_read(
                path,
                outcome,
                found,
            ),
            Message::SidecarProbed(sidecar, files, outcome) => self.sidecar_was_probed(
                sidecar,
                files,
                outcome,
            ),
            Message::Loaded(Ok(t)) => self.tape_was_loaded(t),
            Message::Loaded(Err(e)) => self.fail_load(e),
            Message::SaveProject => self.save_project(),
            Message::SaveProjectAs => self.save_project_as(),
            Message::ProjectPathChosen(Some(path)) => self.save_project_to(path),
            Message::ProjectPathChosen(None) => {},
            Message::ProjectSaved(path, outcome) => self.project_was_saved(path, outcome),
            _ => {},
        }
    }

    fn update_view(&mut self, message: Message)
        requires
            old(self)@.sound(),
            state::acceptable(old(self)@, message),
            state::area_of(message) == Area::Look,
        ensures
            final(self)@ == state::step_view(old(self)@, message),
            final(self)@.sound(),
    {
        reveal(state::step_view);
        match message {
            Message::ViewChanged { offset, fpp } => self.emit(Effect::SetView { offset, fpp }),
            Message::ZoomIn => self.emit(Effect::ZoomIn),
            Message::ZoomOut => self.emit(Effect::ZoomOut),
            Message::ZoomFit => {
                if self.tape.is_some() {
                    self.emit(Effect::ZoomFit);
                }
            },
            Message::ZoomSong => {
                if let Some(p) = self.selected_index() {
                    let start: usize = self.songs[p].start;
                    let frames: usize = self.songs[p].frames();
                    self.emit(Effect::ZoomSong { start, frames });
                }
            },
            Message::VZoomIn => self.emit(Effect::VZoomIn),
            Message::VZoomOut => self.emit(Effect::VZoomOut),
            Message::VZoomReset => self.emit(Effect::VZoomReset),
            Message::WindowResized(w) => self.emit(Effect::SetWidth(w)),
            _ => {},
        }
    }

    fn update_playback(&mut self, message: Message)
        requires
            old(self)@.sound(),
            state::acceptable(old(self)@, message),
            state::area_of(message) == Area::Playback,
        ensures
            final(self)@ == state::step_playback(old(self)@, message),
            final(self)@.sound(),
    {
        reveal(state::step_playback);
        match message {
            Message::SetPlayhead(frame) => self.set_playhead(frame),
            Message::PlayPause => {
                if self.playing {
                    self.stop_playback();
                } else {
                    self.start_playback();
                }
            },
            Message::Stop => self.stop_at_start(),
            Message::SeekVisible(percent) => {
                if self.tape.is_some() {
                    self.emit(Effect::Step(percent));
                }
            },
            Message::Seeked(frame) => self.seek(frame),
            Message::Tick(elapsed) => self.tick(elapsed),
            Message::PlaySong(id) => self.play_song(id),
            Message::DeviceSelected(name) => self.select_device(name),
            _ => {},
        }
    }

    fn update_songs(&mut self, message: Message)
        requires
            old(self)@.sound(),
            state::acceptable(old(self)@, message),
            state::area_of(message) == Area::Songs,
        ensures
            final(self)@ == state::step_songs(old(self)@, message),
            final(self)@.sound(),
    {
        reveal(state::step_songs);
        match message {
            Message::AddSong => self.add_song(),
            Message::SongAdded(at) => {
                let mut status = String::from_str("Added song at ");
                status.append(at.as_str());
                status.append(
                    ". Drag its flags in the strip, or press I / O to set start / end at the playhead.",
                );
                self.status = status;
                assert(self@ =~= (AppState { status: status@, ..old(self)@ }));
            },
            Message::DeleteSong(id) => self.delete_song(id),
            Message::SelectSong(id) => self.select_song(id),
            Message::SongTitle(id, title) => self.set_title(id, title),
            Message::SongStartToPlayhead => {
                if let Some(id) = self.selected {
                    self.set_song_start(id, self.playhead);
                }
            },
            Message::SongEndToPlayhead => {
                if let Some(id) = self.selected {
                    self.set_song_end(id, self.playhead);
                }
            },
            Message::MoveSongStart(id, frame) => self.set_song_start(id, frame),
            Message::MoveSongEnd(id, frame) => self.set_song_end(id, frame),
            _ => {},
        }
    }

    fn update_tracks(&mut self, message: Message)
        requires
            old(self)@.sound(),
            state::acceptable(old(self)@, message),
            state::area_of(message) == Area::Tracks,
        ensures
            final(self)@ == state::step_tracks(old(self)@, message),
            final(self)@.sound(),
    {
        reveal(state::step_tracks);
        match message {
            Message::TrackActive(id, ch, active) => self.set_active(id, ch, active),
            Message::ToggleTrackActive(id, ch) => self.toggle_active(id, ch),
            Message::TrackStart(id, ch, value) => self.set_track_start(id, ch, value),
            Message::TrackEnd(id, ch, value) => self.set_track_end(id, ch, value),
            Message::TrackStartToPlayhead(id, ch) => {
                self.set_track_start(id, ch, Some(self.playhead));
            },
            Message::TrackEndToPlayhead(id, ch) => {
                self.set_track_end(id, ch, Some(self.playhead));
            },
            Message::TrackVolume(id, ch, v) => self.set_volume(id, ch, v),
            Message::TrackPan(id, ch, p) => self.set_pan(id, ch, p),
            Message::TrackMute(id, ch, mute) => self.set_mute(id, ch, mute),
            Message::TrackSolo(id, ch, solo) => self.set_solo(id, ch, solo),
            Message::ResetTrackMix(id, ch) => self.reset_mix(id, ch),
            Message::TrackName(ch, name) => self.rename_track(ch, name),
            _ => {},
        }
    }

    fn update_times(&mut self, message: Message)
        requires
            old(self)@.sound(),
            state::acceptable(old(self)@, message),
            state::area_of(message) == Area::Times,
        ensures
            final(self)@ == state::step_times(old(self)@, message),
            final(self)@.sound(),
    {
        reveal(state::step_times);
        match message {
            Message::TimeDraft(field, draft) => {
                let ghost d = draft@;
                self.draft = Some((field, draft));
                assert(self@ =~= (AppState { draft: Some((field, d)), ..old(self)@ }));
            },
            Message::TimeCommit(field) => self.commit_time(field),
            Message::TimeRead(field, typed, frame) => self.time_was_read(field, typed, frame),
            _ => {},
        }
    }

    fn update_exports(&mut self, message: Message)
        requires
            old(self)@.sound(),
            state::acceptable(old(self)@, message),
            state::area_of(message) == Area::Exports,
        ensures
            final(self)@ == state::step_exports(old(self)@, message),
            final(self)@.sound(),
    {
        reveal(state::step_exports);
        match message {
            Message::MixFormatSelected(f) => {
                self.mix_format = f;
                self.dirty = true;
                assert(self@ =~= (AppState { mix_format: f, dirty: true, ..old(self)@ }));
            },
            Message::StemFormatSelected(f) => {
                self.stem_format = f;
                self.dirty = true;
                assert(self@ =~= (AppState { stem_format: f, dirty: true, ..old(self)@ }));
            },
            Message::ExportMix => self.ask_export(true),
            Message::ExportMixPathChosen(Some(path)) => self.start_export(path, true),
            Message::ExportMixPathChosen(None) => {},
            Message::ExportMulti => self.ask_export(false),
            Message::ExportMultiPathChosen(Some(path)) => self.start_export(path, false),
            Message::ExportMultiPathChosen(None) => {},
            Message::ExportAll => self.ask_export_all(false),
            Message::ExportAllDirChosen(Some(dir)) => self.start_all_multi(dir),
            Message::ExportAllDirChosen(None) => {},
            Message::ExportAllMixes => self.ask_export_all(true),
            Message::ExportAllMixesDirChosen(Some(dir)) => self.start_all_mixes(dir),
            Message::ExportAllMixesDirChosen(None) => {},
            Message::ExportDone(outcome) => self.finish_export(outcome),
            _ => {},
        }
    }

    /// Takes in a message.
    pub fn update(&mut self, message: Message)
        requires
            old(self)@.sound(),
            state::acceptable(old(self)@, message),
        ensures
            final(self)@ == state::step(old(self)@, message),
            final(self)@.sound(),
    {
        match find_area(&message) {
            Area::Files => self.update_files(message),
            Area::Look => self.update_view(message),
            Area::Playback => self.update_playback(message),
            Area::Songs => self.update_songs(message),
            Area::Tracks => self.update_tracks(message),
            Area::Times => self.update_times(message),
            Area::Exports => self.update_exports(message),
        }
    }

    /// Hands out what is to be done outside.
    pub fn take_effects(&mut self) -> (r: Vec<Effect>)
        ensures
            message::effects_view(r@) == old(self)@.effects,
            final(self)@ == (AppState { effects: Seq::empty(), ..old(self)@ }),
            old(self)@.sound() ==> final(self)@.sound(),
    {
        let mut taken: Vec<Effect> = Vec::new();
        std::mem::swap(&mut taken, &mut self.effects);
        proof {
            assert(message::effects_view(self.effects@) =~= Seq::empty());
            assert(self@ =~= (AppState { effects: Seq::empty(), ..old(self)@ }));
        }
        taken
    }
}

}
