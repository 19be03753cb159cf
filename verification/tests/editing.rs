use multi_track_split::editor::App;
use multi_track_split::formats::{Format, MixFormat, StemFormat, StemLayout};
use multi_track_split::message::{key_message, Effect, Key, Message, Tape, TimeField};
use multi_track_split::mix::{Gain, TrackMix};
use multi_track_split::path::PathStyle;
use multi_track_split::project::{Project, Song, TrackSettings};
use multi_track_split::single::{Double, Single};
use multi_track_split::view::{mixer_title, playhead_readout};

const SR: u32 = 1000;

fn single(v: f32) -> Single {
    Single { bits: v.to_bits() }
}

fn tape(channels: usize, frames: usize) -> Tape {
    Tape {
        path: "/x/tape.wav".to_string(),
        sources: vec!["/x/tape.wav".to_string()],
        channels,
        frames,
        sample_rate: SR,
        bits_per_sample: 24,
        name: "tape.wav".to_string(),
        duration: "16:40.000".to_string(),
        track_names: (1..=channels).map(|i| format!("Track {i}")).collect(),
    }
}

/// An editor with a recording of 1000 s on some tracks.
fn loaded(channels: usize) -> App {
    let mut app = App::default();
    app.update(Message::Loaded(Ok(tape(channels, 1_000_000))));
    app.take_effects();
    app
}

/// Adds songs at these frames.
fn with_songs(starts: &[usize]) -> App {
    let mut app = loaded(3);
    for s in starts {
        app.update(Message::SetPlayhead(*s));
        app.update(Message::AddSong);
    }
    app.take_effects();
    app
}

fn names(effects: &[Effect]) -> Vec<String> {
    effects
        .iter()
        .map(|e| format!("{e:?}").split([' ', '(', '{']).next().unwrap().to_string())
        .collect()
}

fn tell(app: &mut App, message: Message) -> Vec<String> {
    app.update(message);
    names(&app.take_effects())
}

#[test]
fn starts_empty() {
    let app = App::default();
    assert!(app.tape.is_none() && app.songs.is_empty() && !app.dirty && !app.playing);
    assert_eq!(app.selected_device, "System default");
    assert_eq!(app.mix_format, MixFormat::Float32);
    assert_eq!(
        app.status,
        "Open a multitrack WAV or FLAC file (or a saved project) to get started."
    );
}

#[test]
fn recording_without_project() {
    let mut app = App::default();
    assert_eq!(tell(&mut app, Message::OpenFile), ["PickFiles"]);
    let chosen = vec!["/x/track 10.wav".to_string(), "/x/track 2.wav".to_string()];
    app.update(Message::FilesChosen(Some(chosen)));
    match &app.take_effects()[..] {
        [Effect::ProbeSidecar { sidecar, files }] => {
            assert_eq!(sidecar, "/x/x.mtsplit.json");
            assert_eq!(*files, ["/x/track 2.wav", "/x/track 10.wav"]);
        }
        other => panic!("{other:?}"),
    }
    let files = vec!["/x/tape.wav".to_string()];
    app.update(Message::SidecarProbed("/x/tape.mtsplit.json".to_string(), files, None));
    assert!(app.loading);
    assert_eq!(app.status, "Loading /x/tape.wav…");
    assert_eq!(names(&app.take_effects()), ["StopPlayer", "LoadRecording"]);
    assert!(tell(&mut app, Message::OpenFile).is_empty());
    app.update(Message::Loaded(Ok(tape(2, 5000))));
    assert!(!app.loading);
    assert_eq!(
        app.status,
        "Loaded tape.wav — 2 tracks, 1000 Hz, 24 bit, 16:40.000. Press N to add a song at the playhead."
    );
    assert_eq!(app.track_names, ["Track 1", "Track 2"]);
    assert_eq!(names(&app.take_effects()), ["StopPlayer", "ZoomFit"]);
    app.update(Message::Loaded(Err("bad".to_string())));
    assert_eq!(app.status, "Load failed: bad");
    assert!(tell(&mut app, Message::FilesChosen(None)).is_empty());
    assert!(tell(&mut app, Message::FilesChosen(Some(Vec::new()))).is_empty());
}

fn project(songs: Vec<Song>) -> Project {
    Project {
        audio_files: vec!["tape.wav".to_string()],
        audio_file: String::new(),
        sample_rate: SR,
        channels: 2,
        track_names: vec!["Kick".to_string()],
        songs,
        mix_format: Some(MixFormat::Normalized { format: Format::Flac, bits: 24 }),
        stem_format: Some(StemFormat { format: Format::Wav, layout: StemLayout::Tracks }),
    }
}

#[test]
fn project_brings_its_recording() {
    let mut app = App::default();
    app.update(Message::FilesChosen(Some(vec!["/x/p.JSON".to_string()])));
    assert!(matches!(&app.take_effects()[..], [Effect::ReadProject(p)] if p == "/x/p.JSON"));
    let read = |p, found| Message::ProjectRead("/x/p.JSON".to_string(), p, found);
    app.update(read(Err("Invalid project file: x".to_string()), Vec::new()));
    assert_eq!(app.status, "Invalid project file: x");
    app.update(read(Ok(project(Vec::new())), vec![None]));
    assert_eq!(
        app.status,
        "Recording \"tape.wav\" referenced by the project was not found next to it."
    );
    assert!(app.project_path.is_none());
    let songs = vec![
        Song::new(5, "late".to_string(), 900, 5000, 3),
        Song::new(6, "gone".to_string(), 2000, 3000, 2),
        Song::new(7, "early".to_string(), 10, 20, 1),
    ];
    app.update(read(Ok(project(songs)), vec![Some("/x/tape.wav".to_string())]));
    assert_eq!(app.project_path.as_deref(), Some("/x/p.JSON"));
    assert_eq!(names(&app.take_effects()), ["StopPlayer", "LoadRecording"]);
    app.update(Message::Loaded(Ok(tape(3, 1000))));
    assert_eq!(
        app.status,
        "Loaded tape.wav — 3 tracks, 1000 Hz, 24 bit, 16:40.000 — 2 songs from /x/p.JSON. \
         Warning: the project was made for a different track count."
    );
    assert_eq!(app.track_names, ["Kick", "Track 2", "Track 3"]);
    let songs: Vec<(u64, &str, usize, usize, usize)> = app
        .songs
        .iter()
        .map(|s| (s.id, s.title.as_str(), s.start, s.end, s.tracks.len()))
        .collect();
    assert_eq!(songs, [(0, "late", 900, 1000, 3), (2, "early", 10, 20, 3)]);
    assert_eq!((app.selected, app.playhead, app.next_id), (Some(0), 900, 3));
    assert_eq!(app.mix_format, MixFormat::Normalized { format: Format::Flac, bits: 24 });
    assert_eq!(app.stem_format.layout, StemLayout::Tracks);
    assert!(!app.dirty && app.pending_project.is_none());
}

#[test]
fn ids_are_distinct_after_songs_were_dropped() {
    let songs = vec![
        Song::new(0, "gone".to_string(), 2_000_000, 3_000_000, 2),
        Song::new(0, "a".to_string(), 10, 20, 2),
        Song::new(0, "b".to_string(), 30, 40, 2),
    ];
    let mut app = App::default();
    let files = vec!["/x/tape.wav".to_string()];
    app.update(Message::SidecarProbed("s".to_string(), files, Some(Ok(project(songs)))));
    app.update(Message::Loaded(Ok(tape(2, 1_000_000))));
    app.update(Message::AddSong);
    let mut ids: Vec<u64> = app.songs.iter().map(|s| s.id).collect();
    ids.sort();
    assert_eq!((ids, app.next_id), (vec![1, 2, 3], 4));
}

#[test]
fn songs_can_be_edited_without_a_recording() {
    let mut app = App::default();
    app.songs = vec![Song::new(0, "A".to_string(), 0, 100, 1)];
    app.songs[0].tracks[0] = TrackSettings {
        active: false,
        start: Some(20),
        end: Some(80),
        volume: single(0.5),
        pan: single(-1.0),
        mute: true,
        solo: true,
    };
    app.update(Message::ResetTrackMix(0, 0));
    let t = app.songs[0].tracks[0];
    assert_eq!((t.active, t.start, t.end), (false, Some(20), Some(80)));
    assert_eq!((t.volume, t.pan, t.mute, t.solo), (single(1.0), single(0.0), false, false));
    assert_eq!((app.songs[0].start, app.songs[0].end, app.dirty), (0, 100, true));
}

#[test]
fn broken_sidecar_is_ignored() {
    let mut app = App::default();
    let files = vec!["a.wav".to_string(), "b.wav".to_string()];
    app.update(Message::SidecarProbed("s".to_string(), files, Some(Err("no".to_string()))));
    assert!(app.pending_project.is_none() && app.project_path.is_none());
    assert_eq!(app.status, "Loading 2 files…");
    let files = vec!["a.wav".to_string()];
    app.update(Message::SidecarProbed("s".to_string(), files, Some(Ok(project(Vec::new())))));
    assert!(app.pending_project.is_some());
    assert_eq!(app.project_path.as_deref(), Some("s"));
    app.update(Message::FilesChosen(Some(vec!["c.wav".to_string()])));
    assert!(app.pending_project.is_none() && app.project_path.is_none());
}

#[test]
fn saving() {
    let mut app = App::default();
    assert!(tell(&mut app, Message::SaveProject).is_empty());
    let mut app = with_songs(&[1000]);
    assert!(app.dirty);
    app.update(Message::SaveProject);
    match &app.take_effects()[..] {
        [Effect::PickProjectPath { name, dir }] => {
            assert_eq!(name.as_deref(), Some("tape.mtsplit.json"));
            assert_eq!(dir.as_deref(), Some("/x"));
        }
        other => panic!("{other:?}"),
    }
    app.update(Message::ProjectPathChosen(Some("/y/p.json".to_string())));
    match &app.take_effects()[..] {
        [Effect::WriteProject { path, project }] => {
            assert_eq!(path, "/y/p.json");
            assert_eq!(project.audio_files, ["/x/tape.wav"]);
            assert_eq!(project.songs.len(), 1);
            assert_eq!(project.mix_format, Some(MixFormat::Float32));
        }
        other => panic!("{other:?}"),
    }
    app.update(Message::ProjectSaved("/y/p.json".to_string(), Err("disk full".to_string())));
    assert!(app.dirty && app.project_path.is_none());
    assert_eq!(app.status, "disk full");
    app.update(Message::ProjectSaved("/y/p.json".to_string(), Ok(())));
    assert!(!app.dirty);
    assert_eq!(app.status, "Saved project /y/p.json (1 songs).");
    assert_eq!(tell(&mut app, Message::SaveProject), ["WriteProject"]);
    assert_eq!(tell(&mut app, Message::SaveProjectAs), ["PickProjectPath"]);
    assert!(tell(&mut app, Message::ProjectPathChosen(None)).is_empty());
}

#[test]
fn saved_work_comes_back() {
    let mut app = with_songs(&[5000, 100, 70000]);
    app.update(Message::TrackMute(1, 2, true));
    app.update(Message::TrackName(0, "Kick".to_string()));
    let before: Vec<(String, usize, usize, Vec<TrackSettings>)> = app
        .songs
        .iter()
        .map(|s| (s.title.clone(), s.start, s.end, s.tracks.clone()))
        .collect();
    let names = app.track_names.clone();
    app.take_effects();
    app.update(Message::ProjectPathChosen(Some("/x/p.json".to_string())));
    let saved = match app.take_effects().pop() {
        Some(Effect::WriteProject { project, .. }) => project,
        other => panic!("{other:?}"),
    };
    assert_eq!(saved.audio_files, ["tape.wav"]);
    let mut again = App::default();
    let files = vec!["/x/tape.wav".to_string()];
    again.update(Message::SidecarProbed("/x/p.json".to_string(), files, Some(Ok(saved))));
    again.update(Message::Loaded(Ok(tape(3, 1_000_000))));
    let after: Vec<(String, usize, usize, Vec<TrackSettings>)> = again
        .songs
        .iter()
        .map(|s| (s.title.clone(), s.start, s.end, s.tracks.clone()))
        .collect();
    assert_eq!(after, before);
    assert_eq!(again.track_names, names);
    let ids: Vec<u64> = again.songs.iter().map(|s| s.id).collect();
    assert_eq!((ids, again.next_id), (vec![0, 1, 2], 3));
}

#[test]
fn adding_songs() {
    let mut app = App::default();
    assert!(tell(&mut app, Message::AddSong).is_empty());
    let mut app = loaded(3);
    app.update(Message::SetPlayhead(2000));
    app.take_effects();
    app.update(Message::AddSong);
    match &app.take_effects()[..] {
        [Effect::Redraw, Effect::StopPlayer, Effect::ScrollTo(2000), Effect::Redraw, Effect::ReportAdded(2000)] => {}
        other => panic!("{other:?}"),
    }
    app.update(Message::SongAdded("00:02.000".to_string()));
    assert_eq!(
        app.status,
        "Added song at 00:02.000. Drag its flags in the strip, or press I / O to set start / end at the playhead."
    );
    let s = &app.songs[0];
    assert_eq!((s.id, s.title.as_str(), s.start, s.end), (0, "Song 1", 2000, 242_000));
    assert_eq!(s.tracks.len(), 3);
    assert_eq!((app.selected, app.dirty), (Some(0), true));
    app.update(Message::SetPlayhead(999_900));
    app.update(Message::AddSong);
    let s = &app.songs[1];
    assert_eq!((s.id, s.title.as_str(), s.start, s.end), (1, "Song 2", 999_500, 1_000_000));
}

#[test]
fn songs_stay_in_tape_order() {
    let mut app = with_songs(&[5000, 1000, 9000, 1000]);
    let starts = |app: &App| app.songs.iter().map(|s| (s.start, s.id)).collect::<Vec<_>>();
    assert_eq!(starts(&app), [(1000, 1), (1000, 3), (5000, 0), (9000, 2)]);
    app.update(Message::MoveSongStart(2, 10));
    assert_eq!(starts(&app), [(10, 2), (1000, 1), (1000, 3), (5000, 0)]);
    app.update(Message::DeleteSong(1));
    assert_eq!(starts(&app), [(10, 2), (1000, 3), (5000, 0)]);
    app.update(Message::AddSong);
    assert!(app.songs.iter().any(|s| s.id == 4));
}

#[test]
fn song_edges_keep_half_a_second() {
    let mut app = with_songs(&[1000]);
    app.update(Message::MoveSongEnd(0, 1100));
    assert_eq!(app.songs[0].end, 1500);
    app.update(Message::MoveSongStart(0, 1499));
    assert_eq!(app.songs[0].start, 1000);
    app.update(Message::MoveSongEnd(0, 5_000_000));
    assert_eq!(app.songs[0].end, 1_000_000);
    app.update(Message::SetPlayhead(3000));
    app.update(Message::SongStartToPlayhead);
    assert_eq!(app.songs[0].start, 3000);
    app.update(Message::SetPlayhead(4000));
    app.update(Message::SongEndToPlayhead);
    assert_eq!(app.songs[0].end, 4000);
    app.update(Message::SelectSong(None));
    app.update(Message::SongEndToPlayhead);
    assert_eq!(app.songs[0].end, 4000);
}

#[test]
fn track_ranges_never_collapse() {
    let mut app = with_songs(&[1000]);
    app.update(Message::MoveSongEnd(0, 2000));
    app.update(Message::TrackStart(0, 1, Some(5000)));
    assert_eq!(app.songs[0].tracks[1].start, Some(1999));
    app.update(Message::TrackEnd(0, 1, Some(10)));
    assert_eq!(app.songs[0].track_range(1), Some((1999, 2000)));
    app.update(Message::TrackStart(0, 1, Some(1000)));
    assert_eq!(app.songs[0].tracks[1].start, None);
    app.update(Message::SetPlayhead(1500));
    app.update(Message::TrackEndToPlayhead(0, 1));
    app.update(Message::TrackStartToPlayhead(0, 1));
    assert_eq!(app.songs[0].track_range(1), Some((1499, 1500)));
    app.update(Message::TrackEnd(0, 1, Some(2000)));
    assert_eq!(app.songs[0].tracks[1].end, None);
    app.update(Message::TrackStart(0, 1, None));
    assert_eq!(app.songs[0].track_range(1), Some((1000, 2000)));
    app.update(Message::TrackStart(0, 9, Some(1)));
    app.update(Message::TrackStart(7, 0, Some(1)));
    assert_eq!(app.songs[0].tracks[0], TrackSettings::default());
}

#[test]
fn mix_settings() {
    let mut app = with_songs(&[1000]);
    app.update(Message::ProjectSaved("p".to_string(), Ok(())));
    assert!(tell(&mut app, Message::TrackVolume(0, 0, single(0.5))).is_empty());
    assert!(app.dirty);
    app.update(Message::TrackPan(0, 0, single(-1.0)));
    app.update(Message::TrackSolo(0, 0, true));
    app.update(Message::TrackMute(0, 0, true));
    let t = app.songs[0].tracks[0];
    assert_eq!((t.volume, t.pan, t.solo, t.mute), (single(0.5), single(-1.0), true, true));
    app.update(Message::ResetTrackMix(0, 0));
    assert_eq!(app.songs[0].tracks[0], TrackSettings::default());
    assert_eq!(tell(&mut app, Message::TrackActive(0, 1, false)), ["Redraw"]);
    assert!(!app.songs[0].tracks[1].active);
    assert_eq!(tell(&mut app, Message::ToggleTrackActive(0, 1)), ["Redraw"]);
    assert!(app.songs[0].tracks[1].active);
    assert_eq!(tell(&mut app, Message::TrackName(1, "Bass".to_string())), ["Redraw"]);
    assert_eq!(app.track_names, ["Track 1", "Bass", "Track 3"]);
    assert_eq!(tell(&mut app, Message::SongTitle(0, "New".to_string())), ["Redraw"]);
    assert_eq!(app.songs[0].title, "New");
}

#[test]
fn playback() {
    let mut app = with_songs(&[1000]);
    app.update(Message::MoveSongEnd(0, 3000));
    app.take_effects();
    app.update(Message::SetPlayhead(2000));
    app.update(Message::PlayPause);
    match &app.take_effects()[..] {
        [Effect::Play { start: 2000, end: 3000, mixes }] => assert_eq!(mixes.len(), 3),
        other => panic!("{other:?}"),
    }
    assert_eq!((app.playing, app.play_anchor, app.play_end), (true, Some(2000), 3000));
    match (tell(&mut app, Message::TrackMute(0, 0, true)), app.playing) {
        (names, true) => assert_eq!(names, ["SetMix"]),
        other => panic!("{other:?}"),
    }
    assert_eq!(tell(&mut app, Message::Tick(400)), ["ScrollTo"]);
    assert_eq!(app.playhead, 2400);
    assert_eq!(tell(&mut app, Message::Tick(1000)), ["StopPlayer"]);
    assert_eq!((app.playhead, app.playing), (3000, false));
    assert!(tell(&mut app, Message::Tick(5)).is_empty());
    assert_eq!(tell(&mut app, Message::PlayPause), ["Play"]);
    assert_eq!(app.playhead, 1000);
    assert_eq!(tell(&mut app, Message::SetPlayhead(1500)), ["Play"]);
    assert_eq!(tell(&mut app, Message::Stop), ["StopPlayer"]);
    assert_eq!(app.playhead, 1000);
    assert_eq!(tell(&mut app, Message::SeekVisible(5)), ["Step"]);
    app.update(Message::Seeked(2_000_000));
    assert_eq!(app.playhead, 1_000_000);
    assert_eq!(tell(&mut app, Message::SelectSong(None)), ["StopPlayer", "Redraw"]);
    app.update(Message::SetPlayhead(7));
    app.update(Message::PlayPause);
    match &app.take_effects()[..] {
        [Effect::Play { start: 7, end: 1_000_000, mixes }] => {
            let gain = Gain::Even { channels: 3 };
            assert_eq!(mixes[2], TrackMix { channel: 2, gain, start: 0, end: 1_000_000 });
        }
        other => panic!("{other:?}"),
    }
    assert_eq!(
        tell(&mut app, Message::PlaySong(0)),
        ["StopPlayer", "ScrollTo", "Redraw", "Play"]
    );
    assert_eq!(tell(&mut app, Message::PlaySong(9)), ["StopPlayer", "Redraw"]);
    let mut none = App::default();
    assert!(tell(&mut none, Message::PlayPause).is_empty());
    assert!(tell(&mut none, Message::SeekVisible(5)).is_empty());
}

#[test]
fn deleting_selected_song_stops() {
    let mut app = with_songs(&[1000, 5000]);
    app.update(Message::TimeDraft(TimeField::SongStart(1), "x".to_string()));
    assert_eq!(tell(&mut app, Message::DeleteSong(1)), ["StopPlayer", "Redraw"]);
    assert!(app.selected.is_none() && app.draft.is_none());
    assert_eq!(tell(&mut app, Message::DeleteSong(9)), ["Redraw"]);
    assert_eq!(app.songs.len(), 1);
}

#[test]
fn typed_times() {
    let mut app = with_songs(&[1000]);
    app.update(Message::TimeDraft(TimeField::SongStart(0), " 0:02.5 ".to_string()));
    assert_eq!(app.time_input(TimeField::SongStart(0), "00:01.000"), " 0:02.5 ");
    assert_eq!(app.time_input(TimeField::SongEnd(0), "00:01.000"), "00:01.000");
    app.update(Message::TimeCommit(TimeField::SongStart(0)));
    match &app.take_effects()[..] {
        [Effect::ReadTime { field: TimeField::SongStart(0), text, parts }] => {
            assert_eq!(text, "0:02.5");
            assert_eq!(parts.leading, [0]);
            assert_eq!(parts.seconds, "02.5");
        }
        other => panic!("{other:?}"),
    }
    app.update(Message::TimeRead(TimeField::SongStart(0), "0:02.5".to_string(), Some(2500)));
    assert_eq!(app.songs[0].start, 2500);
    app.update(Message::TimeRead(TimeField::SongEnd(0), "x".to_string(), None));
    assert_eq!(app.status, "\"x\" is not a time. Use mm:ss.mmm or seconds.");
    app.update(Message::TimeDraft(TimeField::SongEnd(0), "1:2:3:4".to_string()));
    app.update(Message::TimeCommit(TimeField::SongEnd(0)));
    assert_eq!(app.status, "\"1:2:3:4\" is not a time. Use mm:ss.mmm or seconds.");
    app.update(Message::TrackStart(0, 1, Some(9000)));
    app.update(Message::TimeDraft(TimeField::TrackStart(0, 1), "  ".to_string()));
    app.update(Message::TimeCommit(TimeField::TrackStart(0, 1)));
    assert_eq!(app.songs[0].tracks[1].start, None);
    app.take_effects();
    app.update(Message::TimeDraft(TimeField::SongEnd(0), String::new()));
    assert!(tell(&mut app, Message::TimeCommit(TimeField::SongEnd(0))).is_empty());
    assert_eq!(app.status, "\"\" is not a time. Use mm:ss.mmm or seconds.");
    app.update(Message::TimeDraft(TimeField::SongEnd(0), "5".to_string()));
    assert!(tell(&mut app, Message::TimeCommit(TimeField::SongStart(0))).is_empty());
    assert!(app.draft.is_none());
    assert!(tell(&mut app, Message::TimeCommit(TimeField::SongStart(0))).is_empty());
    app.update(Message::TimeRead(TimeField::TrackEnd(0, 2), "9".to_string(), Some(9000)));
    assert_eq!(app.songs[0].tracks[2].end, Some(9000));
    app.update(Message::TimeRead(TimeField::SongEnd(0), "9".to_string(), Some(12000)));
    assert_eq!(app.songs[0].end, 12000);
}

#[test]
fn exporting() {
    let mut app = with_songs(&[1000, 9000]);
    app.update(Message::SongTitle(1, "A/B".to_string()));
    app.take_effects();
    app.update(Message::ExportMix);
    match &app.take_effects()[..] {
        [Effect::PickMixPath { name, dir }] => {
            assert_eq!(name, "02 - A_B (mix).wav");
            assert_eq!(dir.as_deref(), Some("/x"));
        }
        other => panic!("{other:?}"),
    }
    app.update(Message::ExportMulti);
    assert!(matches!(&app.take_effects()[..],
        [Effect::PickMultiPath { name, .. }] if name == "02 - A_B.flac"));
    app.update(Message::ExportMixPathChosen(Some("/x//tape.wav".to_string())));
    assert_eq!(app.status, "Refusing to overwrite the loaded recording — pick another name.");
    assert!(!app.exporting && app.take_effects().is_empty());
    app.update(Message::ExportMultiPathChosen(Some("/y/o.wav".to_string())));
    assert!(app.exporting);
    assert_eq!(app.status, "Exporting /y/o.wav…");
    assert!(matches!(&app.take_effects()[..],
        [Effect::ExportMulti { song, path }] if song.id == 1 && path == "/y/o.wav"));
    assert!(tell(&mut app, Message::ExportMix).is_empty());
    assert!(tell(&mut app, Message::ExportAll).is_empty());
    app.update(Message::ExportDone(Err("disk".to_string())));
    assert_eq!((app.exporting, app.status.as_str()), (false, "Export failed: disk"));
    app.update(Message::ExportDone(Ok("Wrote it.".to_string())));
    assert_eq!(app.status, "Wrote it.");
    assert_eq!(tell(&mut app, Message::ExportAll), ["PickMultiDir"]);
    assert_eq!(tell(&mut app, Message::ExportAllMixes), ["PickMixDir"]);
    app.update(Message::MixFormatSelected(MixFormat::Normalized { format: Format::Flac, bits: 16 }));
    app.update(Message::ExportAllMixesDirChosen(Some("/y".to_string())));
    assert_eq!(app.status, "Exporting 2 mixes as FLAC 16-bit, normalized…");
    assert_eq!(names(&app.take_effects()), ["ExportAllMixes"]);
    app.update(Message::ExportDone(Ok(String::new())));
    app.update(Message::ExportAllDirChosen(Some("/y".to_string())));
    assert_eq!(app.status, "Exporting 2 songs as multitrack FLAC…");
    assert_eq!(names(&app.take_effects()), ["ExportAllMulti"]);
    app.update(Message::StemFormatSelected(StemFormat {
        format: Format::Wav,
        layout: StemLayout::Tracks,
    }));
    assert_eq!(app.stem_format.format, Format::Wav);
    app.update(Message::ExportDone(Ok(String::new())));
    app.update(Message::ExportMixPathChosen(Some("/y/m.flac".to_string())));
    assert!(matches!(&app.take_effects()[..],
        [Effect::ExportMix { mode: MixFormat::Normalized { bits: 16, .. }, .. }]));
    for m in [
        Message::ExportMixPathChosen(None),
        Message::ExportMultiPathChosen(None),
        Message::ExportAllDirChosen(None),
        Message::ExportAllMixesDirChosen(None),
    ] {
        assert!(tell(&mut app, m).is_empty());
    }
    let mut wide = loaded(9);
    wide.update(Message::AddSong);
    wide.take_effects();
    wide.update(Message::ExportMulti);
    assert!(matches!(&wide.take_effects()[..],
        [Effect::PickMultiPath { name, .. }] if name == "01 - Song 1.wav"));
}

#[test]
fn devices() {
    let mut app = loaded(1);
    app.update(Message::DeviceSelected("Speakers".to_string()));
    match &app.take_effects()[..] {
        [Effect::StopPlayer, Effect::SetDevice(Some(n))] => assert_eq!(n, "Speakers"),
        other => panic!("{other:?}"),
    }
    app.update(Message::DeviceSelected("System default".to_string()));
    assert!(matches!(&app.take_effects()[..], [Effect::StopPlayer, Effect::SetDevice(None)]));
    assert_eq!(app.selected_device, "System default");
}

#[test]
fn looking_around() {
    let mut app = loaded(1);
    let half = Double { bits: 0.5f64.to_bits() };
    app.update(Message::ViewChanged { offset: half, fpp: half });
    assert!(matches!(&app.take_effects()[..],
        [Effect::SetView { offset, fpp }] if *offset == half && *fpp == half));
    assert_eq!(tell(&mut app, Message::ZoomIn), ["ZoomIn"]);
    assert_eq!(tell(&mut app, Message::ZoomOut), ["ZoomOut"]);
    assert_eq!(tell(&mut app, Message::ZoomFit), ["ZoomFit"]);
    assert!(tell(&mut app, Message::ZoomSong).is_empty());
    assert_eq!(tell(&mut app, Message::VZoomIn), ["VZoomIn"]);
    assert_eq!(tell(&mut app, Message::VZoomOut), ["VZoomOut"]);
    assert_eq!(tell(&mut app, Message::VZoomReset), ["VZoomReset"]);
    assert_eq!(tell(&mut app, Message::WindowResized(single(900.0))), ["SetWidth"]);
    app.update(Message::AddSong);
    app.take_effects();
    app.update(Message::ZoomSong);
    assert!(matches!(&app.take_effects()[..], [Effect::ZoomSong { start: 0, frames: 240_000 }]));
    assert!(tell(&mut App::default(), Message::ZoomFit).is_empty());
}

#[test]
fn shortcuts() {
    let key = |c: &str| Key::Character(c.to_string());
    let name = |k: Key, shift| key_message(&k, shift).map(|m| format!("{m:?}"));
    let some = |s: &str| Some(s.to_string());
    for k in [Key::Space, Key::MediaPlayPause, Key::MediaPlay, Key::MediaPause] {
        assert_eq!(name(k, false), some("PlayPause"));
    }
    assert_eq!(name(Key::MediaStop, false), some("Stop"));
    assert_eq!(name(Key::ArrowLeft, false), some("SeekVisible(-5)"));
    assert_eq!(name(Key::ArrowRight, true), some("SeekVisible(5)"));
    for (c, m) in [("n", "AddSong"), ("i", "SongStartToPlayhead"), ("o", "SongEndToPlayhead")] {
        assert_eq!(name(key(c), false), some(m));
        assert_eq!(name(key(&c.to_uppercase()), true), some(m));
    }
    for c in ["+", "="] {
        assert_eq!(name(key(c), false), some("ZoomIn"));
        assert_eq!(name(key(c), true), some("VZoomIn"));
    }
    for c in ["?", "*"] {
        assert_eq!(name(key(c), false), None);
        assert_eq!(name(key(c), true), some("VZoomIn"));
    }
    for c in ["-", "_"] {
        assert_eq!(name(key(c), false), some("ZoomOut"));
        assert_eq!(name(key(c), true), some("VZoomOut"));
    }
    assert_eq!(name(key("x"), false), None);
    assert_eq!(name(Key::Other, true), None);
}

#[test]
fn panes() {
    let app = App::default();
    let bar = app.toolbar();
    assert_eq!((bar.file_label.as_str(), bar.play_label), ("No file loaded", "Play"));
    assert!(!bar.has_recording && !bar.has_song && !bar.can_export_song && !bar.can_export_all);
    assert_eq!(app.songs_heading(), "Songs (0)");
    assert_eq!(app.songs_placeholder(), "");
    assert_eq!(app.mixer_placeholder(), "The mixer for the selected song appears here.");
    assert!(app.mixer_pane().is_none());
    assert_eq!(
        app.waveform_placeholder(),
        "Open a multitrack WAV or FLAC file to see its tracks here."
    );

    let mut app = with_songs(&[1000, 5000]);
    app.update(Message::TrackActive(1, 0, false));
    app.update(Message::TrackStart(1, 2, Some(6000)));
    let bar = app.toolbar();
    assert_eq!(bar.file_label, "tape.wav  •");
    assert!(bar.has_recording && bar.has_song && bar.can_export_song && bar.can_export_all);
    assert!(app.songs_placeholder().starts_with("No songs yet."));
    let rows = app.songs_pane();
    assert_eq!((rows[0].number.as_str(), rows[0].selected, rows[0].used.as_str()), ("01", false, "3/3"));
    assert_eq!((rows[1].id, rows[1].selected, rows[1].used.as_str()), (1, true, "2/3"));
    assert_eq!((rows[1].start, rows[1].end), (5000, 245_000));
    let tracks = app.mixer_pane().unwrap();
    assert_eq!(tracks[0].heard, None);
    assert_eq!(tracks[1].heard, Some(240_000));
    assert_eq!(tracks[2].heard, Some(239_000));
    assert_eq!(tracks[2].name, "Track 3");
    app.update(Message::SelectSong(None));
    assert_eq!(
        app.mixer_placeholder(),
        "Select a song to edit which tracks it uses and their mix."
    );
    assert_eq!(mixer_title(3, "", "a", "b", "c"), "Song 03 — a to b (c)");
    assert_eq!(mixer_title(3, "x", "a", "b", "c"), "Song 03 · x — a to b (c)");
    assert_eq!(playhead_readout("a", None), "Playhead: a  /  --:--");
    assert_eq!(playhead_readout("a", Some("b")), "Playhead: a  /  b");
}

#[test]
fn windows_files_are_opened() {
    let mut app = App::new(PathStyle::Windows);
    let files = vec![r"C:\rec\b 10.wav".to_string(), r"C:\rec\b 9.wav".to_string()];
    app.update(Message::FilesChosen(Some(files.clone())));
    match &app.take_effects()[..] {
        [Effect::ProbeSidecar { sidecar, files: ordered }] => {
            assert_eq!(sidecar, r"C:\rec\rec.mtsplit.json");
            assert_eq!(*ordered, [files[1].clone(), files[0].clone()]);
        }
        other => panic!("{other:?}"),
    }
    let names = tell(&mut app, Message::FilesChosen(Some(vec![r"C:\a.b\p.JSON".to_string()])));
    assert_eq!(names, ["ReadProject"]);
}
