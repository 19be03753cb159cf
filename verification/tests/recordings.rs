use multi_track_split::audio::{
    compute_peaks, load_many, stream_format, AudioData, DecodeOutcome, Decoding, LoadError,
    ReadOutcome, ReadStep, StreamFormat, PEAK_BIN,
};
use multi_track_split::mix::{
    flat_mixes, mix_block, pan_label, song_mixes, volume_to_db_label, Gain, Span, TrackMix,
};
use multi_track_split::path::PathStyle;
use multi_track_split::project::{
    default_track_names, Project, Song, TrackSettings,
};
use multi_track_split::single::Single;
use multi_track_split::waveform::min_max;

const UNIX: PathStyle = PathStyle::Unix;

fn single(v: f32) -> Single {
    Single { bits: v.to_bits() }
}

fn singles(v: &[f32]) -> Vec<Single> {
    v.iter().map(|x| single(*x)).collect()
}

fn recording(path: &str, tracks: &[&[f32]], rate: u32, bits: u32) -> AudioData {
    let format =
        StreamFormat { sample_rate: rate, channels: tracks.len(), bits_per_sample: bits };
    let mut decoding = Decoding::new(0, format);
    let frames = tracks[0].len();
    let mut samples = Vec::new();
    for f in 0..frames {
        for t in tracks {
            samples.push(single(t[f]));
        }
    }
    decoding.after_decode(DecodeOutcome::Samples(samples)).unwrap();
    decoding.finish(UNIX, path).unwrap()
}

#[test]
fn container_has_to_name_rate_and_channels() {
    let text = |r: Result<StreamFormat, LoadError>| r.unwrap_err().text();
    assert_eq!(text(stream_format(false, Some(1), Some(1), None, None)), "No audio track found");
    assert_eq!(text(stream_format(true, None, Some(1), None, None)), "Unknown sample rate");
    assert_eq!(text(stream_format(true, Some(1), None, None, None)), "Unknown channel layout");
    let format = stream_format(true, Some(48000), Some(4), None, None).unwrap();
    assert_eq!(format, StreamFormat { sample_rate: 48000, channels: 4, bits_per_sample: 16 });
    let bits = |b, f| stream_format(true, Some(1), Some(1), b, f).unwrap().bits_per_sample;
    assert_eq!((bits(Some(24), None), bits(None, Some(32)), bits(Some(8), Some(32))), (24, 32, 8));
}

#[test]
fn load_errors_are_named() {
    let e = |s: &str| s.to_string();
    assert_eq!(LoadError::Open(e("x")).text(), "Cannot open file: x");
    assert_eq!(LoadError::Unsupported(e("x")).text(), "Unsupported format: x");
    assert_eq!(LoadError::Decoder(e("x")).text(), "Cannot create decoder: x");
    assert_eq!(LoadError::Read(e("x")).text(), "Read error: x");
    assert_eq!(LoadError::Decode(e("x")).text(), "Decode error: x");
    assert_eq!(LoadError::Empty.text(), "File contains no audio");
}

#[test]
fn packets_are_taken_in() {
    let format = StreamFormat { sample_rate: 8000, channels: 2, bits_per_sample: 16 };
    let mut d = Decoding::new(5, format);
    assert!(matches!(d.after_read(ReadOutcome::Packet(5)), ReadStep::Decode));
    assert!(matches!(d.after_read(ReadOutcome::Packet(4)), ReadStep::Skip));
    assert!(matches!(d.after_read(ReadOutcome::EndOfFile), ReadStep::Finish));
    assert!(matches!(d.after_read(ReadOutcome::ResetRequired), ReadStep::Finish));
    match d.after_read(ReadOutcome::Failed("bad".to_string())) {
        ReadStep::Fail(e) => assert_eq!(e.text(), "Read error: bad"),
        other => panic!("{other:?}"),
    }
    d.after_decode(DecodeOutcome::Samples(singles(&[1.0, 2.0, 3.0, 4.0, 5.0]))).unwrap();
    d.after_decode(DecodeOutcome::Malformed).unwrap();
    d.after_decode(DecodeOutcome::Samples(singles(&[6.0, 7.0]))).unwrap();
    let err = d.after_decode(DecodeOutcome::Failed("worse".to_string())).unwrap_err();
    assert_eq!(err.text(), "Decode error: worse");
    let a = d.finish(UNIX, "d/t.wav").unwrap();
    assert_eq!(a.tracks, [singles(&[1.0, 3.0, 6.0]), singles(&[2.0, 4.0, 7.0])]);
    assert_eq!((a.channels(), a.frames()), (2, 3));
    assert_eq!((a.sample_rate, a.bits_per_sample), (8000, 16));
    assert_eq!(a.path, "d/t.wav");
    assert_eq!(a.sources, ["d/t.wav"]);
    assert_eq!(a.source_channels, [2]);
    assert_eq!(a.file_name(), "t.wav");
    assert_eq!(a.file_stem(), "t");
    assert_eq!(a.default_track_names(), ["Track 1", "Track 2"]);
}

#[test]
fn empty_files_are_refused() {
    let format = StreamFormat { sample_rate: 8000, channels: 2, bits_per_sample: 16 };
    let err = Decoding::new(0, format).finish(UNIX, "t.wav").unwrap_err();
    assert_eq!(err.text(), "File contains no audio");
    let none = StreamFormat { channels: 0, ..format };
    assert!(Decoding::new(0, none).finish(UNIX, "t.wav").is_err());
}

#[test]
fn peaks_bound_their_samples() {
    let track: Vec<Single> =
        (0..PEAK_BIN * 2 + 3).map(|i| single((i as f32 * 0.37).sin())).collect();
    let peaks = compute_peaks(&track);
    assert_eq!(peaks.len(), 3);
    for (i, s) in track.iter().enumerate() {
        let v = f32::from_bits(s.bits);
        let (lo, hi) = peaks[i / PEAK_BIN];
        assert!(f32::from_bits(lo.bits) <= v && v <= f32::from_bits(hi.bits));
    }
    let odd = compute_peaks(&singles(&[f32::NAN, -2.0, 3.0, f32::NAN]));
    assert_eq!(odd, [(single(-2.0), single(3.0))]);
    assert!(compute_peaks(&Vec::new()).is_empty());
}

#[test]
fn waveform_uses_peaks_for_long_ranges() {
    let track: Vec<f32> = (0..3000).map(|i| if i == 1700 { 0.9 } else { -0.1 }).collect();
    let a = recording("t.wav", &[&track], 44100, 16);
    assert_eq!(min_max(&a, 0, 5, 5), (single(0.0), single(0.0)));
    assert_eq!(min_max(&a, 0, 1690, 1701), (single(-0.1), single(0.9)));
    assert_eq!(min_max(&a, 0, 1690, 1700), (single(-0.1), single(-0.1)));
    assert_eq!(min_max(&a, 0, 1100, 1700), (single(-0.1), single(-0.1)));
    assert_eq!(min_max(&a, 0, 1024, 2048), (single(-0.1), single(0.9)));
    assert_eq!(min_max(&a, 0, 2900, 3000), (single(-0.1), single(-0.1)));
    for (begin, end) in [(0, 1701), (1700, 3000), (512, 2048), (1500, 1800), (1, 3000)] {
        assert_eq!(min_max(&a, 0, begin, end), (single(-0.1), single(0.9)), "{begin}..{end}");
    }
    for (begin, end) in [(0, 1700), (1701, 3000), (1536, 1700)] {
        assert_eq!(min_max(&a, 0, begin, end), (single(-0.1), single(-0.1)), "{begin}..{end}");
    }
    let track: Vec<f32> = (0..1024).map(|i| if i == 700 { 1.0 } else { 0.0 }).collect();
    let a = recording("t.wav", &[&track], 44100, 16);
    assert_eq!(min_max(&a, 0, 0, 1000), (single(0.0), single(1.0)));
}

#[test]
fn several_files_become_one_recording() {
    let a = recording("d/b.wav", &[&[0.5, 0.25]], 44100, 16);
    let b = recording("d/a.wav", &[&[0.1], &[0.2]], 44100, 24);
    let c = recording("d/c.wav", &[&[0.7], &[0.8], &[0.9]], 44100, 16);
    let all = load_many(vec![a, b, c]).unwrap();
    assert_eq!((all.channels(), all.frames()), (6, 2));
    assert_eq!(all.tracks[0], singles(&[0.5, 0.25]));
    assert_eq!(all.tracks[2], singles(&[0.2, 0.0]));
    assert_eq!(all.source_channels, [1, 2, 3]);
    assert_eq!(all.path, "d/b.wav");
    assert_eq!(all.sources, ["d/b.wav", "d/a.wav", "d/c.wav"]);
    assert_eq!(all.bits_per_sample, 24);
    assert_eq!(all.default_track_names(), ["b", "a L", "a R", "c 1", "c 2", "c 3"]);
    assert_eq!(all.file_name(), "3 files in d");
    assert_eq!(all.peaks[0], compute_peaks(&all.tracks[0]));
}

#[test]
fn sample_rates_have_to_agree() {
    let a = recording("d/b.wav", &[&[0.5]], 44100, 16);
    let b = recording("d/a.wav", &[&[0.1]], 48000, 16);
    let err = load_many(vec![a, b]).unwrap_err();
    assert_eq!(err, "a.wav has a sample rate of 48000 Hz, but b.wav has 44100 Hz");
    assert_eq!(load_many(Vec::new()).unwrap_err(), "No files to open");
}

#[test]
fn tracks_are_kept_inside_song() {
    let mut song = Song::new(7, "x".to_string(), 100, 200, 4);
    assert_eq!(song.frames(), 100);
    assert_eq!(song.tracks, vec![TrackSettings::default(); 4]);
    song.tracks[0].start = Some(50);
    song.tracks[0].end = Some(500);
    assert_eq!(song.track_range(0), Some((100, 200)));
    song.tracks[1].start = Some(150);
    song.tracks[1].end = Some(150);
    assert_eq!(song.track_range(1), None);
    song.tracks[2].active = false;
    assert_eq!(song.track_range(2), None);
    assert_eq!(song.track_range(4), None);
    assert_eq!(song.active_channels(), [0, 1, 3]);
    song.fit_channels(2);
    assert_eq!(song.tracks.len(), 2);
    assert_eq!(song.tracks[0].start, Some(50));
    song.fit_channels(3);
    assert_eq!(song.tracks[2], TrackSettings::default());
    let backwards = Song::new(0, String::new(), 5, 3, 1);
    assert_eq!((backwards.frames(), backwards.track_range(0)), (0, None));
}

#[test]
fn solo_wins_over_everything_else() {
    let mut song = Song::new(0, String::new(), 10, 20, 4);
    song.tracks[0].mute = true;
    song.tracks[1].active = false;
    song.tracks[3].start = Some(15);
    song.tracks[3].pan = single(-1.0);
    let heard: Vec<usize> = song_mixes(&song).iter().map(|m| m.channel).collect();
    assert_eq!(heard, [2, 3]);
    assert_eq!(
        song_mixes(&song)[1],
        TrackMix {
            channel: 3,
            gain: Gain::Fader { volume: single(1.0), pan: single(-1.0) },
            start: 15,
            end: 20,
        }
    );
    song.tracks[2].solo = true;
    let heard: Vec<usize> = song_mixes(&song).iter().map(|m| m.channel).collect();
    assert_eq!(heard, [2]);
    song.tracks[2].solo = false;
    song.tracks[1].solo = true;
    assert!(song_mixes(&song).is_empty());
}

#[test]
fn blocks_hold_what_is_heard() {
    let track: Vec<f32> = vec![0.5; 100];
    let a = recording("t.wav", &[&track, &track], 44100, 16);
    let mix = |channel, start, end| TrackMix { channel, gain: Gain::Even { channels: 2 }, start, end };
    let mixes = [mix(0, 0, 100), mix(1, 30, 60), mix(1, 70, 80), mix(2, 0, 100)];
    let block = mix_block(&a, &mixes, 20, 50);
    assert_eq!(block.frames, 30);
    assert_eq!(
        block.spans,
        [
            Span { mix: 0, channel: 0, start: 20, end: 50, offset: 0 },
            Span { mix: 1, channel: 1, start: 30, end: 50, offset: 10 },
        ]
    );
    assert_eq!(mix_block(&a, &mixes, 90, 500).frames, 10);
    let past = mix_block(&a, &mixes, 100, 500);
    assert_eq!((past.frames, past.spans.len()), (0, 0));
    assert_eq!(flat_mixes(2, 100), [mix(0, 0, 100), mix(1, 0, 100)]);
}

#[test]
fn blocks_add_up_the_same() {
    let track: Vec<f32> = vec![0.5; 100];
    let a = recording("t.wav", &[&track, &track], 44100, 16);
    let mix = |channel, start, end| TrackMix { channel, gain: Gain::Even { channels: 2 }, start, end };
    let mixes = [mix(0, 0, 100), mix(1, 30, 60), mix(1, 50, 80), mix(2, 0, 100)];
    let heard = |from: usize, to: usize| -> Vec<Vec<(usize, usize)>> {
        let block = mix_block(&a, &mixes, from, to);
        let part = |f: usize| {
            let spans = block.spans.iter().filter(|s| s.start <= f && f < s.end);
            spans.map(|s| (s.mix, s.channel)).collect()
        };
        (from..from + block.frames).map(part).collect()
    };
    let whole = heard(10, 200);
    assert_eq!(whole.len(), 90);
    assert_eq!(whole[45], [(0, 0), (1, 1), (2, 1)]);
    for size in [1, 7, 32] {
        let cut: Vec<_> = (10..200).step_by(size).flat_map(|f| heard(f, (f + size).min(200))).collect();
        assert_eq!(cut, whole);
    }
}

#[test]
fn labels_of_faders_and_pans() {
    assert_eq!(volume_to_db_label(single(0.0005), "-66.0"), "-inf dB");
    assert_eq!(volume_to_db_label(single(0.00051), "-65.8"), "-65.8 dB");
    assert_eq!(volume_to_db_label(single(-1.0), "NaN"), "-inf dB");
    assert_eq!(volume_to_db_label(single(f32::NAN), "NaN"), "NaN dB");
    assert_eq!(pan_label(0, true), "C");
    assert_eq!(pan_label(40, true), "L40");
    assert_eq!(pan_label(100, false), "R100");
}

#[test]
fn older_projects_name_one_file() {
    let mut p = Project {
        audio_files: Vec::new(),
        audio_file: "tape.wav".to_string(),
        sample_rate: 44100,
        channels: 1,
        track_names: Vec::new(),
        songs: vec![
            Song::new(9, "a".to_string(), 0, 1, 1),
            Song::new(9, "b".to_string(), 0, 1, 1),
        ],
        mix_format: None,
        stem_format: None,
    };
    assert_eq!(p.files(), ["tape.wav"]);
    p.number_songs();
    assert_eq!((p.songs[0].id, p.songs[1].id), (0, 1));
    assert_eq!(p.songs[1].title, "b");
    p.audio_files = vec!["x.wav".to_string(), "y.wav".to_string()];
    assert_eq!(p.files(), ["x.wav", "y.wav"]);
    p.audio_file = String::new();
    p.audio_files.clear();
    assert!(p.files().is_empty());
    assert_eq!(default_track_names(2), ["Track 1", "Track 2"]);
}
