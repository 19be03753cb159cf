use std::io::Cursor;

use multi_track_split::audio::{
    load_many, stream_format, AudioData, DecodeOutcome, Decoding, ReadOutcome, ReadStep,
};
use multi_track_split::export::{
    export_all_mixdowns, export_all_multitrack, export_mixdown, export_multitrack,
    export_stem_tracks, render_mixdown, render_multitrack, render_track_stem, sanitize_filename,
    song_failure, song_file_stem, stem_file_name, write_audio, write_float_wav, MixStep, OutFile,
    StemStep,
};
use multi_track_split::formats::{Format, MixFormat, StemFormat, StemLayout};
use multi_track_split::mix::{mix_block, song_mixes, Gain, TrackMix};
use multi_track_split::natural::order_files;
use multi_track_split::path::PathStyle;
use multi_track_split::project::{
    audio_reference, resolve_audio_path, sidecar_path, Project, Song,
};
use multi_track_split::single::Single;

const UNIX: PathStyle = PathStyle::Unix;
const SR: u32 = 44100;
const TONES: [f32; 4] = [220.0, 330.0, 440.0, 550.0];
const TARGET_DB: f32 = -1.0;

fn single(v: f32) -> Single {
    Single { bits: v.to_bits() }
}

/// Decodes a file from its bytes.
fn load(path: &str, bytes: &[u8]) -> AudioData {
    let source = Box::new(Cursor::new(bytes.to_vec()));
    let stream = symphonia::core::io::MediaSourceStream::new(source, Default::default());
    let probed = symphonia::default::get_probe()
        .format(
            &symphonia::core::probe::Hint::new(),
            stream,
            &symphonia::core::formats::FormatOptions::default(),
            &symphonia::core::meta::MetadataOptions::default(),
        )
        .unwrap();
    let mut reader = probed.format;
    let track = reader.default_track().unwrap();
    let id = track.id;
    let params = track.codec_params.clone();
    let format = stream_format(
        true,
        params.sample_rate,
        params.channels.map(|c| c.count()),
        params.bits_per_sample,
        (params.codec == symphonia::core::codecs::CODEC_TYPE_PCM_F32LE).then_some(32),
    )
    .unwrap();
    let options = symphonia::core::codecs::DecoderOptions::default();
    let mut decoder = symphonia::default::get_codecs().make(&params, &options).unwrap();
    let mut decoding = Decoding::new(id, format);
    loop {
        let packet = reader.next_packet();
        let outcome = match &packet {
            Ok(p) => ReadOutcome::Packet(p.track_id()),
            Err(_) => ReadOutcome::EndOfFile,
        };
        match decoding.after_read(outcome) {
            ReadStep::Decode => {}
            ReadStep::Skip => continue,
            ReadStep::Finish => break,
            ReadStep::Fail(e) => panic!("{}", e.text()),
        }
        let decoded = decoder.decode(&packet.unwrap()).unwrap();
        let capacity = decoded.capacity() as u64;
        let mut buffer =
            symphonia::core::audio::SampleBuffer::<f32>::new(capacity, *decoded.spec());
        buffer.copy_interleaved_ref(decoded);
        let samples = buffer.samples().iter().map(|v| single(*v)).collect();
        decoding.after_decode(DecodeOutcome::Samples(samples)).unwrap();
    }
    decoding.finish(UNIX, path).unwrap()
}

fn load_file(file: &OutFile) -> AudioData {
    load(&file.path, &file.bytes)
}

fn value(s: &Single) -> f32 {
    f32::from_bits(s.bits)
}

fn rms(track: &[Single]) -> f32 {
    let sum: f32 = track.iter().map(|s| value(s) * value(s)).sum();
    (sum / track.len().max(1) as f32).sqrt()
}

fn peak(track: &[Single]) -> f32 {
    track.iter().fold(0f32, |m, s| m.max(value(s).abs()))
}

fn secs(s: f64) -> usize {
    (s * SR as f64) as usize
}

/// A 30 s four-track WAV: each track carries its own continuous sine tone.
fn make_test_tape() -> AudioData {
    let frames = 30 * SR as usize;
    let mut samples = Vec::with_capacity(frames * TONES.len());
    for i in 0..frames {
        let t = i as f32 / SR as f32;
        for freq in TONES {
            samples.push(single(0.5 * (2.0 * std::f32::consts::PI * freq * t).sin()));
        }
    }
    let bytes = write_audio(UNIX, "/t/tape.wav", &samples, TONES.len(), 16, SR).unwrap();
    load("/t/tape.wav", &bytes)
}

/// Song from 5 s to 25 s: track 1 starts 10 s in, track 2 ends 5 s early,
/// track 3 is not used at all.
fn test_song() -> Song {
    let mut song = Song::new(0, "Overlap".to_string(), secs(5.0), secs(25.0), TONES.len());
    song.tracks[1].start = Some(secs(15.0));
    song.tracks[2].end = Some(secs(20.0));
    song.tracks[3].active = false;
    song
}

/// Constant-power pan.
fn pan_gains(pan: f32) -> (f32, f32) {
    let angle = (pan.clamp(-1.0, 1.0) + 1.0) * std::f32::consts::FRAC_PI_4;
    (angle.cos(), angle.sin())
}

fn gains(gain: Gain) -> (f32, f32) {
    match gain {
        Gain::Fader { volume, pan } => {
            let (l, r) = pan_gains(value(&pan));
            (l * value(&volume), r * value(&volume))
        }
        Gain::Even { channels } => {
            let (l, r) = pan_gains(0.0);
            let scale = 1.0 / (channels.max(1) as f32).sqrt();
            (l * scale, r * scale)
        }
    }
}

fn render(audio: &AudioData, mixes: &[TrackMix], from: usize, to: usize) -> Vec<f32> {
    let block = mix_block(audio, mixes, from, to);
    let mut out = vec![0.0f32; 2 * block.frames];
    for span in &block.spans {
        let (l, r) = gains(mixes[span.mix].gain);
        for (k, s) in audio.tracks[span.channel][span.start..span.end].iter().enumerate() {
            out[2 * (span.offset + k)] += value(s) * l;
            out[2 * (span.offset + k) + 1] += value(s) * r;
        }
    }
    out
}

/// Mixes a song, scales it where the format asks for that, and exports it.
fn mixdown(audio: &AudioData, song: &Song, path: &str, mode: MixFormat) -> Result<OutFile, String> {
    let plan = render_mixdown(audio, song, path)?;
    let samples = render(audio, &plan.mixes, plan.start, plan.end);
    let level = samples.iter().fold(0f32, |m, v| m.max(v.abs()));
    let (gain, text) = match mode {
        MixFormat::Float32 => (1.0, format!("{:+.1}", 20.0 * level.max(1e-9).log10())),
        MixFormat::Normalized { .. } => {
            let target = 10f32.powf(TARGET_DB / 20.0);
            let gain = if level > 0.0 { target / level } else { 1.0 };
            (gain, format!("{:+.1}", 20.0 * gain.log10()))
        }
    };
    let scaled: Vec<Single> = samples.iter().map(|v| single(v * gain)).collect();
    export_mixdown(UNIX, path, plan.format, mode, &scaled, &text, audio.sample_rate)
}

#[test]
fn end_to_end() {
    let audio = make_test_tape();
    assert_eq!(audio.channels(), 4);
    assert_eq!(audio.frames(), 30 * SR as usize);
    assert_eq!(audio.sample_rate, SR);

    let song = test_song();
    assert_eq!(song.track_range(0), Some((secs(5.0), secs(25.0))));
    assert_eq!(song.track_range(1), Some((secs(15.0), secs(25.0))));
    assert_eq!(song.track_range(2), Some((secs(5.0), secs(20.0))));
    assert_eq!(song.track_range(3), None);

    // Multitrack export in both formats: 3 tracks, 20 s, with silence where
    // a track is not (yet / any more) part of the song.
    let loud = 0.5 / 2f32.sqrt();
    for ext in ["flac", "wav"] {
        let out = format!("/t/song.{ext}");
        let file = export_multitrack(&audio, &song, &out, "00:20.000").unwrap();
        assert_eq!(file.path, out);
        assert_eq!(file.message, format!("Wrote {out} (3 tracks, 00:20.000)."));
        let back = load_file(&file);
        assert_eq!(back.channels(), 3, "{ext}: only active tracks are exported");
        assert_eq!(back.frames(), secs(20.0), "{ext}: song length");
        assert_eq!(back.bits_per_sample, 16);

        // Track 0: tone throughout.
        assert!((rms(&back.tracks[0][..secs(5.0)]) - loud).abs() < 0.02, "{ext}");
        assert!((rms(&back.tracks[0][secs(15.0)..]) - loud).abs() < 0.02, "{ext}");
        // Track 1 (tape track 2): silent for its first 10 s, then tone.
        assert!(rms(&back.tracks[1][..secs(10.0)]) < 0.001, "{ext}: leading silence");
        assert!((rms(&back.tracks[1][secs(10.0)..]) - loud).abs() < 0.02, "{ext}");
        // Track 2 (tape track 3): tone for 15 s, then silent.
        assert!((rms(&back.tracks[2][..secs(15.0)]) - loud).abs() < 0.02, "{ext}");
        assert!(rms(&back.tracks[2][secs(15.0)..]) < 0.001, "{ext}: trailing silence");
        // Nothing is lost on the way.
        assert_eq!(back.tracks[0], audio.tracks[0][secs(5.0)..secs(25.0)], "{ext}");
    }

    // Mixdown: pan track 0 hard left, track 2 hard right, mute track 1: the
    // right channel is silent once track 2 has ended at 15 s into the song.
    let mut mixed = song.clone();
    mixed.tracks[0].pan = single(-1.0);
    mixed.tracks[0].volume = single(1.5);
    mixed.tracks[1].mute = true;
    mixed.tracks[2].pan = single(1.0);
    let file = mixdown(&audio, &mixed, "/t/song (mix).wav", MixFormat::Float32).unwrap();
    assert!(file.message.contains("32-bit float"), "{}", file.message);
    let back = load_file(&file);
    assert_eq!(back.channels(), 2);
    assert_eq!(back.bits_per_sample, 32);
    assert_eq!(back.frames(), secs(20.0));
    let left_peak = peak(&back.tracks[0]);
    assert!((left_peak - 0.75).abs() < 0.01, "float keeps the hot mix: {left_peak}");
    assert!(rms(&back.tracks[1][..secs(15.0)]) > 0.3, "right carries track 2");
    assert!(rms(&back.tracks[1][secs(15.0)..]) < 0.001, "right silent after track 2 ends");

    mixed.tracks[0].volume = single(2.5);
    let file = mixdown(&audio, &mixed, "/t/song hot (mix).wav", MixFormat::Float32).unwrap();
    let left_peak = peak(&load_file(&file).tracks[0]);
    assert!((left_peak - 1.25).abs() < 0.01, "float wav keeps >0 dBFS: {left_peak}");

    // Float cannot go into FLAC.
    let err = mixdown(&audio, &mixed, "/t/x.flac", MixFormat::Float32).unwrap_err();
    assert!(err.contains("float"), "{err}");

    // Normalized integer exports land at the -1 dBFS target, whether the mix
    // was too hot (scaled down) or quiet (scaled up).
    let target = 10f32.powf(TARGET_DB / 20.0);
    for (name, mode, bits) in [
        ("/t/hot16.wav", MixFormat::Normalized { format: Format::Wav, bits: 16 }, 16),
        ("/t/hot24.flac", MixFormat::Normalized { format: Format::Flac, bits: 24 }, 24),
    ] {
        let file = mixdown(&audio, &mixed, name, mode).unwrap();
        assert!(file.message.contains("normalized -"), "{}", file.message);
        let back = load_file(&file);
        assert_eq!(back.bits_per_sample, bits, "{name}");
        let left_peak = peak(&back.tracks[0]);
        assert!((left_peak - target).abs() < 0.002, "{name} normalized peak {left_peak}");
    }
    let mut quiet = mixed.clone();
    quiet.tracks[0].volume = single(0.1);
    let mode = MixFormat::Normalized { format: Format::Wav, bits: 24 };
    let file = mixdown(&audio, &quiet, "/t/quiet.wav", mode).unwrap();
    assert!(file.message.contains("normalized +"), "{}", file.message);
    assert!(file.message.ends_with(" dB to a -1 dBFS peak)."), "{}", file.message);
    let back = load_file(&file);
    // Track 2 on the right is now the loudest part of the mix.
    let loudest = peak(&back.tracks[0]).max(peak(&back.tracks[1]));
    assert!((loudest - target).abs() < 0.002, "quiet mix raised to target: {loudest}");

    // Export all mixes into a folder, in the chosen format.
    let both = [song.clone(), mixed.clone()];
    let step = |songs: &[Song], mode, at| {
        match export_all_mixdowns(UNIX, songs, "/t/mixes", mode, at, Ok(())) {
            MixStep::Song(p) => p,
            MixStep::Done(m) => m,
            MixStep::Failed(e) => panic!("{e}"),
        }
    };
    assert_eq!(step(&both, MixFormat::Float32, 0), "/t/mixes/01 - Overlap (mix).wav");
    assert_eq!(step(&both, MixFormat::Float32, 1), "/t/mixes/02 - Overlap (mix).wav");
    assert_eq!(
        step(&both, MixFormat::Float32, 2),
        "Exported 2 mixes (WAV 32-bit float) to /t/mixes."
    );
    let flac16 = MixFormat::Normalized { format: Format::Flac, bits: 16 };
    assert_eq!(step(&both[..1], flac16, 0), "/t/mixes/01 - Overlap (mix).flac");

    // Solo wins over everything else.
    let mut soloed = song.clone();
    soloed.tracks[2].solo = true;
    let mixes = song_mixes(&soloed);
    assert_eq!(mixes.len(), 1);
    assert_eq!(mixes[0].channel, 2);

    // FLAC is limited to 8 channels; a 9-track song must be refused.
    let wide = Song::new(1, "wide".into(), 0, 100, 9);
    let err = write_audio(UNIX, "/t/wide.flac", &vec![single(0.0); 900], 9, 16, SR).unwrap_err();
    assert!(err.contains("8 channels"), "{err}");
    assert_eq!(wide.active_channels().len(), 9);

    // Per-track stems: one mono file per used track in a song folder, with
    // the same silence placement as the interleaved file.
    let names: Vec<String> = ["Kick", "Bass", "Gtr", "Vox"].map(String::from).to_vec();
    let batch = export_stem_tracks(&audio, &song, &names, "/t/01 - Overlap", Format::Wav);
    let msg = batch.outcome.unwrap();
    assert!(msg.contains("3 track files"), "{msg}");
    assert_eq!(batch.make_dir.as_deref(), Some("/t/01 - Overlap"));
    let paths: Vec<&str> = batch.files.iter().map(|f| f.path.as_str()).collect();
    assert_eq!(
        paths,
        [
            "/t/01 - Overlap/T01 - Kick.wav",
            "/t/01 - Overlap/T02 - Bass.wav",
            "/t/01 - Overlap/T03 - Gtr.wav",
        ],
        "unused track is not written"
    );
    let bass = load_file(&batch.files[1]);
    assert_eq!(bass.channels(), 1);
    assert_eq!(bass.frames(), secs(20.0));
    assert!(rms(&bass.tracks[0][..secs(10.0)]) < 0.001);
    assert!((rms(&bass.tracks[0][secs(10.0)..]) - loud).abs() < 0.02);
    let gtr = load_file(&batch.files[2]);
    assert!((rms(&gtr.tracks[0][..secs(15.0)]) - loud).abs() < 0.02);
    assert!(rms(&gtr.tracks[0][secs(15.0)..]) < 0.001);
    assert_eq!(stem_file_name(5, &names, "flac"), "T06 - Track 6.flac");

    // Export-all names files by number and title, in either layout.
    let mut second = Song::new(1, "Second: Take/2".into(), secs(20.0), secs(30.0), 4);
    second.tracks[0].active = false;
    let both = [song.clone(), second.clone()];
    let interleaved = StemFormat { format: Format::Flac, layout: StemLayout::Interleaved };
    let next = |stems, at| {
        export_all_multitrack(&audio, &both, &names, "/t/all", stems, at, "x", Ok(()))
    };
    let all = |stems, at| match next(stems, at) {
        StemStep::Song(batch) => batch,
        other => panic!("{other:?}"),
    };
    assert_eq!(all(interleaved, 0).files[0].path, "/t/all/01 - Overlap.flac");
    assert_eq!(all(interleaved, 1).files[0].path, "/t/all/02 - Second_ Take_2.flac");
    let per_track = StemFormat { format: Format::Flac, layout: StemLayout::Tracks };
    assert_eq!(all(per_track, 0).files[0].path, "/t/all/01 - Overlap/T01 - Kick.flac");
    let stems = all(per_track, 1);
    assert_eq!(stems.make_dir.as_deref(), Some("/t/all/02 - Second_ Take_2"));
    assert_eq!(stems.files[0].path, "/t/all/02 - Second_ Take_2/T02 - Bass.flac");
    match next(per_track, 2) {
        StemStep::Done(message) => {
            assert_eq!(message, "Exported 2 songs (FLAC one file per track) to /t/all.")
        }
        other => panic!("{other:?}"),
    }

    // The project refers to its recording by bare file name.
    let tape = "/t/tape.wav".to_string();
    let project_path = sidecar_path(UNIX, std::slice::from_ref(&tape));
    let project = Project {
        audio_files: vec![audio_reference(UNIX, &project_path, &tape)],
        audio_file: String::new(),
        sample_rate: SR,
        channels: 4,
        track_names: names,
        songs: vec![song.clone(), second],
        mix_format: Some(MixFormat::Normalized { format: Format::Flac, bits: 24 }),
        stem_format: Some(StemFormat { format: Format::Wav, layout: StemLayout::Tracks }),
    };
    assert_eq!(project.audio_files, ["tape.wav"]);
    assert_eq!(
        resolve_audio_path(UNIX, &project_path, &project.files()[0], |p| *p == tape),
        Some(tape.clone())
    );
}

/// Several mono/stereo files become consecutive tracks, ordered naturally by
/// name, padded with silence to the longest file.
#[test]
fn multi_file_tape() {
    let dir = "/t/multi_track_split_multi";
    let tone = |freq: f32, secs: usize, channels: usize| -> Vec<Single> {
        (0..secs * SR as usize)
            .flat_map(|i| {
                let v = 0.5 * (2.0 * std::f32::consts::PI * freq * i as f32 / SR as f32).sin();
                std::iter::repeat_n(single(v), channels)
            })
            .collect()
    };
    // "track 10" must sort after "track 2"; the stereo file is the longest.
    let files = [
        ("track 10 vox.wav", 220.0, 6, 1),
        ("track 2 bass.wav", 330.0, 10, 1),
        ("track 1 drums.flac", 440.0, 8, 2),
    ];
    let mut paths = Vec::new();
    let mut written = Vec::new();
    for (name, freq, secs, ch) in files {
        let path = format!("{dir}/{name}");
        let bytes = write_audio(UNIX, &path, &tone(freq, secs, ch), ch, 16, SR).unwrap();
        written.push((path.clone(), bytes));
        paths.push(path);
    }
    let parts: Vec<AudioData> = order_files(UNIX, paths.clone())
        .iter()
        .map(|p| {
            let (_, bytes) = written.iter().find(|(q, _)| q == p).unwrap();
            load(p, bytes)
        })
        .collect();

    let audio = load_many(parts).expect("load set");
    assert_eq!(audio.channels(), 4);
    assert_eq!(audio.frames(), 10 * SR as usize, "padded to the longest file");
    assert_eq!(audio.source_channels, [2, 1, 1]);
    assert_eq!(
        audio.default_track_names(),
        ["track 1 drums L", "track 1 drums R", "track 2 bass", "track 10 vox"]
    );
    assert_eq!(audio.path, format!("{dir}/track 1 drums.flac"));
    assert!(audio.file_name().starts_with("3 files in "));

    let loud = 0.5 / 2f32.sqrt();
    // Drums: 8 s of tone on both channels, then silence.
    assert!((rms(&audio.tracks[0][..secs(8.0)]) - loud).abs() < 0.02);
    assert!((rms(&audio.tracks[1][..secs(8.0)]) - loud).abs() < 0.02);
    assert!(rms(&audio.tracks[0][secs(8.0)..]) < 0.001);
    // Bass fills the whole length; vox stops after 6 s.
    assert!((rms(&audio.tracks[2][secs(9.0)..]) - loud).abs() < 0.02);
    assert!((rms(&audio.tracks[3][..secs(6.0)]) - loud).abs() < 0.02);
    assert!(rms(&audio.tracks[3][secs(6.0)..]) < 0.001);

    // The sidecar for a set is named after the directory.
    assert_eq!(
        sidecar_path(UNIX, &audio.sources),
        format!("{dir}/multi_track_split_multi.mtsplit.json")
    );

    // Mismatched sample rates are refused.
    let odd = format!("{dir}/odd.wav");
    let bytes = write_audio(UNIX, &odd, &tone(100.0, 1, 1), 1, 16, 48000).unwrap();
    let err = load_many(vec![load(&paths[0], &written[0].1), load(&odd, &bytes)]).unwrap_err();
    assert!(err.contains("48000 Hz"), "{err}");
}

fn small_recording(tracks: usize, frames: usize) -> AudioData {
    let samples: Vec<Single> =
        (0..frames * tracks).map(|i| single((i + 1) as f32 / 32768.0)).collect();
    let bytes = write_audio(UNIX, "t.wav", &samples, tracks, 16, SR).unwrap();
    load("t.wav", &bytes)
}

#[test]
fn multitrack_needs_tracks_and_range() {
    let audio = small_recording(2, 10);
    let mut song = Song::new(0, String::new(), 2, 6, 3);
    let (samples, n) = render_multitrack(&audio, &song).unwrap();
    assert_eq!((samples.len(), n), (8, 2));
    assert_eq!(samples[0], audio.tracks[0][2]);
    assert_eq!(samples[7], audio.tracks[1][5]);
    song.start = 10;
    song.end = 12;
    assert_eq!(render_multitrack(&audio, &song).unwrap_err(), "The song range is empty");
    song.tracks[0].active = false;
    song.tracks[1].active = false;
    assert_eq!(render_multitrack(&audio, &song).unwrap_err(), "The song has no active tracks");
    let err = export_multitrack(&audio, &song, "x.wav", "").unwrap_err();
    assert_eq!(err, "The song has no active tracks");
    let mixed = render_mixdown(&audio, &song, "x.wav").unwrap_err();
    assert_eq!(mixed, "The song range is empty");
    song.start = 0;
    song.tracks[2].active = false;
    let mixed = render_mixdown(&audio, &song, "x.wav").unwrap_err();
    assert_eq!(mixed, "Nothing to mix: every track is inactive or muted");
}

#[test]
fn stem_is_column_of_multitrack() {
    let audio = small_recording(3, 20);
    let mut song = Song::new(0, String::new(), 4, 16, 3);
    song.tracks[0].active = false;
    song.tracks[1].start = Some(9);
    song.tracks[2].end = Some(7);
    let (samples, n) = render_multitrack(&audio, &song).unwrap();
    assert_eq!(n, 2);
    for (slot, ch) in [1usize, 2].into_iter().enumerate() {
        let stem = render_track_stem(&audio, &song, ch).unwrap();
        let column: Vec<Single> = samples.iter().skip(slot).step_by(2).copied().collect();
        assert_eq!(stem, column);
    }
    assert_eq!(samples[0], single(0.0));
    assert_eq!(samples[1], audio.tracks[2][4]);
    assert!(render_track_stem(&audio, &song, 0).is_none());
    assert!(render_track_stem(&audio, &song, 3).is_none());
}

#[test]
fn formats_follow_extension() {
    assert_eq!(Format::from_path(UNIX, "/x/A.FLAC"), Ok(Format::Flac));
    assert_eq!(Format::from_path(UNIX, "b.Wav"), Ok(Format::Wav));
    assert_eq!(
        Format::from_path(UNIX, "c.MP3").unwrap_err(),
        "Unsupported output extension \"mp3\": use .flac or .wav"
    );
    assert_eq!(
        Format::from_path(UNIX, "wav").unwrap_err(),
        "Unsupported output extension \"\": use .flac or .wav"
    );
    assert_eq!(
        Format::from_path(UNIX, "x.a\"\\\n").unwrap_err(),
        "Unsupported output extension \"a\\\"\\\\\\n\": use .flac or .wav"
    );
    assert_eq!((Format::Wav.extension(), Format::Flac.extension()), ("wav", "flac"));
    let err = write_audio(UNIX, "x.ogg", &[], 1, 16, SR).unwrap_err();
    assert!(err.starts_with("Unsupported output extension"), "{err}");
}

#[test]
fn offered_formats() {
    assert_eq!(StemFormat::all().len(), 4);
    assert_eq!(StemFormat::available_for(8).len(), 4);
    let wide = StemFormat::available_for(9);
    assert_eq!(wide.len(), 3);
    assert!(!wide.contains(&StemFormat::default()));
    assert!(StemFormat::default().is_available_for(8));
    assert!(!StemFormat::default().is_available_for(9));
    assert_eq!(StemFormat::default().extension(), "flac");
    assert_eq!(StemFormat::default().label(), "FLAC interleaved");
    let labels: Vec<String> = MixFormat::all().into_iter().map(|f| f.label()).collect();
    assert_eq!(
        labels,
        [
            "WAV 32-bit float",
            "WAV 24-bit, normalized",
            "WAV 16-bit, normalized",
            "FLAC 24-bit, normalized",
            "FLAC 16-bit, normalized",
        ]
    );
    assert_eq!(MixFormat::default(), MixFormat::Float32);
    assert_eq!(MixFormat::all()[3].extension(), "flac");
    assert_eq!(MixFormat::Float32.extension(), "wav");
}

#[test]
fn file_names_are_clean() {
    assert_eq!(sanitize_filename(" a<b>c:d\"e/f\\g|h?i*j\tk "), "a_b_c_d_e_f_g_h_i_j_k");
    assert_eq!(sanitize_filename("\u{a0}x\u{3000}"), "x");
    assert_eq!(sanitize_filename("\u{85}x"), "_x");
    assert_eq!(song_file_stem(3, &Song::new(0, " Hey/You ".into(), 0, 1, 1)), "03 - Hey_You");
    assert_eq!(song_file_stem(3, &Song::new(0, "\u{a0} ".into(), 0, 1, 1)), "03 - Song 03");
    assert_eq!(song_file_stem(123, &Song::new(0, "x".into(), 0, 1, 1)), "123 - x");
    let names = vec!["Kick".to_string(), "  ".to_string(), "a/b".to_string()];
    assert_eq!(stem_file_name(0, &names, "wav"), "T01 - Kick.wav");
    assert_eq!(stem_file_name(1, &names, "wav"), "T02 - Track 2.wav");
    assert_eq!(stem_file_name(2, &names, "flac"), "T03 - a_b.flac");
    assert_eq!(song_failure(4, "oh"), "Song 4: oh");
}

#[test]
fn wide_songs_fall_back_to_wav() {
    let audio = small_recording(9, 10);
    let songs = [Song::new(0, "Wide".into(), 0, 10, 9)];
    let stems = StemFormat::default();
    let batch = match export_all_multitrack(&audio, &songs, &[], "d", stems, 0, "x", Ok(())) {
        StemStep::Song(batch) => batch,
        other => panic!("{other:?}"),
    };
    assert!(batch.outcome.is_ok());
    assert_eq!(batch.files[0].path, "d/01 - Wide.wav");
    let err = export_multitrack(&audio, &songs[0], "d/x.flac", "x").unwrap_err();
    assert_eq!(
        err,
        "FLAC supports at most 8 channels; this song uses 9. Export as .wav instead."
    );
}

#[test]
fn failing_song_is_named() {
    let audio = small_recording(1, 10);
    let mut empty = Song::new(0, "Empty".into(), 0, 10, 1);
    empty.tracks[0].active = false;
    let songs = [Song::new(0, "Fine".into(), 0, 10, 1), empty];
    for layout in [StemLayout::Interleaved, StemLayout::Tracks] {
        let stems = StemFormat { format: Format::Wav, layout };
        let step = |at, last| {
            export_all_multitrack(&audio, &songs, &[], "d", stems, at, "x", last)
        };
        let batch = |at| match step(at, Ok(())) {
            StemStep::Song(batch) => batch,
            other => panic!("{other:?}"),
        };
        assert_eq!(batch(0).files.len(), 1);
        let bad = batch(1);
        assert!(bad.make_dir.is_none() && bad.files.is_empty());
        let last = bad.outcome.map(|_| ());
        match step(2, last) {
            StemStep::Failed(e) => assert_eq!(e, "Song 2: The song has no active tracks"),
            other => panic!("{other:?}"),
        }
    }
}

#[test]
fn export_stops_at_first_failure() {
    let songs: Vec<Song> = (0..3).map(|i| Song::new(i, format!("S{i}"), 0, 10, 1)).collect();
    let outcomes = [Ok(()), Err("disk full".to_string()), Ok(())];
    let mut at = 0;
    let mut last = Ok(());
    let mut tried = Vec::new();
    let end = loop {
        match export_all_mixdowns(UNIX, &songs, "d", MixFormat::Float32, at, last) {
            MixStep::Song(path) => tried.push(path),
            MixStep::Done(m) => panic!("{m}"),
            MixStep::Failed(e) => break e,
        }
        last = outcomes[at].clone();
        at += 1;
    };
    assert_eq!(end, "Song 2: disk full");
    assert_eq!(tried, ["d/01 - S0 (mix).wav", "d/02 - S1 (mix).wav"]);
}

#[test]
fn float_mixes_are_wav() {
    let samples = [single(0.5); 2];
    let err =
        export_mixdown(UNIX, "d/x.flac", Format::Flac, MixFormat::Float32, &samples, "0.0", u32::MAX)
            .unwrap_err();
    assert_eq!(
        err,
        "FLAC cannot hold 32-bit float; pick a normalized mix format or a .wav name"
    );
}

#[test]
fn stems_before_a_failure_are_kept() {
    let samples: Vec<Single> = vec![single(0.25); 20];
    let bytes = write_audio(UNIX, "t.wav", &samples, 2, 16, 192000).unwrap();
    let audio = load("t.wav", &bytes);
    let song = Song::new(0, "x".into(), 0, 10, 2);
    let batch = export_stem_tracks(&audio, &song, &[], "d", Format::Flac);
    assert!(batch.outcome.unwrap_err().starts_with("FLAC encoding failed: "));
    assert!(batch.files.is_empty());
    let batch = export_stem_tracks(&audio, &song, &[], "d", Format::Wav);
    assert_eq!(batch.outcome.unwrap(), "Wrote 2 track files to d.");
    let short = Song::new(0, "x".into(), 10, 12, 2);
    let batch = export_stem_tracks(&audio, &short, &[], "d", Format::Wav);
    assert_eq!(batch.outcome.unwrap(), "Wrote 0 track files to d.");
}

#[test]
fn bit_depth_is_kept_within_limits() {
    for (bits, expected) in [(8u32, 16u32), (16, 16), (20, 20), (24, 24), (32, 24)] {
        let bytes = write_audio(UNIX, "x.flac", &[single(0.5); 8], 1, bits, SR).unwrap();
        assert_eq!(load("x.flac", &bytes).bits_per_sample, expected);
    }
    let bytes = write_audio(UNIX, "x.wav", &[single(-0.5), single(0.25)], 1, 24, 96000).unwrap();
    let back = load("x.wav", &bytes);
    assert_eq!(back.tracks[0], [single(-0.5), single(0.25)]);
    assert_eq!((back.bits_per_sample, back.sample_rate), (24, 96000));
    let float = write_float_wav(&[single(3.5), single(-9.0)], 2, SR).unwrap();
    let back = load("f.wav", &float);
    assert_eq!(back.tracks, [[single(3.5)], [single(-9.0)]]);
}

#[test]
fn characters_agree_with_std() {
    for c in (0..0x30000u32).filter_map(char::from_u32) {
        let middle = sanitize_filename(&format!("a{c}b"));
        let replaced = c.is_control() || "<>:\"/\\|?*".contains(c);
        assert_eq!(middle, if replaced { "a_b".to_string() } else { format!("a{c}b") });
        let ends = sanitize_filename(&format!("{c}a{c}"));
        let kept = if replaced { '_' } else { c };
        assert_eq!(ends, format!("{kept}a{kept}").trim(), "{c:?}");
    }
}

#[test]
fn tracks_behind_the_recording_are_silent() {
    let samples: Vec<Single> = (0..8).map(|i| single(if i % 2 == 0 { 0.5 } else { 0.25 })).collect();
    let audio = load("t.wav", &write_audio(UNIX, "t.wav", &samples, 2, 16, SR).unwrap());
    let mut song = Song::new(0, "A".to_string(), 0, 10, 2);
    song.tracks[1].start = Some(6);
    let (out, n) = render_multitrack(&audio, &song).unwrap();
    let out: Vec<f32> = out.iter().map(value).collect();
    assert_eq!((out, n), (vec![0.5, 0.0, 0.5, 0.0, 0.5, 0.0, 0.5, 0.0], 2));
    assert_eq!(render_track_stem(&audio, &song, 1).unwrap(), vec![single(0.0); 4]);
}
