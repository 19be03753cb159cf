use std::io::Cursor;

use multi_track_split::flac::{encode_flac, equalize_block_sizes, flac_result, FlacError};
use multi_track_split::single::{quantize, Single};
use multi_track_split::wav::{encode_wav, WavSamples};

fn single(v: f32) -> Single {
    Single { bits: v.to_bits() }
}

/// All samples of a file, as integers that fill 32 bits, and its channels,
/// bits and sample rate.
fn decode(bytes: Vec<u8>) -> (Vec<i32>, usize, u32, u32) {
    let stream = symphonia::core::io::MediaSourceStream::new(Box::new(Cursor::new(bytes)), Default::default());
    let probed = symphonia::default::get_probe()
        .format(&symphonia::core::probe::Hint::new(), stream, &symphonia::core::formats::FormatOptions::default(), &symphonia::core::meta::MetadataOptions::default())
        .unwrap();
    let mut format = probed.format;
    let params = format.default_track().unwrap().codec_params.clone();
    let mut decoder =
        symphonia::default::get_codecs().make(&params, &symphonia::core::codecs::DecoderOptions::default()).unwrap();
    let mut out = Vec::new();
    while let Ok(packet) = format.next_packet() {
        let decoded = decoder.decode(&packet).unwrap();
        let mut buffer = symphonia::core::audio::SampleBuffer::<i32>::new(decoded.capacity() as u64, *decoded.spec());
        buffer.copy_interleaved_ref(decoded);
        out.extend_from_slice(buffer.samples());
    }
    (
        out,
        params.channels.unwrap().count(),
        params.bits_per_sample.unwrap(),
        params.sample_rate.unwrap(),
    )
}

#[test]
fn numbers_are_rounded_to_samples() {
    assert_eq!(quantize(single(0.0), 16), 0);
    assert_eq!(quantize(single(-0.0), 16), 0);
    assert_eq!(quantize(single(0.5), 16), 16384);
    assert_eq!(quantize(single(-1.0), 16), -32768);
    assert_eq!(quantize(single(1.0), 16), 32767);
    assert_eq!(quantize(single(7.5), 24), 8388607);
    assert_eq!(quantize(single(f32::INFINITY), 24), 8388607);
    assert_eq!(quantize(single(f32::NEG_INFINITY), 24), -8388608);
    assert_eq!(quantize(single(f32::NAN), 24), 0);
    assert_eq!(quantize(single(0.5 / 32768.0), 16), 1);
    assert_eq!(quantize(single(-0.5 / 32768.0), 16), -1);
    assert_eq!(quantize(single(0.49 / 32768.0), 16), 0);
    assert_eq!(quantize(single(f32::MIN_POSITIVE / 2.0), 24), 0);
}

#[test]
fn rounding_agrees_with_floating_point() {
    let mut x = 1u32;
    for _ in 0..200000 {
        x = x.wrapping_mul(1664525).wrapping_add(1013904223);
        let v = f32::from_bits(x);
        for bits in [16u32, 20, 24] {
            let scale = (1i64 << (bits - 1)) as f32;
            let expected = (v * scale).round().clamp(-scale, scale - 1.0) as i32;
            assert_eq!(quantize(single(v), bits), expected, "{v} at {bits}");
            let w = (x as i32) as f32 / 2147483648.0;
            let expected = (w * scale).round().clamp(-scale, scale - 1.0) as i32;
            assert_eq!(quantize(single(w), bits), expected, "{w} at {bits}");
        }
    }
}

#[test]
fn samples_survive_rounding() {
    for bits in [16u32, 24] {
        let full = 1i64 << (bits - 1);
        let mut v = -full;
        while v < full {
            assert_eq!(quantize(single(v as f32 / full as f32), bits) as i64, v);
            v += 977;
        }
    }
}

#[test]
fn wav_bytes_are_exact() {
    let bytes = encode_wav(&WavSamples::Int(&[1, -2]), 2, 16, 44100).unwrap();
    let mut expected = Vec::new();
    expected.extend_from_slice(b"RIFF");
    expected.extend_from_slice(&40u32.to_le_bytes());
    expected.extend_from_slice(b"WAVEfmt ");
    expected.extend_from_slice(&16u32.to_le_bytes());
    expected.extend_from_slice(&1u16.to_le_bytes());
    expected.extend_from_slice(&2u16.to_le_bytes());
    expected.extend_from_slice(&44100u32.to_le_bytes());
    expected.extend_from_slice(&(44100u32 * 4).to_le_bytes());
    expected.extend_from_slice(&4u16.to_le_bytes());
    expected.extend_from_slice(&16u16.to_le_bytes());
    expected.extend_from_slice(b"data");
    expected.extend_from_slice(&4u32.to_le_bytes());
    expected.extend_from_slice(&[1, 0, 0xfe, 0xff]);
    assert_eq!(bytes, expected);
}

#[test]
fn wide_wav_is_extensible() {
    let bytes = encode_wav(&WavSamples::Int(&[0x010203, -1, 5]), 3, 24, 48000).unwrap();
    assert_eq!(bytes.len(), 68 + 9);
    assert_eq!(bytes[16..20], 40u32.to_le_bytes());
    assert_eq!(bytes[20..22], [0xfe, 0xff]);
    assert_eq!(bytes[36..38], 22u16.to_le_bytes());
    assert_eq!(bytes[40..44], 7u32.to_le_bytes());
    assert_eq!(bytes[44], 1);
    assert_eq!(bytes[44 + 15], 0x71);
    assert_eq!(bytes[68..71], [3, 2, 1]);
    let many = encode_wav(&WavSamples::Int(&[]), 40, 16, 8000).unwrap();
    assert_eq!(many[40..44], [0xff; 4]);
    let floats = encode_wav(&WavSamples::Float(&[single(1.5)]), 3, 32, 8000).unwrap();
    assert_eq!(floats[44], 3);
}

#[test]
fn float_wav_keeps_every_bit() {
    let values = [0.0f32, -0.0, 1.25, -7.5e20, f32::MIN_POSITIVE];
    let singles: Vec<Single> = values.iter().map(|v| single(*v)).collect();
    let bytes = encode_wav(&WavSamples::Float(&singles), 1, 32, 44100).unwrap();
    assert_eq!(bytes[20..22], 3u16.to_le_bytes());
    for (i, v) in values.iter().enumerate() {
        assert_eq!(bytes[44 + 4 * i..48 + 4 * i], v.to_le_bytes());
    }
}

#[test]
fn too_long_wav_is_refused() {
    let err = encode_wav(&WavSamples::Int(&[0; 20]), 1, 0x8000_0000, 0).unwrap_err();
    assert_eq!(err, "Output exceeds the 4 GB WAV limit; export as FLAC or shorten the song");
}

#[test]
fn wav_is_read_back() {
    let samples: Vec<i32> = (0..999).map(|i| (i * 7919) % 30000 - 15000).collect();
    let bytes = encode_wav(&WavSamples::Int(&samples), 3, 16, 44100).unwrap();
    let (back, channels, bits, rate) = decode(bytes);
    assert_eq!((channels, bits, rate), (3, 16, 44100));
    let back: Vec<i32> = back.iter().map(|v| v >> 16).collect();
    assert_eq!(back, samples);
}

#[test]
fn flac_is_lossless_and_its_head_is_right() {
    for (channels, bits, count) in [(1usize, 16usize, 9001usize), (2, 24, 8192), (8, 20, 40000)] {
        let full = 1i64 << (bits - 1);
        let mut x = 7i64;
        let samples: Vec<i32> = (0..count)
            .map(|_| {
                x = (x * 1103515245 + 12345) % 2147483648;
                (x % (2 * full) - full) as i32
            })
            .collect();
        let bytes = encode_flac(&samples, channels, bits, 44100).unwrap();
        assert_eq!(bytes[0..4], *b"fLaC");
        assert_eq!(bytes[4..8], [0x80, 0, 0, 34]);
        assert_eq!(bytes[8..12], [0x10, 0, 0x10, 0]);
        let mut word = [0u8; 8];
        word.copy_from_slice(&bytes[18..26]);
        let expected = (44100u64 << 44)
            | ((channels as u64 - 1) << 41)
            | ((bits as u64 - 1) << 36)
            | (count / channels) as u64;
        assert_eq!(u64::from_be_bytes(word), expected);
        let (back, c, b, rate) = decode(bytes);
        assert_eq!((c, b as usize, rate), (channels, bits, 44100));
        let back: Vec<i32> = back.iter().map(|v| v >> (32 - bits)).collect();
        assert_eq!(back, samples[..count / channels * channels]);
    }
}

#[test]
fn flac_keeps_hard_signals() {
    for bits in [16usize, 17, 20, 21, 24] {
        let top = (1i64 << (bits - 1)) as f64 - 1.0;
        let signals: [fn(f64) -> f64; 6] = [
            |t| (t * 0.05).sin(),
            |t| (t * 0.05).sin() * 0.001 + (t * 2.9).sin() * 0.9,
            |t| if t as u64 % 2 == 0 { 1.0 } else { -1.0 },
            |t| if t as u64 % 97 < 48 { 1.0 } else { -1.0 },
            |_| -1.0,
            |t| if t as u64 % 4096 == 4000 { 1.0 } else { 0.0 },
        ];
        for wave in signals {
            // The second channel is the first one turned over.
            let samples: Vec<i32> = (0..2 * 5000)
                .map(|i| {
                    let v = (wave((i / 2) as f64) * top) as i32;
                    if i % 2 == 0 { v } else { -v - 1 }
                })
                .collect();
            let bytes = encode_flac(&samples, 2, bits, 48000).unwrap();
            let back: Vec<i32> = decode(bytes).0.iter().map(|v| v >> (32 - bits)).collect();
            assert_eq!(back, samples, "{bits}");
        }
    }
}

#[test]
fn flac_head_of_nothing() {
    let bytes = encode_flac(&[], 2, 16, 48000).unwrap();
    assert_eq!(bytes[0..4], *b"fLaC");
    assert_eq!(bytes[8..12], [0x10, 0, 0x10, 0]);
    assert_eq!(bytes.len(), 42);
}

#[test]
fn flac_refuses_what_it_cannot_hold() {
    for (channels, bits, rate) in [(9, 16, 44100), (0, 16, 44100), (1, 16, 192000), (1, 18, 44100)] {
        let err = encode_flac(&[0; 18], channels, bits, rate).unwrap_err();
        assert!(err.starts_with("FLAC encoding failed: "), "{err}");
    }
}

#[test]
fn encoder_failures_are_named() {
    let text = |e| flac_result(Err(e)).unwrap_err();
    assert_eq!(text(FlacError::Config("a".to_string())), "Encoder config error: a");
    assert_eq!(text(FlacError::Encode("b".to_string())), "FLAC encoding failed: b");
    assert_eq!(text(FlacError::Write("c".to_string())), "FLAC serialization failed: c");
}

#[test]
fn block_sizes_become_equal() {
    let mut bytes = b"fLaC0123abcdefgh".to_vec();
    let patched = equalize_block_sizes(bytes.clone());
    bytes[8] = b'c';
    bytes[9] = b'd';
    assert_eq!(patched, bytes);
    assert_eq!(equalize_block_sizes(b"fLaX0123abcdefgh".to_vec()), b"fLaX0123abcdefgh");
    assert_eq!(equalize_block_sizes(b"fLaC0123abcd".to_vec()), b"fLaC0123abcd");
}

#[test]
fn odd_bit_depths_keep_all_bits() {
    for (bits, width) in [(16u32, 2usize), (17, 3), (20, 3), (23, 3), (24, 3)] {
        let v = quantize(single(0.5), bits);
        assert_eq!(v, 1 << (bits - 2));
        let samples = [v, -v, -1];
        let bytes = encode_wav(&WavSamples::Int(&samples), 1, bits, 48000).unwrap();
        assert_eq!(bytes[34..36], (bits as u16).to_le_bytes());
        assert_eq!(bytes[32..34], (width as u16).to_le_bytes());
        assert_eq!(bytes.len(), 44 + 3 * width);
        for (i, want) in samples.iter().enumerate() {
            assert_eq!(bytes[44 + i * width..44 + (i + 1) * width], want.to_le_bytes()[..width]);
        }
    }
}

#[test]
fn flac_states_the_digest_of_its_samples() {
    let bytes = encode_flac(&[0; 64], 2, 16, 48000).unwrap();
    let zeros = [
        0xf0, 0x9f, 0x35, 0xa5, 0x63, 0x78, 0x39, 0x45, 0x8e, 0x46, 0x2e, 0x63, 0x50, 0xec, 0xbc,
        0xe4,
    ];
    assert_eq!(bytes[26..42], zeros);
    let none = encode_flac(&[], 2, 16, 48000).unwrap();
    assert_eq!(none[26..30], [0xd4, 0x1d, 0x8c, 0xd9]);
    let other = encode_flac(&[1; 64], 2, 16, 48000).unwrap();
    assert_ne!(other[26..42], zeros);
    // Samples that do not fill the last frame.
    assert_eq!(encode_flac(&[3; 65], 2, 16, 48000).unwrap()[25], 32);
}
