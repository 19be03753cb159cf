//! The FLAC file format, by way of the encoder in the `flacenc` crate.

use crate::single;
use flacenc::component::BitRepr;
use flacenc::error::Verify;
use vstd::prelude::*;
use vstd::string::*;

verus! {

/// The number whose bytes these are, the highest first.
pub open spec fn be_value(b: Seq<u8>) -> nat
    decreases b.len(),
{
    if b.len() == 0 {
        0
    } else {
        256 * be_value(b.drop_last()) + b.last() as nat
    }
}

/// The bytes `fLaC` that every stream starts with.
pub open spec fn flac_magic() -> Seq<u8> {
    seq![0x66u8, 0x4c, 0x61, 0x43]
}

/// Samples per block and channel, in all blocks but the last.
pub const BLOCK_SAMPLES: usize = 4096;

/// What the encoder takes: up to eight channels and 96 kHz.
pub open spec fn flac_takes(channels: int, bits: int, sample_rate: int) -> bool {
    &&& 1 <= channels <= 8
    &&& 8 <= bits <= 25
    &&& bits % 4 == 0 || bits % 4 == 1
    &&& sample_rate <= 96000
}

/// The head of a stream as the encoder writes it: the magic bytes, then one
/// block of metadata, 34 bytes long, with the block size, the sample rate,
/// the channels, the bit depth and the samples per channel.
pub open spec fn flac_head(
    b: Seq<u8>,
    count: int,
    channels: int,
    bits: int,
    sample_rate: int,
) -> bool {
    &&& b.len() >= 42
    &&& b.take(4) == flac_magic()
    &&& b[4] == 0x80
    &&& be_value(b.subrange(5, 8)) == 34
    &&& be_value(b.subrange(10, 12)) == BLOCK_SAMPLES
    &&& be_value(b.subrange(18, 26)) == sample_rate * 0x1000_0000_0000 + (channels - 1)
        * 0x200_0000_0000 + (bits - 1) * 0x10_0000_0000 + (count / channels) % 0x10_0000_0000
}

/// The digest of interleaved samples that a decoder can hold its output
/// against: what `source::Context::md5_digest` of `flacenc` gives once the
/// samples have been read, block by block.
pub uninterp spec fn flac_digest(samples: Seq<i32>, channels: int, bits: int) -> Seq<u8>;

/// Where the encoder gave up, with its own words.
#[derive(Debug)]
pub enum FlacError {
    Config(String),
    Encode(String),
    Write(String),
}

/// Encodes with `flacenc`: its default `config::Encoder`, made valid by
/// `into_verified`; `source::MemSource::from_samples` over the interleaved
/// samples; `encode_with_fixed_block_size` with the block size of the
/// configuration; and the `write` of the stream into a `bitsink::ByteSink`.
/// Where that succeeds, the channels, bit depth and sample rate are among
/// those that the encoder takes, and the stream starts with the head for
/// these samples, their digest at its end. The encoder spreads its work over
/// as many threads as the machine offers and can fail over that, so success is
/// not promised. Left unsaid: the bytes of the frames behind the head, and
/// their lengths in it. The encoder picks among its predictors with
/// floating-point arithmetic, so those bytes are not fixed by the samples
/// alone. The encoder panics on samples outside the range of the bit depth and
/// past two to the 31 blocks, and cuts the sample rate to 32 bits, so such
/// samples and rates are left out.
#[verifier::external_body]
fn flac_stream(samples: &[i32], channels: usize, bits: usize, sample_rate: usize) -> (r: Result<
    Vec<u8>,
    FlacError,
>)
    requires
        16 <= bits <= 24,
        sample_rate <= u32::MAX,
        samples@.len() < 0x800_0000_0000,
        forall|i: int|
            0 <= i < samples@.len() ==> -single::full_scale(bits as int) <= #[trigger] samples@[i]
                < single::full_scale(bits as int),
    ensures
        r is Ok ==> flac_takes(channels as int, bits as int, sample_rate as int),
        r matches Ok(b) ==> flac_head(
            b@,
            samples@.len() as int,
            channels as int,
            bits as int,
            sample_rate as int,
        ),
        r matches Ok(b) ==> b@.subrange(26, 42) == flac_digest(
            samples@,
            channels as int,
            bits as int,
        ),
{
    let config = flacenc::config::Encoder::default().into_verified().map_err(
        |e| FlacError::Config(format!("{e:?}")),
    )?;
    let source = flacenc::source::MemSource::from_samples(samples, channels, bits, sample_rate);
    let stream = flacenc::encode_with_fixed_block_size(
        &config,
        source,
        config.block_size,
    ).map_err(|e| FlacError::Encode(format!("{e:?}")))?;
    let mut sink = flacenc::bitsink::ByteSink::new();
    stream.write(&mut sink).map_err(|e| FlacError::Write(format!("{e:?}")))?;
    Ok(sink.as_slice().to_vec())
}

/// The stream with the same smallest and largest block size in its head.
pub open spec fn with_equal_block_sizes(b: Seq<u8>) -> Seq<u8> {
    if b.len() > 12 && b.take(4) == flac_magic() {
        b.update(8, b[10]).update(9, b[11])
    } else {
        b
    }
}

/// The encoder records the last, shorter block as the smallest one. The
/// format leaves the last block out: a stream with a fixed block size has
/// equal sizes in its head, and strict decoders reject it otherwise.
pub fn equalize_block_sizes(bytes: Vec<u8>) -> (r: Vec<u8>)
    ensures
        r@ == with_equal_block_sizes(bytes@),
{
    let mut bytes = bytes;
    if bytes.len() > 12 {
        let magic = bytes[0] == 0x66 && bytes[1] == 0x4c && bytes[2] == 0x61 && bytes[3] == 0x43;
        proof {
            let first = bytes@.take(4);
            assert(first[0] == bytes@[0] && first[1] == bytes@[1] && first[2] == bytes@[2]
                && first[3] == bytes@[3]);
            if magic {
                assert(first =~= flac_magic());
            }
        }
        if magic {
            let high: u8 = bytes[10];
            let low: u8 = bytes[11];
            bytes.set(8, high);
            bytes.set(9, low);
        }
    }
    bytes
}

/// The message for a failure of the encoder.
pub open spec fn flac_error_text(e: FlacError) -> Seq<char> {
    match e {
        FlacError::Config(text) => "Encoder config error: "@ + text@,
        FlacError::Encode(text) => "FLAC encoding failed: "@ + text@,
        FlacError::Write(text) => "FLAC serialization failed: "@ + text@,
    }
}

/// What becomes of the encoder's result.
pub fn flac_result(outcome: Result<Vec<u8>, FlacError>) -> (r: Result<Vec<u8>, String>)
    ensures
        outcome matches Ok(b) ==> r matches Ok(c) && c@ == with_equal_block_sizes(b@),
        outcome matches Err(e) ==> r matches Err(t) && t@ == flac_error_text(e),
{
    match outcome {
        Ok(bytes) => Ok(equalize_block_sizes(bytes)),
        Err(e) => {
            let (head, text) = match e {
                FlacError::Config(t) => ("Encoder config error: ", t),
                FlacError::Encode(t) => ("FLAC encoding failed: ", t),
                FlacError::Write(t) => ("FLAC serialization failed: ", t),
            };
            let mut message = String::from_str(head);
            message.append(text.as_str());
            Err(message)
        },
    }
}

/// The head of a stream as it is handed out: with the same smallest and
/// largest block size.
pub open spec fn even_head(
    b: Seq<u8>,
    count: int,
    channels: int,
    bits: int,
    sample_rate: int,
) -> bool {
    &&& flac_head(b, count, channels, bits, sample_rate)
    &&& be_value(b.subrange(8, 10)) == BLOCK_SAMPLES
}

/// A stream as it is handed out: with the head for the samples and their
/// digest.
pub open spec fn flac_file(
    b: Seq<u8>,
    samples: Seq<i32>,
    channels: int,
    bits: int,
    sample_rate: int,
) -> bool {
    &&& even_head(b, samples.len() as int, channels, bits, sample_rate)
    &&& b.subrange(26, 42) == flac_digest(samples, channels, bits)
}

/// Every stream that comes out of the encoder has, once handed out, the same
/// smallest and largest block size, and keeps the rest of its head.
pub proof fn law_block_sizes_equal(
    b: Seq<u8>,
    count: int,
    channels: int,
    bits: int,
    sample_rate: int,
)
    requires
        flac_head(b, count, channels, bits, sample_rate),
    ensures
        even_head(with_equal_block_sizes(b), count, channels, bits, sample_rate),
        with_equal_block_sizes(b).len() == b.len(),
        with_equal_block_sizes(b).subrange(26, 42) == b.subrange(26, 42),
        with_equal_block_sizes(b).take(8) == b.take(8),
        with_equal_block_sizes(b).skip(10) == b.skip(10),
{
    let c = with_equal_block_sizes(b);
    assert(c.take(4) =~= b.take(4));
    assert(c.subrange(5, 8) =~= b.subrange(5, 8));
    assert(c.subrange(10, 12) =~= b.subrange(10, 12));
    assert(c.subrange(18, 26) =~= b.subrange(18, 26));
    assert(c.subrange(26, 42) =~= b.subrange(26, 42));
    assert(c.subrange(8, 10) =~= b.subrange(10, 12));
    assert(c.take(8) =~= b.take(8));
    assert(c.skip(10) =~= b.skip(10));
}

/// Encodes interleaved samples. Left unsaid are the bytes of the frames, as
/// they come from the encoder.
pub fn encode_flac(samples: &[i32], channels: usize, bits: usize, sample_rate: usize) -> (r: Result<
    Vec<u8>,
    String,
>)
    requires
        16 <= bits <= 24,
        sample_rate <= u32::MAX,
        samples@.len() < 0x800_0000_0000,
        forall|i: int|
            0 <= i < samples@.len() ==> -single::full_scale(bits as int) <= #[trigger] samples@[i]
                < single::full_scale(bits as int),
    ensures
        r is Ok ==> flac_takes(channels as int, bits as int, sample_rate as int),
        r matches Ok(b) ==> flac_file(
            b@,
            samples@,
            channels as int,
            bits as int,
            sample_rate as int,
        ),
        r matches Err(t) ==> exists|e: FlacError| t@ == #[trigger] flac_error_text(e),
{
    let outcome = flac_stream(samples, channels, bits, sample_rate);
    proof {
        if outcome is Ok {
            law_block_sizes_equal(
                outcome->Ok_0@,
                samples@.len() as int,
                channels as int,
                bits as int,
                sample_rate as int,
            );
        }
    }
    flac_result(outcome)
}

}
