//! The WAV file format: a RIFF header and the samples of all channels,
//! interleaved. WAVE_FORMAT_EXTENSIBLE is used for more than two channels,
//! which is what audio workstations expect of multichannel files; otherwise
//! the file is plain PCM or plain IEEE float.

use crate::single::{power_of_two, Single};
use vstd::arithmetic::power2;
use vstd::prelude::*;
use vstd::string::*;

verus! {

/// The samples of a WAV file: little-endian integers of some bit depth, or
/// single-precision numbers.
pub enum WavSamples<'a> {
    Int(&'a [i32]),
    Float(&'a [Single]),
}

impl<'a> WavSamples<'a> {
    pub open spec fn count(self) -> nat {
        match self {
            WavSamples::Int(s) => s@.len(),
            WavSamples::Float(s) => s@.len(),
        }
    }

    pub open spec fn is_float(self) -> bool {
        self is Float
    }

    /// The samples as bytes, each in `width` bytes, but four for a float.
    pub open spec fn data(self, width: nat) -> Seq<u8> {
        match self {
            WavSamples::Int(s) => int_data(s@, width),
            WavSamples::Float(s) => float_data(s@),
        }
    }
}

/// The low `n` bytes of a number, the lowest first.
pub open spec fn le_bytes(v: nat, n: nat) -> Seq<u8>
    decreases n,
{
    if n == 0 {
        Seq::empty()
    } else {
        seq![(v % 256) as u8] + le_bytes(v / 256, (n - 1) as nat)
    }
}

/// The number whose bytes these are, the lowest first.
pub open spec fn le_value(b: Seq<u8>) -> nat
    decreases b.len(),
{
    if b.len() == 0 {
        0
    } else {
        b.first() as nat + 256 * le_value(b.drop_first())
    }
}

/// A signed number as 32 bits in two's complement.
pub open spec fn two_complement(v: i32) -> nat {
    (v as int % 0x1_0000_0000) as nat
}

pub open spec fn int_data(s: Seq<i32>, width: nat) -> Seq<u8>
    decreases s.len(),
{
    if s.len() == 0 {
        Seq::empty()
    } else {
        int_data(s.drop_last(), width) + le_bytes(two_complement(s.last()), width)
    }
}

pub open spec fn float_data(s: Seq<Single>) -> Seq<u8>
    decreases s.len(),
{
    if s.len() == 0 {
        Seq::empty()
    } else {
        float_data(s.drop_last()) + le_bytes(s.last().bits as nat, 4)
    }
}

pub open spec fn tag_riff() -> Seq<u8> {
    seq![0x52u8, 0x49, 0x46, 0x46]
}

pub open spec fn tag_wave() -> Seq<u8> {
    seq![0x57u8, 0x41, 0x56, 0x45]
}

pub open spec fn tag_fmt() -> Seq<u8> {
    seq![0x66u8, 0x6d, 0x74, 0x20]
}

pub open spec fn tag_data() -> Seq<u8> {
    seq![0x64u8, 0x61, 0x74, 0x61]
}

/// The sub-format of an extensible header: integer or float samples.
pub open spec fn sub_format(float: bool) -> Seq<u8> {
    seq![
        if float { 0x03u8 } else { 0x01u8 },
        0x00u8,
        0x00u8,
        0x00u8,
        0x00u8,
        0x00u8,
        0x10u8,
        0x00u8,
        0x80u8,
        0x00u8,
        0x00u8,
        0xaau8,
        0x00u8,
        0x38u8,
        0x9bu8,
        0x71u8,
    ]
}

pub open spec fn format_tag(channels: nat, float: bool) -> nat {
    if channels > 2 {
        0xfffe
    } else if float {
        3
    } else {
        1
    }
}

/// One bit per channel, low bits first: the channels have no speaker
/// positions.
pub open spec fn channel_mask(channels: nat) -> nat {
    if channels >= 32 {
        0xffff_ffff
    } else {
        (power2::pow2(channels) - 1) as nat
    }
}

pub open spec fn fmt_len(channels: nat) -> nat {
    if channels > 2 {
        40
    } else {
        16
    }
}

/// The bytes that a sample takes: as many as its bits need.
pub open spec fn sample_width(bits: nat) -> nat {
    (bits + 7) / 8
}

pub open spec fn data_len(count: nat, bits: nat) -> nat {
    count * sample_width(bits)
}

/// The size that the RIFF header states: all that follows it.
pub open spec fn riff_len(count: nat, channels: nat, bits: nat) -> nat {
    4 + (8 + fmt_len(channels)) + (8 + data_len(count, bits))
}

pub open spec fn block_align(channels: nat, bits: nat) -> nat {
    (channels * sample_width(bits)) % 0x1_0000
}

/// The format chunk without its tag and length.
pub open spec fn fmt_chunk(channels: nat, bits: nat, sample_rate: nat, float: bool) -> Seq<u8> {
    let plain = le_bytes(format_tag(channels, float), 2) + le_bytes(channels, 2) + le_bytes(
        sample_rate,
        4,
    ) + le_bytes(sample_rate * block_align(channels, bits), 4) + le_bytes(
        block_align(channels, bits),
        2,
    ) + le_bytes(bits, 2);
    if channels > 2 {
        plain + le_bytes(22, 2) + le_bytes(bits, 2) + le_bytes(channel_mask(channels), 4)
            + sub_format(float)
    } else {
        plain
    }
}

/// All that stands before the samples.
pub open spec fn wav_header(
    count: nat,
    channels: nat,
    bits: nat,
    sample_rate: nat,
    float: bool,
) -> Seq<u8> {
    tag_riff() + le_bytes(riff_len(count, channels, bits), 4) + tag_wave() + tag_fmt() + le_bytes(
        fmt_len(channels),
        4,
    ) + fmt_chunk(channels, bits, sample_rate, float) + tag_data() + le_bytes(
        data_len(count, bits),
        4,
    )
}

/// The whole file.
pub open spec fn wav_file(
    samples: WavSamples<'_>,
    channels: nat,
    bits: nat,
    sample_rate: nat,
) -> Seq<u8> {
    wav_header(samples.count(), channels, bits, sample_rate, samples.is_float()) + samples.data(
        sample_width(bits),
    )
}

proof fn lemma_le_bytes_len(v: nat, n: nat)
    ensures
        le_bytes(v, n).len() == n,
    decreases n,
{
    if n > 0 {
        lemma_le_bytes_len(v / 256, (n - 1) as nat);
    }
}

fn push_bytes(out: &mut Vec<u8>, bytes: &[u8])
    ensures
        final(out)@ == old(out)@ + bytes@,
{
    let mut i: usize = 0;
    while i < bytes.len()
        invariant
            i <= bytes.len(),
            out@ == old(out)@ + bytes@.take(i as int),
        decreases bytes.len() - i,
    {
        out.push(bytes[i]);
        i += 1;
        assert(out@ =~= old(out)@ + bytes@.take(i as int));
    }
    assert(bytes@.take(bytes@.len() as int) == bytes@);
}

/// Appends the low `n` bytes of a number.
fn push_le(out: &mut Vec<u8>, v: u32, n: usize)
    ensures
        final(out)@ == old(out)@ + le_bytes(v as nat, n as nat),
{
    let mut rest: u32 = v;
    let mut k: usize = n;
    assert(out@ + le_bytes(rest as nat, k as nat) == old(out)@ + le_bytes(v as nat, n as nat));
    while k > 0
        invariant
            out@ + le_bytes(rest as nat, k as nat) == old(out)@ + le_bytes(v as nat, n as nat),
        decreases k,
    {
        let ghost before = out@;
        out.push((rest % 256) as u8);
        proof {
            assert(before + le_bytes(rest as nat, k as nat) =~= out@ + le_bytes(
                (rest / 256) as nat,
                (k - 1) as nat,
            ));
        }
        rest = rest / 256;
        k -= 1;
    }
    assert(out@ + le_bytes(rest as nat, 0) =~= out@);
}

/// The message for an output that the format cannot hold.
pub open spec fn too_long_message() -> Seq<char> {
    "Output exceeds the 4 GB WAV limit; export as FLAC or shorten the song"@
}

fn width_of(bits: u32) -> (r: usize)
    ensures
        r == sample_width(bits as nat),
{
    if bits % 8 == 0 {
        (bits / 8) as usize
    } else {
        (bits / 8) as usize + 1
    }
}

/// The format chunk without its tag and length.
fn encode_fmt(channels: usize, bits: u32, sample_rate: u32, is_float: bool) -> (r: Vec<u8>)
    requires
        channels * sample_width(bits as nat) <= usize::MAX,
        sample_rate * block_align(channels as nat, bits as nat) <= u32::MAX,
    ensures
        r@ == fmt_chunk(channels as nat, bits as nat, sample_rate as nat, is_float),
{
    let width: usize = width_of(bits);
    let extensible = channels > 2;
    let align: u32 = ((channels * width) % 0x1_0000) as u32;
    let byte_rate: u32 = sample_rate * align;
    let tag: u32 = if extensible {
        0xfffe
    } else if is_float {
        3
    } else {
        1
    };
    let kind: u8 = if is_float {
        0x03
    } else {
        0x01
    };
    let mut out: Vec<u8> = Vec::new();
    push_le(&mut out, tag, 2);
    assert(out@ == le_bytes(tag as nat, 2));
    push_le(&mut out, (channels % 0x1_0000) as u32, 2);
    proof {
        lemma_low_bytes(channels as nat);
    }
    push_le(&mut out, sample_rate, 4);
    push_le(&mut out, byte_rate, 4);
    push_le(&mut out, align, 2);
    push_le(&mut out, bits, 2);
    if extensible {
        push_le(&mut out, 22, 2);
        push_le(&mut out, bits, 2);
        let mask: u32 = if channels >= 32 {
            0xffff_ffff
        } else {
            (power_of_two(channels as u32) - 1) as u32
        };
        push_le(&mut out, mask, 4);
        let id: [u8; 16] = [
            kind,
            0x00u8,
            0x00u8,
            0x00u8,
            0x00u8,
            0x00u8,
            0x10u8,
            0x00u8,
            0x80u8,
            0x00u8,
            0x00u8,
            0xaau8,
            0x00u8,
            0x38u8,
            0x9bu8,
            0x71u8,
        ];
        assert(id@ =~= sub_format(is_float));
        push_bytes(&mut out, &id);
    }
    out
}

/// The bytes of a WAV file, or the message that the samples are too many.
pub fn encode_wav(
    samples: &WavSamples<'_>,
    channels: usize,
    bits: u32,
    sample_rate: u32,
) -> (r: Result<Vec<u8>, String>)
    requires
        riff_len(samples.count(), channels as nat, bits as nat) <= usize::MAX,
        channels * sample_width(bits as nat) <= usize::MAX,
        sample_rate * block_align(channels as nat, bits as nat) <= u32::MAX,
        samples.is_float() ==> bits == 32,
    ensures
        r is Ok <==> riff_len(samples.count(), channels as nat, bits as nat) <= u32::MAX,
        r matches Ok(b) ==> b@ == wav_file(
            *samples,
            channels as nat,
            bits as nat,
            sample_rate as nat,
        ),
        r matches Err(e) ==> e@ == too_long_message(),
{
    let (count, is_float): (usize, bool) = match samples {
        WavSamples::Int(s) => (s.len(), false),
        WavSamples::Float(s) => (s.len(), true),
    };
    let width: usize = width_of(bits);
    assert(count * width == data_len(count as nat, bits as nat));
    let data: usize = count * width;
    let extensible = channels > 2;
    let fmt: u32 = if extensible {
        40
    } else {
        16
    };
    let riff: usize = 4 + (8 + fmt as usize) + (8 + data);
    if riff > 0xffff_ffff {
        return Err(
            String::from_str(
                "Output exceeds the 4 GB WAV limit; export as FLAC or shorten the song",
            ),
        );
    }
    let chunk = encode_fmt(channels, bits, sample_rate, is_float);
    let mut out: Vec<u8> = Vec::new();
    push_bytes(&mut out, &[0x52u8, 0x49, 0x46, 0x46]);
    assert(out@ == tag_riff());
    push_le(&mut out, riff as u32, 4);
    push_bytes(&mut out, &[0x57u8, 0x41, 0x56, 0x45]);
    push_bytes(&mut out, &[0x66u8, 0x6d, 0x74, 0x20]);
    push_le(&mut out, fmt, 4);
    push_bytes(&mut out, chunk.as_slice());
    push_bytes(&mut out, &[0x64u8, 0x61, 0x74, 0x61]);
    push_le(&mut out, data as u32, 4);
    match samples {
        WavSamples::Int(s) => {
            push_ints(&mut out, s, width);
        },
        WavSamples::Float(s) => {
            push_floats(&mut out, s);
        },
    }
    Ok(out)
}

proof fn lemma_low_bytes(v: nat)
    ensures
        le_bytes(v % 0x1_0000, 2) == le_bytes(v, 2),
{
    reveal_with_fuel(le_bytes, 3);
    assert((v % 0x1_0000) % 256 == v % 256);
    assert(((v % 0x1_0000) / 256) % 256 == (v / 256) % 256);
}

fn push_ints(out: &mut Vec<u8>, s: &[i32], width: usize)
    ensures
        final(out)@ == old(out)@ + int_data(s@, width as nat),
{
    let mut i: usize = 0;
    assert(old(out)@ + int_data(s@.take(0), width as nat) =~= old(out)@);
    while i < s.len()
        invariant
            i <= s.len(),
            out@ == old(out)@ + int_data(s@.take(i as int), width as nat),
        decreases s.len() - i,
    {
        let v: i32 = s[i];
        let bits: u32 = if v < 0 {
            (v as i64 + 0x1_0000_0000) as u32
        } else {
            v as u32
        };
        assert(bits == two_complement(v));
        let ghost before = out@;
        push_le(out, bits, width);
        proof {
            let longer = s@.take(i + 1);
            assert(longer.drop_last() == s@.take(i as int));
            assert(longer.last() == v);
            assert(out@ =~= old(out)@ + int_data(longer, width as nat));
        }
        i += 1;
    }
    assert(s@.take(s@.len() as int) == s@);
}

fn push_floats(out: &mut Vec<u8>, s: &[Single])
    ensures
        final(out)@ == old(out)@ + float_data(s@),
{
    let mut i: usize = 0;
    assert(old(out)@ + float_data(s@.take(0)) =~= old(out)@);
    while i < s.len()
        invariant
            i <= s.len(),
            out@ == old(out)@ + float_data(s@.take(i as int)),
        decreases s.len() - i,
    {
        let ghost before = out@;
        push_le(out, s[i].bits, 4);
        proof {
            let longer = s@.take(i + 1);
            assert(longer.drop_last() == s@.take(i as int));
            assert(out@ =~= old(out)@ + float_data(longer));
        }
        i += 1;
    }
    assert(s@.take(s@.len() as int) == s@);
}

/// Where the samples start in the file.
pub open spec fn header_len(channels: nat) -> nat {
    if channels > 2 {
        68
    } else {
        44
    }
}

/// The signed number in two's complement whose bytes these are.
pub open spec fn signed_value(b: Seq<u8>) -> int {
    let v = le_value(b) as int;
    let whole = power2::pow2(8 * b.len()) as int;
    if 2 * v >= whole {
        v - whole
    } else {
        v
    }
}

/// The channels that the header of a file states.
pub open spec fn wav_channels(b: Seq<u8>) -> nat {
    le_value(b.subrange(22, 24))
}

/// The sample rate that the header of a file states.
pub open spec fn wav_rate(b: Seq<u8>) -> nat {
    le_value(b.subrange(24, 28))
}

/// The bit depth that the header of a file states.
pub open spec fn wav_bits(b: Seq<u8>) -> nat {
    le_value(b.subrange(34, 36))
}

/// Where the samples start, by the length of the format chunk.
pub open spec fn wav_start(b: Seq<u8>) -> nat {
    28 + le_value(b.subrange(16, 20))
}

/// How many samples a file holds, by the length of its data.
pub open spec fn wav_count(b: Seq<u8>) -> nat {
    le_value(b.subrange(wav_start(b) - 4, wav_start(b) as int)) / sample_width(wav_bits(b))
}

/// A sample of a file as an integer.
pub open spec fn wav_sample(b: Seq<u8>, i: int) -> int {
    let width = sample_width(wav_bits(b));
    let from = wav_start(b) + i * width;
    signed_value(b.subrange(from, from + width))
}

/// A sample of a float file, by its bit pattern.
pub open spec fn wav_number(b: Seq<u8>, i: int) -> nat {
    le_value(b.subrange(wav_start(b) + 4 * i, wav_start(b) + 4 * i + 4))
}

proof fn lemma_le_value(v: nat, n: nat)
    requires
        n <= 4,
    ensures
        n == 0 ==> le_value(le_bytes(v, n)) == 0,
        n == 1 ==> le_value(le_bytes(v, n)) == v % 0x100,
        n == 2 ==> le_value(le_bytes(v, n)) == v % 0x1_0000,
        n == 3 ==> le_value(le_bytes(v, n)) == v % 0x100_0000,
        n == 4 ==> le_value(le_bytes(v, n)) == v % 0x1_0000_0000,
    decreases n,
{
    lemma_le_bytes_len(v, n);
    if n > 0 {
        let b = le_bytes(v, n);
        assert(b.drop_first() =~= le_bytes(v / 256, (n - 1) as nat));
        lemma_le_value(v / 256, (n - 1) as nat);
        assert(b.first() == v % 256);
        if n == 1 {
        } else if n == 2 {
            assert(v % 256 + 256 * ((v / 256) % 256) == v % 0x1_0000);
        } else if n == 3 {
            assert(v % 256 + 256 * ((v / 256) % 0x1_0000) == v % 0x100_0000);
        } else {
            assert(v % 256 + 256 * ((v / 256) % 0x100_0000) == v % 0x1_0000_0000);
        }
    }
}

proof fn lemma_header_len(count: nat, channels: nat, bits: nat, sample_rate: nat, float: bool)
    ensures
        wav_header(count, channels, bits, sample_rate, float).len() == header_len(channels),
{
    lemma_le_bytes_len(riff_len(count, channels, bits), 4);
    lemma_le_bytes_len(fmt_len(channels), 4);
    lemma_le_bytes_len(format_tag(channels, float), 2);
    lemma_le_bytes_len(channels, 2);
    lemma_le_bytes_len(sample_rate, 4);
    lemma_le_bytes_len(sample_rate * block_align(channels, bits), 4);
    lemma_le_bytes_len(block_align(channels, bits), 2);
    lemma_le_bytes_len(bits, 2);
    lemma_le_bytes_len(22, 2);
    lemma_le_bytes_len(channel_mask(channels), 4);
    lemma_le_bytes_len(data_len(count, bits), 4);
}

proof fn lemma_int_data_at(s: Seq<i32>, width: nat, i: int)
    requires
        0 <= i < s.len(),
    ensures
        int_data(s, width).len() == s.len() * width,
        0 <= i * width <= (i + 1) * width <= s.len() * width,
        int_data(s, width).subrange(i * width as int, (i + 1) * width as int) == le_bytes(
            two_complement(s[i]),
            width,
        ),
    decreases s.len(),
{
    let front = int_data(s.drop_last(), width);
    let back = le_bytes(two_complement(s.last()), width);
    lemma_le_bytes_len(two_complement(s.last()), width);
    lemma_int_data_len(s.drop_last(), width);
    lemma_int_data_len(s, width);
    let n = s.len() as int;
    let w = width as int;
    assert(0 <= i * w <= (i + 1) * w <= n * w && (i + 1) * w - i * w == w && (n - 1) * w == n * w
        - w) by (nonlinear_arith)
        requires
            0 <= i < n,
            w >= 0,
    ;
    if i == n - 1 {
        assert(int_data(s, width).subrange(i * w, (i + 1) * w) =~= back);
    } else {
        lemma_int_data_at(s.drop_last(), width, i);
        assert((i + 1) * w <= (n - 1) * w) by (nonlinear_arith)
            requires
                i + 1 <= n - 1,
                w >= 0,
        ;
        assert(int_data(s, width).subrange(i * w, (i + 1) * w) =~= front.subrange(
            i * w,
            (i + 1) * w,
        ));
    }
}

proof fn lemma_int_data_len(s: Seq<i32>, width: nat)
    ensures
        int_data(s, width).len() == s.len() * width,
    decreases s.len(),
{
    if s.len() > 0 {
        lemma_int_data_len(s.drop_last(), width);
        lemma_le_bytes_len(two_complement(s.last()), width);
        let n = s.len() as int;
        let w = width as int;
        assert((n - 1) * w + w == n * w) by (nonlinear_arith);
    }
}

proof fn lemma_float_data_at(s: Seq<Single>, i: int)
    requires
        0 <= i < s.len(),
    ensures
        float_data(s).len() == 4 * s.len(),
        float_data(s).subrange(4 * i, 4 * i + 4) == le_bytes(s[i].bits as nat, 4),
    decreases s.len(),
{
    lemma_le_bytes_len(s.last().bits as nat, 4);
    if i == s.len() - 1 {
        if s.len() > 1 {
            lemma_float_data_at(s.drop_last(), i - 1);
        } else {
            assert(s.drop_last() =~= Seq::<Single>::empty());
            assert(float_data(s.drop_last()) =~= Seq::<u8>::empty());
        }
        assert(float_data(s.drop_last()).len() == 4 * i);
        assert(float_data(s) == float_data(s.drop_last()) + le_bytes(s.last().bits as nat, 4));
        assert(float_data(s).subrange(4 * i, 4 * i + 4) =~= le_bytes(s.last().bits as nat, 4));
    } else {
        lemma_float_data_at(s.drop_last(), i);
        assert(float_data(s).subrange(4 * i, 4 * i + 4) =~= float_data(s.drop_last()).subrange(
            4 * i,
            4 * i + 4,
        ));
    }
}

proof fn lemma_signed(v: i32, width: nat)
    requires
        width == 2 ==> -0x8000 <= v < 0x8000,
        width == 3 ==> -0x80_0000 <= v < 0x80_0000,
        width == 2 || width == 3,
    ensures
        signed_value(le_bytes(two_complement(v), width)) == v,
{
    let t = two_complement(v);
    lemma_le_bytes_len(t, width);
    lemma_le_value(t, width);
    assert(power2::pow2(16) == 0x1_0000 && power2::pow2(24) == 0x100_0000) by {
        power2::lemma2_to64();
    }
    assert(t == if v < 0 { v + 0x1_0000_0000 } else { v as int });
    if width == 2 {
        assert(8 * width == 16);
        assert(t % 0x1_0000 == if v < 0 { v + 0x1_0000 } else { v as int });
    } else {
        assert(8 * width == 24);
        assert(t % 0x100_0000 == if v < 0 { v + 0x100_0000 } else { v as int });
    }
}

/// The header of a file states its channels, sample rate and bit depth, where
/// the samples start, and how many there are.
pub proof fn law_wav_header_states_format(
    count: nat,
    channels: nat,
    bits: nat,
    sample_rate: nat,
    float: bool,
    data: Seq<u8>,
)
    requires
        channels <= 0xffff,
        0 < bits <= 0xffff,
        sample_rate <= 0xffff_ffff,
        data_len(count, bits) <= 0xffff_ffff,
    ensures
        ({
            let file = wav_header(count, channels, bits, sample_rate, float) + data;
            &&& wav_channels(file) == channels
            &&& wav_rate(file) == sample_rate
            &&& wav_bits(file) == bits
            &&& wav_start(file) == header_len(channels)
            &&& wav_count(file) == count
        }),
{
    let file = wav_header(count, channels, bits, sample_rate, float) + data;
    lemma_header_len(count, channels, bits, sample_rate, float);
    lemma_le_bytes_len(riff_len(count, channels, bits), 4);
    lemma_le_bytes_len(fmt_len(channels), 4);
    lemma_le_bytes_len(format_tag(channels, float), 2);
    lemma_le_bytes_len(channels, 2);
    lemma_le_bytes_len(sample_rate, 4);
    lemma_le_bytes_len(sample_rate * block_align(channels, bits), 4);
    lemma_le_bytes_len(block_align(channels, bits), 2);
    lemma_le_bytes_len(bits, 2);
    lemma_le_bytes_len(data_len(count, bits), 4);
    let h = header_len(channels) as int;
    assert(file.subrange(16, 20) =~= le_bytes(fmt_len(channels), 4));
    assert(file.subrange(22, 24) =~= le_bytes(channels, 2));
    assert(file.subrange(24, 28) =~= le_bytes(sample_rate, 4));
    assert(file.subrange(34, 36) =~= le_bytes(bits, 2));
    assert(file.subrange(h - 4, h) =~= le_bytes(data_len(count, bits), 4));
    lemma_le_value(fmt_len(channels), 4);
    lemma_le_value(channels, 2);
    lemma_le_value(sample_rate, 4);
    lemma_le_value(bits, 2);
    lemma_le_value(data_len(count, bits), 4);
    let w = sample_width(bits);
    assert((count * w) / w == count) by (nonlinear_arith)
        requires
            w > 0,
    ;
}

/// Reading a file back gives every integer sample that fits into its bytes.
pub proof fn law_wav_gives_samples_back(
    samples: Seq<i32>,
    channels: nat,
    bits: nat,
    sample_rate: nat,
    i: int,
)
    requires
        channels <= 0xffff,
        sample_rate <= 0xffff_ffff,
        data_len(samples.len(), bits) <= 0xffff_ffff,
        0 <= i < samples.len(),
        8 < bits <= 24,
        sample_width(bits) == 2 ==> -0x8000 <= samples[i] < 0x8000,
        sample_width(bits) == 3 ==> -0x80_0000 <= samples[i] < 0x80_0000,
    ensures
        wav_sample(
            wav_header(samples.len(), channels, bits, sample_rate, false) + int_data(
                samples,
                sample_width(bits),
            ),
            i,
        ) == samples[i],
{
    let w = sample_width(bits);
    let data = int_data(samples, w);
    let file = wav_header(samples.len(), channels, bits, sample_rate, false) + data;
    law_wav_header_states_format(samples.len(), channels, bits, sample_rate, false, data);
    lemma_header_len(samples.len(), channels, bits, sample_rate, false);
    lemma_int_data_at(samples, w, i);
    let h = header_len(channels);
    assert((i + 1) * w == i * w + w) by (nonlinear_arith);
    let piece = data.subrange(i * w as int, (i + 1) * w as int);
    assert(file.subrange(h + i * w, h + i * w + w) =~= piece);
    lemma_signed(samples[i], w);
}

/// Reading a float file back gives every number bit for bit, however large,
/// so a mix never clips.
pub proof fn law_float_wav_gives_numbers_back(
    samples: Seq<Single>,
    channels: nat,
    sample_rate: nat,
    i: int,
)
    requires
        channels <= 0xffff,
        sample_rate <= 0xffff_ffff,
        data_len(samples.len(), 32) <= 0xffff_ffff,
        0 <= i < samples.len(),
    ensures
        wav_number(
            wav_header(samples.len(), channels, 32, sample_rate, true) + float_data(samples),
            i,
        ) == samples[i].bits,
{
    let data = float_data(samples);
    let file = wav_header(samples.len(), channels, 32, sample_rate, true) + data;
    law_wav_header_states_format(samples.len(), channels, 32, sample_rate, true, data);
    lemma_header_len(samples.len(), channels, 32, sample_rate, true);
    lemma_float_data_at(samples, i);
    let h = header_len(channels);
    assert(file.subrange(h + 4 * i, h + 4 * i + 4) =~= float_data(samples).subrange(
        4 * i,
        4 * i + 4,
    ));
    lemma_le_value(samples[i].bits as nat, 4);
}

/// A file has the form that players expect: the tags in their places, the length of
/// all that follows the first eight bytes, the kind of samples, the bytes per frame
/// and per second, and the samples behind the header.
pub proof fn law_wav_has_its_form(
    count: nat,
    channels: nat,
    bits: nat,
    sample_rate: nat,
    float: bool,
    data: Seq<u8>,
)
    requires
        0 < channels <= 0xffff,
        bits == 16 || bits == 24 || bits == 32,
        data.len() == count * (bits / 8),
        channels * (bits / 8) < 0x1_0000,
        sample_rate * (channels * (bits / 8)) <= 0xffff_ffff,
        data.len() + 72 <= 0xffff_ffff,
    ensures
        ({
            let file = wav_header(count, channels, bits, sample_rate, float) + data;
            let start = if channels > 2 { 68int } else { 44 };
            &&& file.subrange(0, 4) == seq![0x52u8, 0x49, 0x46, 0x46]
            &&& le_value(file.subrange(4, 8)) == file.len() - 8
            &&& file.subrange(8, 12) == seq![0x57u8, 0x41, 0x56, 0x45]
            &&& file.subrange(12, 16) == seq![0x66u8, 0x6d, 0x74, 0x20]
            &&& le_value(file.subrange(16, 20)) == start - 28
            &&& channels <= 2 && !float ==> le_value(file.subrange(20, 22)) == 1
            &&& channels <= 2 && float ==> le_value(file.subrange(20, 22)) == 3
            &&& channels > 2 ==> le_value(file.subrange(20, 22)) == 0xfffe
            &&& channels > 2 && !float ==> file[44] == 1
            &&& channels > 2 && float ==> file[44] == 3
            &&& le_value(file.subrange(28, 32)) == sample_rate * (channels * (bits / 8))
            &&& le_value(file.subrange(32, 34)) == channels * (bits / 8)
            &&& file.subrange(start - 8, start - 4) == seq![0x64u8, 0x61, 0x74, 0x61]
            &&& le_value(file.subrange(start - 4, start)) == data.len()
            &&& file.skip(start) == data
        }),
{
    let file = wav_header(count, channels, bits, sample_rate, float) + data;
    lemma_header_len(count, channels, bits, sample_rate, float);
    lemma_le_bytes_len(riff_len(count, channels, bits), 4);
    lemma_le_bytes_len(fmt_len(channels), 4);
    lemma_le_bytes_len(format_tag(channels, float), 2);
    lemma_le_bytes_len(channels, 2);
    lemma_le_bytes_len(sample_rate, 4);
    lemma_le_bytes_len(sample_rate * block_align(channels, bits), 4);
    lemma_le_bytes_len(block_align(channels, bits), 2);
    lemma_le_bytes_len(bits, 2);
    lemma_le_bytes_len(22, 2);
    lemma_le_bytes_len(channel_mask(channels), 4);
    lemma_le_bytes_len(data_len(count, bits), 4);
    assert(sample_width(bits) == bits / 8);
    let h = header_len(channels) as int;
    assert(block_align(channels, bits) == channels * (bits / 8));
    assert(file.subrange(0, 4) =~= seq![0x52u8, 0x49, 0x46, 0x46]);
    assert(file.subrange(4, 8) =~= le_bytes(riff_len(count, channels, bits), 4));
    assert(file.subrange(8, 12) =~= seq![0x57u8, 0x41, 0x56, 0x45]);
    assert(file.subrange(12, 16) =~= seq![0x66u8, 0x6d, 0x74, 0x20]);
    assert(file.subrange(16, 20) =~= le_bytes(fmt_len(channels), 4));
    assert(file.subrange(20, 22) =~= le_bytes(format_tag(channels, float), 2));
    assert(file.subrange(28, 32) =~= le_bytes(sample_rate * block_align(channels, bits), 4));
    assert(file.subrange(32, 34) =~= le_bytes(block_align(channels, bits), 2));
    assert(file.subrange(h - 8, h - 4) =~= seq![0x64u8, 0x61, 0x74, 0x61]);
    assert(file.subrange(h - 4, h) =~= le_bytes(data_len(count, bits), 4));
    assert(file.skip(h) =~= data);
    if channels > 2 {
        assert(file[44] == sub_format(float)[0]);
    }
    lemma_le_value(riff_len(count, channels, bits), 4);
    lemma_le_value(fmt_len(channels), 4);
    lemma_le_value(format_tag(channels, float), 2);
    lemma_le_value(sample_rate * block_align(channels, bits), 4);
    lemma_le_value(block_align(channels, bits), 2);
    lemma_le_value(data_len(count, bits), 4);
}

/// A file of more than two channels states its bit depth once more, and one speaker
/// bit per channel, low bits first.
pub proof fn law_wide_wav_has_speaker_bits(
    count: nat,
    channels: nat,
    bits: nat,
    sample_rate: nat,
    float: bool,
    data: Seq<u8>,
)
    requires
        2 < channels <= 0xffff,
        bits <= 0xffff,
    ensures
        ({
            let file = wav_header(count, channels, bits, sample_rate, float) + data;
            &&& le_value(file.subrange(36, 38)) == 22
            &&& le_value(file.subrange(38, 40)) == bits
            &&& channels < 32 ==> le_value(file.subrange(40, 44)) + 1 == power2::pow2(channels)
            &&& channels >= 32 ==> le_value(file.subrange(40, 44)) == 0xffff_ffff
        }),
{
    let file = wav_header(count, channels, bits, sample_rate, float) + data;
    lemma_header_len(count, channels, bits, sample_rate, float);
    lemma_le_bytes_len(riff_len(count, channels, bits), 4);
    lemma_le_bytes_len(fmt_len(channels), 4);
    lemma_le_bytes_len(format_tag(channels, float), 2);
    lemma_le_bytes_len(channels, 2);
    lemma_le_bytes_len(sample_rate, 4);
    lemma_le_bytes_len(sample_rate * block_align(channels, bits), 4);
    lemma_le_bytes_len(block_align(channels, bits), 2);
    lemma_le_bytes_len(bits, 2);
    lemma_le_bytes_len(22, 2);
    lemma_le_bytes_len(channel_mask(channels), 4);
    lemma_le_bytes_len(data_len(count, bits), 4);
    assert(file.subrange(36, 38) =~= le_bytes(22, 2));
    assert(file.subrange(38, 40) =~= le_bytes(bits, 2));
    assert(file.subrange(40, 44) =~= le_bytes(channel_mask(channels), 4));
    lemma_le_value(22, 2);
    lemma_le_value(bits, 2);
    lemma_le_value(channel_mask(channels), 4);
    power2::lemma_pow2_pos(channels);
    if channels < 32 {
        power2::lemma_pow2_strictly_increases(channels, 32);
        power2::lemma2_to64();
    }
}

}
