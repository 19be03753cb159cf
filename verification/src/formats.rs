//! The formats that songs are written in.

use crate::path;
use crate::path::{path_extension, PathStyle};
use crate::text;
use crate::text::{decimal_text, lower_text, same_text};
use vstd::prelude::*;
use vstd::string::*;

verus! {

/// How many channels a FLAC file can have.
pub const FLAC_MAX_CHANNELS: usize = 8;

#[derive(Clone, Copy, Debug, PartialEq, Eq, Structural)]
pub enum Format {
    Wav,
    Flac,
}

/// What `format!` with `{:?}` makes of a text: the text in quotes, with
/// escapes.
pub uninterp spec fn debug_text(s: Seq<char>) -> Seq<char>;

/// Formats a text with the `Debug` of `str` in std. The result depends on the
/// text alone; it is named and not spelled out, as the escapes follow tables
/// of Unicode.
#[verifier::external_body]
fn quoted(s: &str) -> (r: String)
    ensures
        r@ == debug_text(s@),
{
    format!("{:?}", s)
}

/// The format that an extension names, in upper or lower case.
pub open spec fn format_of_extension(ext: Option<Seq<char>>) -> Option<Format> {
    match ext {
        Some(e) => if text::ascii_lower(e) == "flac"@ {
            Some(Format::Flac)
        } else if text::ascii_lower(e) == "wav"@ {
            Some(Format::Wav)
        } else {
            None
        },
        None => None,
    }
}

/// What stands in the message for an extension of no format.
pub open spec fn unsupported_text(ext: Option<Seq<char>>) -> Seq<char> {
    match ext {
        Some(e) => text::ascii_lower(e),
        None => ""@,
    }
}

/// The message for an extension of no format, given the extension in quotes.
pub open spec fn unsupported_message(quoted_ext: Seq<char>) -> Seq<char> {
    "Unsupported output extension "@ + quoted_ext + ": use .flac or .wav"@
}

/// The message for an extension of no format, given the extension in quotes.
pub fn unsupported_extension(quoted_ext: &str) -> (r: String)
    ensures
        r@ == unsupported_message(quoted_ext@),
{
    let mut message = String::from_str("Unsupported output extension ");
    message.append(quoted_ext);
    message.append(": use .flac or .wav");
    message
}

impl Format {
    pub open spec fn extension_text(self) -> Seq<char> {
        match self {
            Format::Wav => "wav"@,
            Format::Flac => "flac"@,
        }
    }

    /// The format that the extension of a path names.
    pub fn from_path(style: PathStyle, path: &str) -> (r: Result<Format, String>)
        ensures
            match format_of_extension(path::extension(style, path@)) {
                Some(f) => r == Ok::<Format, String>(f),
                None => r matches Err(t) && t@ == unsupported_message(
                    debug_text(unsupported_text(path::extension(style, path@))),
                ),
            },
    {
        let lower = match path_extension(style, path) {
            Some(ext) => {
                let lower = lower_text(ext.as_str());
                if same_text(lower.as_str(), "flac") {
                    return Ok(Format::Flac);
                }
                if same_text(lower.as_str(), "wav") {
                    return Ok(Format::Wav);
                }
                lower
            },
            None => String::from_str(""),
        };
        let name = quoted(lower.as_str());
        Err(unsupported_extension(name.as_str()))
    }

    pub fn extension(self) -> (r: &'static str)
        ensures
            r@ == self.extension_text(),
    {
        match self {
            Format::Wav => "wav",
            Format::Flac => "flac",
        }
    }

    pub open spec fn name_text(self) -> Seq<char> {
        match self {
            Format::Wav => "WAV"@,
            Format::Flac => "FLAC"@,
        }
    }

    /// The name to show.
    pub fn name(self) -> (r: &'static str)
        ensures
            r@ == self.name_text(),
    {
        match self {
            Format::Wav => "WAV",
            Format::Flac => "FLAC",
        }
    }
}

/// Whether the tracks of a song go into one interleaved file or into one file
/// each.
#[derive(Clone, Copy, Debug, PartialEq, Eq, Structural)]
pub enum StemLayout {
    Interleaved,
    Tracks,
}

/// How multitrack stems are written.
#[derive(Clone, Copy, Debug, PartialEq, Eq, Structural)]
pub struct StemFormat {
    pub format: Format,
    pub layout: StemLayout,
}

pub open spec fn stem_formats() -> Seq<StemFormat> {
    seq![
        StemFormat { format: Format::Wav, layout: StemLayout::Interleaved },
        StemFormat { format: Format::Wav, layout: StemLayout::Tracks },
        StemFormat { format: Format::Flac, layout: StemLayout::Interleaved },
        StemFormat { format: Format::Flac, layout: StemLayout::Tracks },
    ]
}

impl StemFormat {
    /// All formats, in the order in which they are offered.
    pub fn all() -> (r: Vec<StemFormat>)
        ensures
            r@ == stem_formats(),
    {
        let mut out: Vec<StemFormat> = Vec::new();
        out.push(StemFormat { format: Format::Wav, layout: StemLayout::Interleaved });
        out.push(StemFormat { format: Format::Wav, layout: StemLayout::Tracks });
        out.push(StemFormat { format: Format::Flac, layout: StemLayout::Interleaved });
        out.push(StemFormat { format: Format::Flac, layout: StemLayout::Tracks });
        out
    }

    pub fn extension(self) -> (r: &'static str)
        ensures
            r@ == self.format.extension_text(),
    {
        self.format.extension()
    }

    /// Whether the format can hold a recording with that many tracks.
    pub open spec fn fits(self, channels: int) -> bool {
        !(self.format == Format::Flac && self.layout == StemLayout::Interleaved && channels
            > FLAC_MAX_CHANNELS)
    }

    /// The formats that can hold a recording with that many tracks.
    pub fn available_for(channels: usize) -> (r: Vec<StemFormat>)
        ensures
            r@ == stem_formats().filter(|f: StemFormat| f.fits(channels as int)),
    {
        let all = Self::all();
        let mut out: Vec<StemFormat> = Vec::new();
        let mut i: usize = 0;
        let ghost fit = |f: StemFormat| f.fits(channels as int);
        proof {
            reveal(Seq::filter);
        }
        while i < all.len()
            invariant
                i <= all.len(),
                fit == |f: StemFormat| f.fits(channels as int),
                out@ == all@.take(i as int).filter(fit),
            decreases all.len() - i,
        {
            let f = all[i];
            proof {
                reveal(Seq::filter);
                assert(all@.take(i + 1).drop_last() == all@.take(i as int));
                assert(all@.take(i + 1).last() == f);
            }
            if f.is_available_for(channels) {
                out.push(f);
            }
            i += 1;
        }
        assert(all@.take(all@.len() as int) == all@);
        out
    }

    /// Interleaved FLAC cannot hold a recording with more tracks than FLAC
    /// allows; every other format can.
    pub fn is_available_for(self, channels: usize) -> (r: bool)
        ensures
            r == self.fits(channels as int),
    {
        !(self.format == Format::Flac && self.layout == StemLayout::Interleaved && channels
            > FLAC_MAX_CHANNELS)
    }

    pub open spec fn label_text(self) -> Seq<char> {
        self.format.name_text() + (if self.layout == StemLayout::Interleaved {
            " interleaved"@
        } else {
            " one file per track"@
        })
    }

    /// The name to show.
    pub fn label(self) -> (r: String)
        ensures
            r@ == self.label_text(),
    {
        let mut label = String::from_str(self.format.name());
        match self.layout {
            StemLayout::Interleaved => label.append(" interleaved"),
            StemLayout::Tracks => label.append(" one file per track"),
        }
        label
    }
}

impl Default for StemFormat {
    fn default() -> (r: Self)
        ensures
            r == (StemFormat { format: Format::Flac, layout: StemLayout::Interleaved }),
    {
        StemFormat { format: Format::Flac, layout: StemLayout::Interleaved }
    }
}

/// How stereo mixes are written: as single-precision numbers, neither scaled
/// nor clamped, or as integers of 16 or 24 bits, scaled so that the peak sits
/// a decibel below full scale.
#[derive(Clone, Copy, Debug, PartialEq, Eq, Structural)]
pub enum MixFormat {
    Float32,
    Normalized { format: Format, bits: u32 },
}

pub open spec fn mix_formats() -> Seq<MixFormat> {
    seq![
        MixFormat::Float32,
        MixFormat::Normalized { format: Format::Wav, bits: 24 },
        MixFormat::Normalized { format: Format::Wav, bits: 16 },
        MixFormat::Normalized { format: Format::Flac, bits: 24 },
        MixFormat::Normalized { format: Format::Flac, bits: 16 },
    ]
}

impl MixFormat {
    /// All formats, in the order in which they are offered.
    pub fn all() -> (r: Vec<MixFormat>)
        ensures
            r@ == mix_formats(),
    {
        let mut out: Vec<MixFormat> = Vec::new();
        out.push(MixFormat::Float32);
        out.push(MixFormat::Normalized { format: Format::Wav, bits: 24 });
        out.push(MixFormat::Normalized { format: Format::Wav, bits: 16 });
        out.push(MixFormat::Normalized { format: Format::Flac, bits: 24 });
        out.push(MixFormat::Normalized { format: Format::Flac, bits: 16 });
        out
    }

    /// The kind of file: a float mix is a WAV file.
    pub open spec fn container(self) -> Format {
        match self {
            MixFormat::Float32 => Format::Wav,
            MixFormat::Normalized { format, .. } => format,
        }
    }

    pub fn extension(self) -> (r: &'static str)
        ensures
            r@ == self.container().extension_text(),
    {
        match self {
            MixFormat::Float32 => "wav",
            MixFormat::Normalized { format, .. } => format.extension(),
        }
    }

    pub open spec fn label_text(self) -> Seq<char> {
        match self {
            MixFormat::Float32 => "WAV 32-bit float"@,
            MixFormat::Normalized { format, bits } => format.name_text() + " "@ + text::decimal(
                bits as nat,
            ) + "-bit, normalized"@,
        }
    }

    /// The name to show.
    pub fn label(self) -> (r: String)
        ensures
            r@ == self.label_text(),
    {
        match self {
            MixFormat::Float32 => String::from_str("WAV 32-bit float"),
            MixFormat::Normalized { format, bits } => {
                let mut label = String::from_str(format.name());
                label.append(" ");
                label.append(decimal_text(bits as u64).as_str());
                label.append("-bit, normalized");
                label
            },
        }
    }
}

impl Default for MixFormat {
    fn default() -> (r: Self)
        ensures
            r == MixFormat::Float32,
    {
        MixFormat::Float32
    }
}

/// A path that ends in the extension of a format is read as that format.
pub proof fn law_extension_names_format(f: Format)
    ensures
        format_of_extension(Some(f.extension_text())) == Some(f),
{
    reveal_strlit("wav");
    reveal_strlit("flac");
    assert(text::ascii_lower("wav"@) =~= "wav"@);
    assert(text::ascii_lower("flac"@) =~= "flac"@);
    assert("wav"@.len() != "flac"@.len());
}

/// An extension stands for FLAC or WAV, in upper or lower case, and every other for no
/// format; files of a format get just that extension.
pub proof fn law_extensions(e: Seq<char>)
    ensures
        text::ascii_lower(e) == "flac"@ ==> format_of_extension(Some(e)) == Some(Format::Flac),
        text::ascii_lower(e) == "wav"@ ==> format_of_extension(Some(e)) == Some(Format::Wav),
        text::ascii_lower(e) != "flac"@ && text::ascii_lower(e) != "wav"@ ==> format_of_extension(
            Some(e),
        ) is None,
        format_of_extension(None) is None,
        Format::Flac.extension_text() == "flac"@,
        Format::Wav.extension_text() == "wav"@,
        Format::Flac.name_text() == "FLAC"@,
        Format::Wav.name_text() == "WAV"@,
{
    reveal_strlit("wav");
    reveal_strlit("flac");
    assert("wav"@.len() == 3 && "flac"@.len() == 4);
}

/// Every way of writing tracks is offered, but for one FLAC file of more than eight
/// tracks; mixes are offered as float and as 16 and 24 bits in both formats.
pub proof fn law_formats_are_offered(f: StemFormat, channels: int, g: Format)
    ensures
        f.fits(channels) <==> !(f.format == Format::Flac && f.layout == StemLayout::Interleaved
            && channels > 8),
        stem_formats().contains(f),
        mix_formats().contains(MixFormat::Float32),
        mix_formats().contains(MixFormat::Normalized { format: g, bits: 16 }),
        mix_formats().contains(MixFormat::Normalized { format: g, bits: 24 }),
        mix_formats().len() == 5,
        stem_formats().len() == 4,
        MixFormat::Float32.container() == Format::Wav,
        (MixFormat::Normalized { format: g, bits: 16 }).container() == g,
        (MixFormat::Normalized { format: g, bits: 24 }).container() == g,
{
    let s = stem_formats();
    assert(s.len() == 4);
    assert(s[0] == f || s[1] == f || s[2] == f || s[3] == f);
    let m = mix_formats();
    assert(m.len() == 5);
    assert(m[0] == MixFormat::Float32);
    assert(m[1] == (MixFormat::Normalized { format: g, bits: 24 }) || m[3]
        == (MixFormat::Normalized { format: g, bits: 24 }));
    assert(m[2] == (MixFormat::Normalized { format: g, bits: 16 }) || m[4]
        == (MixFormat::Normalized { format: g, bits: 16 }));
}

}
