//! Rules of audio export: which output formats are accepted, when an existing
//! output may be replaced, the `ffmpeg` command line that converts the raw
//! 32-bit float PCM rendering into the target format, and the settings that
//! the exported file ends up with.

use vstd::prelude::*;

use crate::paths::{lower_extension_or, lower_extension_or_default};
use crate::text::{
    decimal, lemma_decimal_starts_with_digit, push_char, push_decimal, same_text, strings_view,
};

verus! {

/// Output formats that export accepts (by lowercase extension).
pub open spec fn supported_ext(e: Seq<char>) -> bool {
    e == "wav"@ || e == "mp3"@ || e == "flac"@ || e == "aiff"@ || e == "aif"@
}

/// Lossless output formats (no bitrate applies).
pub open spec fn lossless_ext(e: Seq<char>) -> bool {
    e == "wav"@ || e == "flac"@ || e == "aiff"@ || e == "aif"@
}

/// The lowercase extension of an output path, empty when it has none.
pub open spec fn output_ext(p: Seq<char>) -> Seq<char> {
    lower_extension_or(p, Seq::empty())
}

/// Whether the format with extension `ext` is lossless.
pub fn is_lossless(ext: &str) -> (b: bool)
    ensures
        b == lossless_ext(ext@),
{
    same_text(ext, "wav") || same_text(ext, "flac") || same_text(ext, "aiff") || same_text(
        ext,
        "aif",
    )
}

/// Why an export cannot start.
pub enum ExportError {
    /// The output file exists and replacing it was not asked for.
    OutputExists(String),
    /// The output extension names no supported format.
    UnsupportedFormat(String),
}

/// The message for an error, as the command line prints it.
pub open spec fn export_error_text(e: ExportError) -> Seq<char> {
    match e {
        ExportError::OutputExists(p) => "output file already exists: "@ + p@
            + ". Use --overwrite to replace it."@,
        ExportError::UnsupportedFormat(x) => "unsupported output format '"@ + x@
            + "'. Supported: wav, mp3, flac, aiff"@,
    }
}

impl ExportError {
    /// The message for this error.
    pub fn to_string(&self) -> (s: String)
        ensures
            s@ == export_error_text(*self),
    {
        match self {
            ExportError::OutputExists(p) => {
                let mut s = String::from_str("output file already exists: ");
                s.append(p.as_str());
                s.append(". Use --overwrite to replace it.");
                s
            },
            ExportError::UnsupportedFormat(x) => {
                let mut s = String::from_str("unsupported output format '");
                s.append(x.as_str());
                s.append("'. Supported: wav, mp3, flac, aiff");
                s
            },
        }
    }
}

/// Checks the output path's extension: the lowercase extension when it is a
/// supported format, else an `UnsupportedFormat` error carrying it.
pub fn validate_extension(output_path: &str) -> (r: Result<String, ExportError>)
    ensures
        match r {
            Ok(e) => supported_ext(output_ext(output_path@)) && e@ == output_ext(output_path@),
            Err(err) => !supported_ext(output_ext(output_path@)) && (err matches
                ExportError::UnsupportedFormat(x) && x@ == output_ext(output_path@)),
        },
{
    let ext = lower_extension_or_default(output_path, "");
    proof {
        reveal_strlit("");
        assert(""@ =~= Seq::<char>::empty());
    }
    let e = ext.as_str();
    if same_text(e, "wav") || same_text(e, "mp3") || same_text(e, "flac") || same_text(e, "aiff")
        || same_text(e, "aif") {
        Ok(ext)
    } else {
        Err(ExportError::UnsupportedFormat(ext))
    }
}

/// Decides whether an export to `output_path` may start: refused when the
/// file exists and `overwrite` is off (checked first), else the extension
/// must name a supported format, whose lowercase extension is returned.
pub fn check_export_target(output_path: &str, output_exists: bool, overwrite: bool) -> (r: Result<
    String,
    ExportError,
>)
    ensures
        output_exists && !overwrite ==> (r matches Err(ExportError::OutputExists(p)) && p@
            == output_path@),
        !(output_exists && !overwrite) ==> match r {
            Ok(e) => supported_ext(output_ext(output_path@)) && e@ == output_ext(output_path@),
            Err(err) => !supported_ext(output_ext(output_path@)) && (err matches
                ExportError::UnsupportedFormat(x) && x@ == output_ext(output_path@)),
        },
{
    if output_exists && !overwrite {
        return Err(ExportError::OutputExists(String::from_str(output_path)));
    }
    validate_extension(output_path)
}

/// Export options chosen on the command line.
pub struct ExportOptions {
    /// Resample to this rate.
    pub sample_rate: Option<u32>,
    /// Remix to this many channels.
    pub channels: Option<u16>,
    /// Bitrate in kbps for lossy formats.
    pub bitrate_kbps: Option<u32>,
    /// Replace an existing output file.
    pub overwrite: bool,
}

/// The argument list given to `ffmpeg` to convert the raw little-endian f32
/// rendering at `tmp` (at `src_rate` Hz, `src_channels` channels) into `out`.
pub open spec fn ffmpeg_args_spec(
    tmp: Seq<char>,
    out: Seq<char>,
    src_rate: nat,
    src_channels: nat,
    ext: Seq<char>,
    o: ExportOptions,
) -> Seq<Seq<char>> {
    (if o.overwrite { seq!["-y"@] } else { Seq::empty() }) + seq![
        "-f"@,
        "f32le"@,
        "-ar"@,
        decimal(src_rate),
        "-ac"@,
        decimal(src_channels),
        "-i"@,
        tmp,
    ] + (match o.sample_rate {
        Some(r) => seq!["-ar"@, decimal(r as nat)],
        None => Seq::empty(),
    }) + (match o.channels {
        Some(c) => seq!["-ac"@, decimal(c as nat)],
        None => Seq::empty(),
    }) + (match o.bitrate_kbps {
        Some(k) => if !lossless_ext(ext) {
            seq!["-b:a"@, decimal(k as nat).push('k')]
        } else {
            Seq::empty()
        },
        None => Seq::empty(),
    }) + seq![out]
}

fn push_arg(args: &mut Vec<String>, a: String)
    ensures
        strings_view(final(args)@) == strings_view(old(args)@).push(a@),
{
    args.push(a);
    assert(strings_view(args@) =~= strings_view(old(args)@).push(a@));
}

fn decimal_string(n: u64) -> (s: String)
    ensures
        s@ == decimal(n as nat),
{
    let mut s = String::new();
    push_decimal(&mut s, n);
    assert(s@ =~= decimal(n as nat));
    s
}

/// Builds the `ffmpeg` argument list (see `ffmpeg_args_spec`).
pub fn ffmpeg_args(
    tmp: &str,
    out: &str,
    src_rate: u32,
    src_channels: u16,
    ext: &str,
    options: &ExportOptions,
) -> (args: Vec<String>)
    ensures
        strings_view(args@) == ffmpeg_args_spec(
            tmp@,
            out@,
            src_rate as nat,
            src_channels as nat,
            ext@,
            *options,
        ),
{
    let mut args: Vec<String> = Vec::new();
    if options.overwrite {
        push_arg(&mut args, String::from_str("-y"));
    }
    let ghost head = strings_view(args@);
    push_arg(&mut args, String::from_str("-f"));
    push_arg(&mut args, String::from_str("f32le"));
    push_arg(&mut args, String::from_str("-ar"));
    push_arg(&mut args, decimal_string(src_rate as u64));
    push_arg(&mut args, String::from_str("-ac"));
    push_arg(&mut args, decimal_string(src_channels as u64));
    push_arg(&mut args, String::from_str("-i"));
    push_arg(&mut args, String::from_str(tmp));
    let ghost mid = strings_view(args@);
    match options.sample_rate {
        Some(r) => {
            push_arg(&mut args, String::from_str("-ar"));
            push_arg(&mut args, decimal_string(r as u64));
        },
        None => {},
    }
    let ghost after_rate = strings_view(args@);
    match options.channels {
        Some(c) => {
            push_arg(&mut args, String::from_str("-ac"));
            push_arg(&mut args, decimal_string(c as u64));
        },
        None => {},
    }
    let ghost after_channels = strings_view(args@);
    match options.bitrate_kbps {
        Some(k) => {
            if !is_lossless(ext) {
                push_arg(&mut args, String::from_str("-b:a"));
                let mut kb = decimal_string(k as u64);
                push_char(&mut kb, 'k');
                push_arg(&mut args, kb);
            }
        },
        None => {},
    }
    let ghost after_bitrate = strings_view(args@);
    push_arg(&mut args, String::from_str(out));
    proof {
        let o = *options;
        let a = if o.overwrite { seq!["-y"@] } else { Seq::<Seq<char>>::empty() };
        assert(head =~= a);
        let b = seq![
            "-f"@,
            "f32le"@,
            "-ar"@,
            decimal(src_rate as nat),
            "-ac"@,
            decimal(src_channels as nat),
            "-i"@,
            tmp@,
        ];
        assert(mid =~= a + b);
        let c = match o.sample_rate {
            Some(r) => seq!["-ar"@, decimal(r as nat)],
            None => Seq::<Seq<char>>::empty(),
        };
        assert(after_rate =~= a + b + c);
        let d = match o.channels {
            Some(ch) => seq!["-ac"@, decimal(ch as nat)],
            None => Seq::<Seq<char>>::empty(),
        };
        assert(after_channels =~= a + b + c + d);
        let e = match o.bitrate_kbps {
            Some(k) => if !lossless_ext(ext@) {
                seq!["-b:a"@, decimal(k as nat).push('k')]
            } else {
                Seq::<Seq<char>>::empty()
            },
            None => Seq::<Seq<char>>::empty(),
        };
        assert(after_bitrate =~= a + b + c + d + e);
        assert(strings_view(args@) =~= a + b + c + d + e + seq![out@]);
    }
    args
}

/// Format and stream settings of an exported file.
pub struct ExportSettings {
    /// Lowercase extension naming the format.
    pub format: String,
    /// Sample rate of the file.
    pub sample_rate: u32,
    /// Channel count of the file.
    pub channels: u16,
    /// Bitrate, for lossy formats given one.
    pub bitrate_kbps: Option<u32>,
}

/// The settings an export ends up with: the requested rate and channel count
/// where given, else those of the source; a bitrate only for lossy formats.
pub fn export_settings(ext: &str, src_rate: u32, src_channels: u16, options: &ExportOptions) -> (s:
    ExportSettings)
    ensures
        s.format@ == ext@,
        s.sample_rate == match options.sample_rate {
            Some(r) => r,
            None => src_rate,
        },
        s.channels == match options.channels {
            Some(c) => c,
            None => src_channels,
        },
        s.bitrate_kbps == if lossless_ext(ext@) {
            None
        } else {
            options.bitrate_kbps
        },
{
    let sample_rate = match options.sample_rate {
        Some(r) => r,
        None => src_rate,
    };
    let channels = match options.channels {
        Some(c) => c,
        None => src_channels,
    };
    let bitrate_kbps = if is_lossless(ext) {
        None
    } else {
        options.bitrate_kbps
    };
    ExportSettings { format: String::from_str(ext), sample_rate, channels, bitrate_kbps }
}

/// An option and its value, when there is a value.
pub open spec fn option_pair(flag: Seq<char>, value: Option<Seq<char>>) -> Seq<Seq<char>> {
    match value {
        Some(x) => seq![flag, x],
        None => Seq::empty(),
    }
}

proof fn lemma_add_contains(a: Seq<Seq<char>>, b: Seq<Seq<char>>, x: Seq<char>)
    ensures
        (a + b).contains(x) <==> (a.contains(x) || b.contains(x)),
{
    if (a + b).contains(x) {
        let i = choose|i: int| 0 <= i < (a + b).len() && (a + b)[i] == x;
        if i < a.len() {
            assert(a[i] == x);
        } else {
            assert(b[i - a.len()] == x);
        }
    }
    if a.contains(x) {
        let i = choose|i: int| 0 <= i < a.len() && a[i] == x;
        assert((a + b)[i] == x);
    }
    if b.contains(x) {
        let i = choose|i: int| 0 <= i < b.len() && b[i] == x;
        assert((a + b)[a.len() + i] == x);
    }
}

/// A pair holds a flag (a text starting with `-`) only as its own flag, when
/// its value does not start with `-`.
proof fn lemma_pair_contains(flag: Seq<char>, value: Option<Seq<char>>, g: Seq<char>)
    requires
        g.len() > 0,
        g[0] == '-',
        value matches Some(x) ==> x.len() > 0 && x[0] != '-',
    ensures
        option_pair(flag, value).contains(g) <==> (value is Some && flag == g),
{
    let p = option_pair(flag, value);
    if value is Some {
        assert(p[0] == flag);
        if p.contains(g) {
            let i = choose|i: int| 0 <= i < p.len() && p[i] == g;
            if i == 1 {
                assert(p[1][0] != g[0]);
            }
        }
    }
}

/// What the `ffmpeg` command line asks for: an `-y` first exactly when the
/// output may be overwritten; the raw input read as 32-bit float samples at
/// the source rate and channel count; then, between the input and the
/// output path (which comes last), `-ar` with the requested rate exactly when
/// a rate is requested, `-ac` with the requested channel count exactly when
/// a channel count is requested, and `-b:a` with the requested bitrate
/// exactly when one is requested for a lossy format; nothing else.
pub proof fn law_ffmpeg_command_line(
    tmp: Seq<char>,
    out: Seq<char>,
    src_rate: nat,
    src_channels: nat,
    ext: Seq<char>,
    o: ExportOptions,
)
    ensures
        ({
            let a = ffmpeg_args_spec(tmp, out, src_rate, src_channels, ext, o);
            let b: int = if o.overwrite { 1 } else { 0 };
            let opts = a.subrange(b + 8, a.len() - 1);
            let rate = match o.sample_rate {
                Some(r) => Some(decimal(r as nat)),
                None => None,
            };
            let chans = match o.channels {
                Some(c) => Some(decimal(c as nat)),
                None => None,
            };
            let bits = match o.bitrate_kbps {
                Some(k) => if lossless_ext(ext) {
                    None
                } else {
                    Some(decimal(k as nat).push('k'))
                },
                None => None,
            };
            &&& a.len() >= b + 9
            &&& (a[0] == "-y"@) == o.overwrite
            &&& a.subrange(b, b + 8) == seq![
                "-f"@,
                "f32le"@,
                "-ar"@,
                decimal(src_rate),
                "-ac"@,
                decimal(src_channels),
                "-i"@,
                tmp,
            ]
            &&& a.last() == out
            &&& opts.contains("-ar"@) == (o.sample_rate is Some)
            &&& opts.contains("-ac"@) == (o.channels is Some)
            &&& opts.contains("-b:a"@) == (o.bitrate_kbps is Some && !lossless_ext(ext))
            &&& opts == option_pair("-ar"@, rate) + option_pair("-ac"@, chans) + option_pair(
                "-b:a"@,
                bits,
            )
        }),
{
    reveal_strlit("-y");
    reveal_strlit("-f");
    reveal_strlit("-ar");
    reveal_strlit("-ac");
    reveal_strlit("-b:a");
    let a = ffmpeg_args_spec(tmp, out, src_rate, src_channels, ext, o);
    let b: int = if o.overwrite { 1 } else { 0 };
    let rate = match o.sample_rate {
        Some(r) => Some(decimal(r as nat)),
        None => None,
    };
    let chans = match o.channels {
        Some(c) => Some(decimal(c as nat)),
        None => None,
    };
    let bits = match o.bitrate_kbps {
        Some(k) => if lossless_ext(ext) {
            None
        } else {
            Some(decimal(k as nat).push('k'))
        },
        None => None,
    };
    let head = if o.overwrite { seq!["-y"@] } else { Seq::<Seq<char>>::empty() };
    let input = seq![
        "-f"@,
        "f32le"@,
        "-ar"@,
        decimal(src_rate),
        "-ac"@,
        decimal(src_channels),
        "-i"@,
        tmp,
    ];
    let p1 = option_pair("-ar"@, rate);
    let p2 = option_pair("-ac"@, chans);
    let p3 = option_pair("-b:a"@, bits);
    assert(a =~= head + input + (p1 + p2 + p3) + seq![out]);
    assert(a.subrange(b, b + 8) =~= input);
    assert(a.subrange(b + 8, a.len() - 1) =~= p1 + p2 + p3);
    assert(a[0] == "-y"@ <==> o.overwrite) by {
        if !o.overwrite {
            assert(a[0] == "-f"@);
            assert("-f"@[1] != "-y"@[1]);
        }
    }
    if let Some(r) = o.sample_rate {
        lemma_decimal_starts_with_digit(r as nat);
    }
    if let Some(c) = o.channels {
        lemma_decimal_starts_with_digit(c as nat);
    }
    if let Some(k) = o.bitrate_kbps {
        lemma_decimal_starts_with_digit(k as nat);
        assert(decimal(k as nat).push('k')[0] == decimal(k as nat)[0]);
    }
    assert("-ar"@[1] == 'a' && "-ar"@[2] == 'r');
    assert("-ac"@[1] == 'a' && "-ac"@[2] == 'c');
    assert("-b:a"@.len() == 4);
    let flags = seq!["-ar"@, "-ac"@, "-b:a"@];
    assert forall|g: Seq<char>| flags.contains(g) implies {
        &&& (p1 + p2 + p3).contains(g) == ((rate is Some && "-ar"@ == g) || (chans is Some
            && "-ac"@ == g) || (bits is Some && "-b:a"@ == g))
    } by {
        let i = choose|i: int| 0 <= i < flags.len() && flags[i] == g;
        assert(g.len() > 0 && g[0] == '-');
        lemma_pair_contains("-ar"@, rate, g);
        lemma_pair_contains("-ac"@, chans, g);
        lemma_pair_contains("-b:a"@, bits, g);
        lemma_add_contains(p1, p2, g);
        lemma_add_contains(p1 + p2, p3, g);
    }
    assert(flags[0] == "-ar"@);
    assert(flags[1] == "-ac"@);
    assert(flags[2] == "-b:a"@);
    let opts = a.subrange(b + 8, a.len() - 1);
    assert(flags.contains("-ar"@));
    assert(flags.contains("-ac"@));
    assert(flags.contains("-b:a"@));
    assert("-ar"@ != "-ac"@);
    assert("-ar"@ != "-b:a"@);
    assert("-ac"@ != "-b:a"@);
    assert(opts.contains("-ar"@) == (o.sample_rate is Some));
    assert(opts.contains("-ac"@) == (o.channels is Some));
    assert(opts.contains("-b:a"@) == (o.bitrate_kbps is Some && !lossless_ext(ext)));
    assert(a.len() >= b + 9);
    assert(a.last() == out);
}

/// Export writes the formats that sync catalogues, except Ogg: every
/// lossless format is supported, mp3 is the one supported lossy format, and
/// an audio extension that export refuses is `ogg` and nothing else.
pub proof fn law_export_formats(e: Seq<char>)
    ensures
        lossless_ext(e) ==> supported_ext(e),
        (supported_ext(e) && !lossless_ext(e)) <==> e == "mp3"@,
        supported_ext(e) ==> crate::library::audio_ext(e),
        (crate::library::audio_ext(e) && !supported_ext(e)) <==> e == "ogg"@,
{
    reveal_strlit("wav");
    reveal_strlit("mp3");
    reveal_strlit("flac");
    reveal_strlit("aiff");
    reveal_strlit("aif");
    reveal_strlit("ogg");
    assert("mp3"@[0] == 'm');
    assert("flac"@[0] == 'f');
    assert("ogg"@[0] == 'o');
    assert("aiff"@[0] == 'a');
    assert("aif"@[0] == 'a');
    assert("wav"@[0] == 'w');
}

} // verus!
