//! The conversion phase's decisions: which target formats exist, which
//! files become conversion tasks, the exact command lines of the external
//! encoders, and how a run's outcome is reported.
use vstd::prelude::*;

verus! {

/// The formats one PNG can be transcoded into.
#[derive(Clone, Copy, Debug, PartialEq, Eq, Structural)]
pub enum TargetFormat {
    Webp,
    Avif,
}

/// Why one conversion failed: the source raster could not be decoded, the
/// encoder refused it, or running the encoder or writing its output
/// failed. A missing external encoder is deliberately not an error — see
/// `external_outcome`.
#[derive(Clone, Copy, Debug, PartialEq, Eq, Structural)]
pub enum ConversionError {
    Decode,
    Encode,
    Io,
}

/// One unit of conversion work: read `input`, write the transcoded bytes
/// to `output`. Created by the orchestrator, consumed exactly once.
pub struct ConversionTask {
    pub input: String,
    pub output: String,
}

/// The extension the target format writes.
pub open spec fn spec_format_ext(format: TargetFormat) -> Seq<char> {
    match format {
        TargetFormat::Webp => "webp"@,
        TargetFormat::Avif => "avif"@,
    }
}

/// What a format argument parses to: exactly `webp` and `avif` are
/// supported, anything else is rejected before any work is scheduled.
pub open spec fn spec_parse_format(s: Seq<char>) -> Option<TargetFormat> {
    if s == "webp"@ {
        Some(TargetFormat::Webp)
    } else if s == "avif"@ {
        Some(TargetFormat::Avif)
    } else {
        None
    }
}

/// Compares two text slices by their characters.
fn str_eq(a: &str, b: &str) -> (r: bool)
    ensures
        r == (a@ == b@),
{
    let sa = a.to_owned();
    let sb = b.to_owned();
    sa == sb
}

impl TargetFormat {
    /// Parses a format argument; an unsupported value is rejected here,
    /// before any directory is read or created.
    pub fn parse(s: &str) -> (r: Option<TargetFormat>)
        ensures
            r == spec_parse_format(s@),
    {
        if str_eq(s, "webp") {
            Some(TargetFormat::Webp)
        } else if str_eq(s, "avif") {
            Some(TargetFormat::Avif)
        } else {
            None
        }
    }

    /// The extension the format writes, as text.
    pub fn ext(self) -> (r: String)
        ensures
            r@ == spec_format_ext(self),
    {
        match self {
            TargetFormat::Webp => String::from_str("webp"),
            TargetFormat::Avif => String::from_str("avif"),
        }
    }
}

/// The views of a list of command arguments.
pub open spec fn spec_arg_views(args: Seq<String>) -> Seq<Seq<char>> {
    args.map_values(|s: String| s@)
}

/// Transcodes one local raster file into one target-format file. The
/// command lines, the probe, and the outcome rule live here; the process
/// spawning and the file writing are the surrounding program's.
pub struct ImageConverter;

impl ImageConverter {
    /// The external encoder's program name for the format.
    pub fn encoder_program(format: TargetFormat) -> (r: String)
        ensures
            format == TargetFormat::Webp ==> r@ == "cwebp"@,
            format == TargetFormat::Avif ==> r@ == "avifenc"@,
    {
        match format {
            TargetFormat::Webp => String::from_str("cwebp"),
            TargetFormat::Avif => String::from_str("avifenc"),
        }
    }

    /// The argument probing whether the encoder is installed:
    /// `cwebp -version`, `avifenc --version`.
    pub fn probe_arg(format: TargetFormat) -> (r: String)
        ensures
            format == TargetFormat::Webp ==> r@ == "-version"@,
            format == TargetFormat::Avif ==> r@ == "--version"@,
    {
        match format {
            TargetFormat::Webp => String::from_str("-version"),
            TargetFormat::Avif => String::from_str("--version"),
        }
    }

    /// The fixed command line of the external WebP encoder:
    /// `cwebp -quiet {input} -o {output}` — the tool's own default
    /// quality, lossless disabled.
    pub fn cwebp_args(input: &str, output: &str) -> (r: Vec<String>)
        ensures
            spec_arg_views(r@) =~= seq!["-quiet"@, input@, "-o"@, output@],
    {
        let mut args: Vec<String> = Vec::new();
        args.push(String::from_str("-quiet"));
        args.push(input.to_owned());
        args.push(String::from_str("-o"));
        args.push(output.to_owned());
        args
    }

    /// The fixed command line of the external AVIF encoder:
    /// `avifenc -q 0..51 --speed 8 --yuv 444 {input} {output}` — the
    /// quality range request, encoder speed level 8, 4:4:4 chroma.
    pub fn avifenc_args(input: &str, output: &str) -> (r: Vec<String>)
        ensures
            spec_arg_views(r@) =~= seq![
                "-q"@,
                "0..51"@,
                "--speed"@,
                "8"@,
                "--yuv"@,
                "444"@,
                input@,
                output@,
            ],
    {
        let mut args: Vec<String> = Vec::new();
        args.push(String::from_str("-q"));
        args.push(String::from_str("0..51"));
        args.push(String::from_str("--speed"));
        args.push(String::from_str("8"));
        args.push(String::from_str("--yuv"));
        args.push(String::from_str("444"));
        args.push(input.to_owned());
        args.push(output.to_owned());
        args
    }

    /// The installation hint printed when the external encoder is missing.
    pub fn install_guide(format: TargetFormat) -> (r: Vec<String>)
        ensures
            format == TargetFormat::Webp ==> spec_arg_views(r@) =~= seq![
                "cwebp is not installed. Please install it:"@,
                "macOS: brew install webp"@,
                "Or download from: https://developers.google.com/speed/webp/download"@,
            ],
            format == TargetFormat::Avif ==> spec_arg_views(r@) =~= seq![
                "avifenc is not installed. Please install it:"@,
                "macOS: brew install libavif"@,
                "Or visit: https://github.com/AOMediaCodec/libavif"@,
            ],
    {
        let mut lines: Vec<String> = Vec::new();
        match format {
            TargetFormat::Webp => {
                lines.push(String::from_str("cwebp is not installed. Please install it:"));
                lines.push(String::from_str("macOS: brew install webp"));
                lines.push(
                    String::from_str(
                        "Or download from: https://developers.google.com/speed/webp/download",
                    ),
                );
            },
            TargetFormat::Avif => {
                lines.push(String::from_str("avifenc is not installed. Please install it:"));
                lines.push(String::from_str("macOS: brew install libavif"));
                lines.push(String::from_str("Or visit: https://github.com/AOMediaCodec/libavif"));
            },
        }
        lines
    }

    /// The rule an external-encoder run is reported by: a missing encoder
    /// degrades softly to `Ok(false)` — the batch goes on and the caller
    /// must check the boolean — while an encoder that ran reports whether
    /// its exit status was success. Failing to spawn or to write is the
    /// caller's `ConversionError::Io`, mapped at the boundary.
    pub fn external_outcome(installed: bool, run_succeeded: Option<bool>) -> (r: Result<
        bool,
        ConversionError,
    >)
        requires
            installed ==> run_succeeded is Some,
        ensures
            !installed ==> (r matches Ok(b) && !b),
            installed ==> (r matches Ok(b) && b == run_succeeded->0),
    {
        if !installed {
            Ok(false)
        } else {
            match run_succeeded {
                Some(b) => Ok(b),
                None => Ok(false),
            }
        }
    }

    /// Recognizes an AVIF stream: its bytes at offsets 4 through 7 spell
    /// `ftyp`.
    pub fn has_avif_signature(bytes: &Vec<u8>) -> (r: bool)
        ensures
            r == spec_has_avif_signature(bytes@),
    {
        bytes.len() >= 8 && bytes[4] == 102 && bytes[5] == 116 && bytes[6] == 121 && bytes[7]
            == 112
    }
}

/// Holds of byte streams whose offsets 4 through 7 spell `ftyp` — the
/// box-type marker an AVIF file starts with.
pub open spec fn spec_has_avif_signature(bytes: Seq<u8>) -> bool {
    bytes.len() >= 8 && bytes[4] == 102 && bytes[5] == 116 && bytes[6] == 121 && bytes[7] == 112
}

/// Holds of file names that end in `.png` — the files the conversion
/// phase picks up.
pub open spec fn spec_has_png_ext(name: Seq<char>) -> bool {
    name.len() >= 4 && name[name.len() - 4] == '.' && name[name.len() - 3] == 'p' && name[name.len()
        - 2] == 'n' && name[name.len() - 1] == 'g'
}

/// Tells whether a file name ends in `.png`.
pub fn has_png_ext(name: &str) -> (r: bool)
    ensures
        r == spec_has_png_ext(name@),
{
    let n = name.unicode_len();
    n >= 4 && name.get_char(n - 4) == '.' && name.get_char(n - 3) == 'p' && name.get_char(n - 2)
        == 'n' && name.get_char(n - 1) == 'g'
}

/// The conversion plan for one directory listing: each `.png` file, in
/// order, becomes a task reading `{inputDir}/{name}` and writing
/// `{outputDir}/{stem}.{format}`; every other file is passed over.
pub open spec fn spec_conversion_plan(
    names: Seq<Seq<char>>,
    input_dir: Seq<char>,
    output_dir: Seq<char>,
    format: TargetFormat,
) -> Seq<(Seq<char>, Seq<char>)>
    decreases names.len(),
{
    if names.len() == 0 {
        Seq::empty()
    } else {
        let rest = spec_conversion_plan(
            names.subrange(0, names.len() - 1),
            input_dir,
            output_dir,
            format,
        );
        let name = names[names.len() - 1];
        if spec_has_png_ext(name) {
            rest + seq![
                (
                    input_dir + "/"@ + name,
                    output_dir + "/"@ + name.subrange(0, name.len() - 4) + "."@ + spec_format_ext(
                        format,
                    ),
                ),
            ]
        } else {
            rest
        }
    }
}

/// The views of a list of conversion tasks.
pub open spec fn spec_conversion_task_views(ts: Seq<ConversionTask>) -> Seq<
    (Seq<char>, Seq<char>),
> {
    ts.map_values(|t: ConversionTask| (t.input@, t.output@))
}

/// The names of a directory listing.
pub open spec fn spec_name_views(names: Seq<String>) -> Seq<Seq<char>> {
    names.map_values(|s: String| s@)
}

/// Turns a directory listing into conversion tasks: one task per `.png`
/// file, none for any other file.
pub fn plan_conversions(
    names: &Vec<String>,
    input_dir: &str,
    output_dir: &str,
    format: TargetFormat,
) -> (r: Vec<ConversionTask>)
    ensures
        spec_conversion_task_views(r@) == spec_conversion_plan(
            spec_name_views(names@),
            input_dir@,
            output_dir@,
            format,
        ),
{
    let ghost views = spec_name_views(names@);
    let mut out: Vec<ConversionTask> = Vec::new();
    let mut i: usize = 0;
    while i < names.len()
        invariant
            i <= names@.len(),
            views == spec_name_views(names@),
            spec_conversion_task_views(out@) == spec_conversion_plan(
                views.subrange(0, i as int),
                input_dir@,
                output_dir@,
                format,
            ),
        decreases names@.len() - i,
    {
        let ghost pre = out@;
        let name = &names[i];
        if has_png_ext(name.as_str()) {
            let n = name.as_str().unicode_len();
            let stem = name.as_str().substring_char(0, n - 4);
            let mut input = input_dir.to_owned();
            input.append("/");
            input.append(name.as_str());
            let mut output = output_dir.to_owned();
            output.append("/");
            output.append(stem);
            output.append(".");
            output.append(format.ext().as_str());
            out.push(ConversionTask { input, output });
            proof {
                assert(spec_conversion_task_views(out@) =~= spec_conversion_task_views(pre)
                    + seq![
                    (
                        input_dir@ + "/"@ + views[i as int],
                        output_dir@ + "/"@ + views[i as int].subrange(
                            0,
                            views[i as int].len() - 4,
                        ) + "."@ + spec_format_ext(format),
                    ),
                ]);
            }
        }
        proof {
            assert(views.subrange(0, i + 1).subrange(0, i as int) =~= views.subrange(0, i as int));
            assert(views.subrange(0, i + 1)[i as int] == views[i as int]);
            assert(spec_conversion_task_views(out@) =~= spec_conversion_plan(
                views.subrange(0, i + 1),
                input_dir@,
                output_dir@,
                format,
            ));
        }
        i = i + 1;
    }
    proof {
        assert(views.subrange(0, names@.len() as int) =~= views);
    }
    out
}

} // verus!
