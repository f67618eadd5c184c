//! FFmpeg and ffprobe command lines, the raw frame size checks, and reading
//! what ffprobe reports (frame size, rate and count).

use crate::error::AppError;
use crate::text::{
    decimal, is_ascii_digit, push_char, push_decimal, str_equals, trim, trim_ws,
};
use vstd::prelude::*;
use vstd::string::*;

verus! {

// ---------------------------------------------------------------------------
// Command lines
// ---------------------------------------------------------------------------

/// The text of each argument.
pub open spec fn arg_texts(args: Seq<String>) -> Seq<Seq<char>> {
    args.map_values(|a: String| a@)
}

fn push_arg(args: &mut Vec<String>, a: &str)
    ensures
        arg_texts(final(args)@) == arg_texts(old(args)@).push(a@),
{
    args.push(String::from_str(a));
    assert(arg_texts(args@) =~= arg_texts(old(args)@).push(a@));
}

fn push_owned_arg(args: &mut Vec<String>, a: String)
    ensures
        arg_texts(final(args)@) == arg_texts(old(args)@).push(a@),
{
    let ghost t = a@;
    args.push(a);
    assert(arg_texts(args@) =~= arg_texts(old(args)@).push(t));
}

/// `fps=N`, the filter that resamples the input to `target_fps`.
pub open spec fn fps_filter(target_fps: nat) -> Seq<char> {
    "fps="@ + decimal(target_fps)
}

/// The decoder command line: decode `input`, resampled to `target_fps`, to
/// raw RGBA frames on standard output.
pub open spec fn decoder_arg_texts(input: Seq<char>, target_fps: nat) -> Seq<Seq<char>> {
    seq![
        "-i"@,
        input,
        "-vf"@,
        fps_filter(target_fps),
        "-f"@,
        "rawvideo"@,
        "-pix_fmt"@,
        "rgba"@,
        "-v"@,
        "quiet"@,
        "-"@,
    ]
}

/// Arguments of the FFmpeg decoder process.
pub fn decoder_args(input: &str, target_fps: u32) -> (r: Vec<String>)
    ensures
        arg_texts(r@) == decoder_arg_texts(input@, target_fps as nat),
{
    let mut filter = String::from_str("fps=");
    push_decimal(&mut filter, target_fps as u64);
    let mut args: Vec<String> = Vec::new();
    push_arg(&mut args, "-i");
    push_arg(&mut args, input);
    push_arg(&mut args, "-vf");
    push_owned_arg(&mut args, filter);
    push_arg(&mut args, "-f");
    push_arg(&mut args, "rawvideo");
    push_arg(&mut args, "-pix_fmt");
    push_arg(&mut args, "rgba");
    push_arg(&mut args, "-v");
    push_arg(&mut args, "quiet");
    push_arg(&mut args, "-");
    assert(arg_texts(args@) =~= decoder_arg_texts(input@, target_fps as nat));
    args
}

/// The command line that decodes only the first frame of `input` to raw
/// RGBA bytes on standard output.
pub open spec fn first_frame_arg_texts(input: Seq<char>) -> Seq<Seq<char>> {
    seq![
        "-i"@,
        input,
        "-vframes"@,
        "1"@,
        "-f"@,
        "image2pipe"@,
        "-pix_fmt"@,
        "rgba"@,
        "-vcodec"@,
        "rawvideo"@,
        "-v"@,
        "quiet"@,
        "-"@,
    ]
}

/// Arguments of the FFmpeg run that extracts the first frame of a video as
/// raw RGBA.
pub fn first_frame_args(input: &str) -> (r: Vec<String>)
    ensures
        arg_texts(r@) == first_frame_arg_texts(input@),
{
    let mut args: Vec<String> = Vec::new();
    push_arg(&mut args, "-i");
    push_arg(&mut args, input);
    push_arg(&mut args, "-vframes");
    push_arg(&mut args, "1");
    push_arg(&mut args, "-f");
    push_arg(&mut args, "image2pipe");
    push_arg(&mut args, "-pix_fmt");
    push_arg(&mut args, "rgba");
    push_arg(&mut args, "-vcodec");
    push_arg(&mut args, "rawvideo");
    push_arg(&mut args, "-v");
    push_arg(&mut args, "quiet");
    push_arg(&mut args, "-");
    assert(arg_texts(args@) =~= first_frame_arg_texts(input@));
    args
}

/// The command line that writes the first frame of `input` to the image
/// file `output` (the fallback when raw decoding yields nothing).
pub open spec fn first_frame_file_arg_texts(input: Seq<char>, output: Seq<char>) -> Seq<Seq<char>> {
    seq!["-y"@, "-i"@, input, "-vframes"@, "1"@, "-v"@, "quiet"@, output]
}

/// Arguments of the FFmpeg run that saves the first frame of a video to an
/// image file.
pub fn first_frame_file_args(input: &str, output: &str) -> (r: Vec<String>)
    ensures
        arg_texts(r@) == first_frame_file_arg_texts(input@, output@),
{
    let mut args: Vec<String> = Vec::new();
    push_arg(&mut args, "-y");
    push_arg(&mut args, "-i");
    push_arg(&mut args, input);
    push_arg(&mut args, "-vframes");
    push_arg(&mut args, "1");
    push_arg(&mut args, "-v");
    push_arg(&mut args, "quiet");
    push_arg(&mut args, output);
    assert(arg_texts(args@) =~= first_frame_file_arg_texts(input@, output@));
    args
}

/// The ffprobe command line that prints `entries` of the first video stream
/// (or of the container) of `input` as bare comma-separated values.
pub open spec fn probe_arg_texts(entries: Seq<char>, input: Seq<char>) -> Seq<Seq<char>> {
    seq![
        "-v"@,
        "quiet"@,
        "-select_streams"@,
        "v:0"@,
        "-show_entries"@,
        entries,
        "-of"@,
        "csv=p=0"@,
        input,
    ]
}

/// Arguments of an ffprobe run, such as `stream=width,height` or
/// `format=duration` for `entries`.
pub fn probe_args(entries: &str, input: &str) -> (r: Vec<String>)
    ensures
        arg_texts(r@) == probe_arg_texts(entries@, input@),
{
    let mut args: Vec<String> = Vec::new();
    push_arg(&mut args, "-v");
    push_arg(&mut args, "quiet");
    push_arg(&mut args, "-select_streams");
    push_arg(&mut args, "v:0");
    push_arg(&mut args, "-show_entries");
    push_arg(&mut args, entries);
    push_arg(&mut args, "-of");
    push_arg(&mut args, "csv=p=0");
    push_arg(&mut args, input);
    assert(arg_texts(args@) =~= probe_arg_texts(entries@, input@));
    args
}

/// `WxH`, the frame size argument.
pub open spec fn size_text(width: nat, height: nat) -> Seq<char> {
    decimal(width) + seq!['x'] + decimal(height)
}

/// The encoder command line: raw RGBA frames of `width × height` at `rate`
/// on standard input, encoded with x264 to `output`.
pub open spec fn encoder_arg_texts(output: Seq<char>, width: nat, height: nat, rate: Seq<char>) -> Seq<Seq<char>> {
    seq![
        "-y"@,
        "-f"@,
        "rawvideo"@,
        "-pix_fmt"@,
        "rgba"@,
        "-s"@,
        size_text(width, height),
        "-r"@,
        rate,
        "-i"@,
        "-"@,
        "-c:v"@,
        "libx264"@,
        "-pix_fmt"@,
        "yuv420p"@,
        "-v"@,
        "quiet"@,
        output,
    ]
}

/// Arguments of the FFmpeg encoder process (`rate` is the frame rate as text).
pub fn encoder_args(output: &str, width: u32, height: u32, rate: &str) -> (r: Vec<String>)
    ensures
        arg_texts(r@) == encoder_arg_texts(output@, width as nat, height as nat, rate@),
{
    let mut size = String::new();
    push_decimal(&mut size, width as u64);
    push_char(&mut size, 'x');
    push_decimal(&mut size, height as u64);
    assert(size@ =~= size_text(width as nat, height as nat));
    let mut args: Vec<String> = Vec::new();
    push_arg(&mut args, "-y");
    push_arg(&mut args, "-f");
    push_arg(&mut args, "rawvideo");
    push_arg(&mut args, "-pix_fmt");
    push_arg(&mut args, "rgba");
    push_arg(&mut args, "-s");
    push_owned_arg(&mut args, size);
    push_arg(&mut args, "-r");
    push_arg(&mut args, rate);
    push_arg(&mut args, "-i");
    push_arg(&mut args, "-");
    push_arg(&mut args, "-c:v");
    push_arg(&mut args, "libx264");
    push_arg(&mut args, "-pix_fmt");
    push_arg(&mut args, "yuv420p");
    push_arg(&mut args, "-v");
    push_arg(&mut args, "quiet");
    push_arg(&mut args, output);
    assert(arg_texts(args@) =~= encoder_arg_texts(output@, width as nat, height as nat, rate@));
    args
}

/// Whether the source's audio is carried into the rendered video: asked
/// for, and there is a source path to take it from.
pub open spec fn wants_audio(preserve_audio: bool, source: Seq<char>) -> bool {
    preserve_audio && source.len() > 0
}

/// The arguments that map the source's audio track (optional, so a silent
/// source still encodes).
pub open spec fn audio_arg_texts(source: Seq<char>) -> Seq<Seq<char>> {
    seq!["-i"@, source, "-map"@, "0:v:0"@, "-map"@, "1:a:0?"@, "-c:a"@, "aac"@, "-shortest"@]
}

/// The command line that assembles the saved frame sequence into the final
/// MP4, optionally with the source's audio.
pub open spec fn assemble_arg_texts(
    framerate: Seq<char>,
    frames_pattern: Seq<char>,
    source: Seq<char>,
    output: Seq<char>,
    preserve_audio: bool,
) -> Seq<Seq<char>> {
    seq!["-y"@, "-framerate"@, framerate, "-i"@, frames_pattern] + (if wants_audio(
        preserve_audio,
        source,
    ) {
        audio_arg_texts(source)
    } else {
        Seq::<Seq<char>>::empty()
    }) + seq!["-c:v"@, "libx264"@, "-pix_fmt"@, "yuv420p"@, "-v"@, "quiet"@, output]
}

/// Arguments of the FFmpeg run that encodes the frame sequence into the
/// result video.
pub fn assemble_video_args(
    framerate: &str,
    frames_pattern: &str,
    source: &str,
    output: &str,
    preserve_audio: bool,
) -> (r: Vec<String>)
    ensures
        arg_texts(r@) == assemble_arg_texts(framerate@, frames_pattern@, source@, output@, preserve_audio),
{
    let mut args: Vec<String> = Vec::new();
    push_arg(&mut args, "-y");
    push_arg(&mut args, "-framerate");
    push_arg(&mut args, framerate);
    push_arg(&mut args, "-i");
    push_arg(&mut args, frames_pattern);
    let ghost head = arg_texts(args@);
    let want_audio = preserve_audio && source.unicode_len() > 0;
    if want_audio {
        push_arg(&mut args, "-i");
        push_arg(&mut args, source);
        push_arg(&mut args, "-map");
        push_arg(&mut args, "0:v:0");
        push_arg(&mut args, "-map");
        push_arg(&mut args, "1:a:0?");
        push_arg(&mut args, "-c:a");
        push_arg(&mut args, "aac");
        push_arg(&mut args, "-shortest");
        assert(arg_texts(args@) =~= head + audio_arg_texts(source@));
    } else {
        assert(arg_texts(args@) =~= head + Seq::<Seq<char>>::empty());
    }
    let ghost mid = arg_texts(args@);
    push_arg(&mut args, "-c:v");
    push_arg(&mut args, "libx264");
    push_arg(&mut args, "-pix_fmt");
    push_arg(&mut args, "yuv420p");
    push_arg(&mut args, "-v");
    push_arg(&mut args, "quiet");
    push_arg(&mut args, output);
    assert(arg_texts(args@) =~= assemble_arg_texts(
        framerate@,
        frames_pattern@,
        source@,
        output@,
        preserve_audio,
    ));
    args
}

// ---------------------------------------------------------------------------
// Frame sizes
// ---------------------------------------------------------------------------

/// The message of a wrongly sized frame handed to the encoder.
pub open spec fn frame_size_message(expected: nat, got: nat) -> Seq<char> {
    "encode_frame: expected "@ + decimal(expected) + " bytes, got "@ + decimal(got)
}

/// Check a raw RGBA frame for the encoder: it must be exactly
/// `width × height × 4` bytes.
pub fn check_frame_size(len: usize, width: u32, height: u32) -> (r: Result<(), AppError>)
    requires
        width * height * 4 <= usize::MAX,
    ensures
        r is Ok <==> len == width * height * 4,
        r matches Err(e) ==> e matches AppError::Ffmpeg(m) && m@ == frame_size_message(
            (width * height * 4) as nat,
            len as nat,
        ),
{
    assert(width as usize * height as usize <= width * height * 4) by (nonlinear_arith);
    let expected: usize = width as usize * height as usize * 4;
    if len != expected {
        let mut m = String::from_str("encode_frame: expected ");
        push_decimal(&mut m, expected as u64);
        m.append(" bytes, got ");
        push_decimal(&mut m, len as u64);
        return Err(AppError::Ffmpeg(m));
    }
    Ok(())
}

// ---------------------------------------------------------------------------
// Probe output
// ---------------------------------------------------------------------------

/// Why `u32::from_str` rejects a text (std's `IntErrorKind` cases that an
/// unsigned parse can give).
#[derive(Clone, Copy, Debug, PartialEq, Eq, Structural)]
pub enum IntParseError {
    /// The text is empty.
    Empty,
    /// A character is not a decimal digit (or only a sign is given).
    InvalidDigit,
    /// The value does not fit 32 bits.
    PosOverflow,
}

/// std's description of each parse error, as `ParseIntError` displays it.
pub open spec fn parse_error_text(e: IntParseError) -> Seq<char> {
    match e {
        IntParseError::Empty => "cannot parse integer from empty string"@,
        IntParseError::InvalidDigit => "invalid digit found in string"@,
        IntParseError::PosOverflow => "number too large to fit in target type"@,
    }
}

impl IntParseError {
    /// The text `ParseIntError` displays for this error.
    pub fn description(&self) -> (r: &'static str)
        ensures
            r@ == parse_error_text(*self),
    {
        match self {
            IntParseError::Empty => "cannot parse integer from empty string",
            IntParseError::InvalidDigit => "invalid digit found in string",
            IntParseError::PosOverflow => "number too large to fit in target type",
        }
    }
}

/// The value of the ASCII digit `c`.
pub open spec fn digit_value(c: char) -> nat {
    ((c as u32) - 48) as nat
}

/// Reading the digits `d[i..]` onto the value `acc` read so far: the first
/// character that is not a digit, or that would carry the value past
/// `u32::MAX`, stops the parse with that error.
pub open spec fn scan_digits(d: Seq<char>, i: nat, acc: nat) -> Result<u32, IntParseError>
    decreases d.len() - i,
{
    if i >= d.len() {
        Ok(acc as u32)
    } else if !is_ascii_digit(d[i as int]) {
        Err(IntParseError::InvalidDigit)
    } else if acc * 10 + digit_value(d[i as int]) > u32::MAX {
        Err(IntParseError::PosOverflow)
    } else {
        scan_digits(d, i + 1, acc * 10 + digit_value(d[i as int]))
    }
}

/// What `u32::from_str` gives for `s`: empty text is `Empty`, a lone sign an
/// invalid digit; otherwise a leading `+` is skipped and the digits are read
/// from left to right.
pub open spec fn u32_from_text(s: Seq<char>) -> Result<u32, IntParseError> {
    if s.len() == 0 {
        Err(IntParseError::Empty)
    } else if s.len() == 1 && (s[0] == '+' || s[0] == '-') {
        Err(IntParseError::InvalidDigit)
    } else if s[0] == '+' {
        scan_digits(s.drop_first(), 0, 0)
    } else {
        scan_digits(s, 0, 0)
    }
}

/// The parsed number, if `s` is one.
pub open spec fn parsed_u32(s: Seq<char>) -> Option<u32> {
    match u32_from_text(s) {
        Ok(v) => Some(v),
        Err(_) => None,
    }
}

/// Parse an unsigned 32-bit decimal number as `u32::from_str` does,
/// reporting why it fails.
pub fn parse_u32_checked(s: &str) -> (r: Result<u32, IntParseError>)
    ensures
        r == u32_from_text(s@),
{
    let n = s.unicode_len();
    if n == 0 {
        return Err(IntParseError::Empty);
    }
    let first = s.get_char(0);
    if n == 1 && (first == '+' || first == '-') {
        return Err(IntParseError::InvalidDigit);
    }
    let start: usize = if first == '+' {
        1
    } else {
        0
    };
    let ghost d = if first == '+' {
        s@.drop_first()
    } else {
        s@
    };
    assert(d =~= s@.subrange(start as int, n as int));
    let mut value: u32 = 0;
    let mut i: usize = start;
    while i < n
        invariant
            n == s@.len(),
            start <= i <= n,
            d == s@.subrange(start as int, n as int),
            u32_from_text(s@) == scan_digits(d, (i - start) as nat, value as nat),
        decreases n - i,
    {
        let c = s.get_char(i);
        assert(d[i - start] == c);
        if !('0' <= c && c <= '9') {
            return Err(IntParseError::InvalidDigit);
        }
        let digit: u32 = (c as u32) - 48;
        if value > 429_496_729 || (value == 429_496_729 && digit > 5) {
            return Err(IntParseError::PosOverflow);
        }
        value = value * 10 + digit;
        i = i + 1;
    }
    Ok(value)
}

/// Parse an unsigned 32-bit decimal number as `u32::from_str` does.
pub fn parse_u32(s: &str) -> (r: Option<u32>)
    ensures
        r == parsed_u32(s@),
{
    match parse_u32_checked(s) {
        Ok(v) => Some(v),
        Err(_) => None,
    }
}

/// The comma-separated fields of `t`, as `str::split(',')` gives them: one
/// more field than there are commas.
pub open spec fn comma_fields(t: Seq<char>) -> Seq<Seq<char>>
    decreases t.len(),
{
    if t.len() == 0 {
        seq![Seq::<char>::empty()]
    } else {
        let f = comma_fields(t.drop_last());
        if t.last() == ',' {
            f.push(Seq::<char>::empty())
        } else {
            f.update(f.len() - 1, f.last().push(t.last()))
        }
    }
}

proof fn lemma_comma_fields_nonempty(t: Seq<char>)
    ensures
        comma_fields(t).len() >= 1,
    decreases t.len(),
{
    if t.len() > 0 {
        lemma_comma_fields_nonempty(t.drop_last());
    }
}

/// Split a text at its commas.
pub fn split_commas(text: &str) -> (r: Vec<String>)
    ensures
        crate::order::texts(r@) == comma_fields(text@),
{
    let n = text.unicode_len();
    let mut fields: Vec<String> = Vec::new();
    let mut current = String::new();
    let mut i: usize = 0;
    assert(text@.subrange(0, 0) =~= Seq::<char>::empty());
    assert(crate::order::texts(fields@).push(current@) =~= comma_fields(Seq::<char>::empty()));
    while i < n
        invariant
            n == text@.len(),
            i <= n,
            crate::order::texts(fields@).push(current@) == comma_fields(text@.subrange(0, i as int)),
        decreases n - i,
    {
        let c = text.get_char(i);
        let ghost p = text@.subrange(0, i as int);
        let ghost q = text@.subrange(0, i + 1);
        assert(q.drop_last() =~= p);
        assert(q.last() == c);
        proof {
            lemma_comma_fields_nonempty(p);
        }
        let ghost before = crate::order::texts(fields@);
        if c == ',' {
            let done = current;
            fields.push(done);
            current = String::new();
            assert(crate::order::texts(fields@) =~= before.push(done@));
            assert(crate::order::texts(fields@).push(current@) =~= comma_fields(q));
        } else {
            let ghost cur = current@;
            push_char(&mut current, c);
            assert(crate::order::texts(fields@).push(current@) =~= before.push(cur).update(
                before.len() as int,
                before.push(cur).last().push(c),
            ));
        }
        i = i + 1;
    }
    assert(text@.subrange(0, n as int) =~= text@);
    let ghost before = crate::order::texts(fields@);
    let last = current;
    fields.push(last);
    assert(crate::order::texts(fields@) =~= before.push(last@));
    fields
}

/// The parsed number, or `default` when the field is not a number.
pub open spec fn parsed_or(s: Seq<char>, default: u32) -> u32 {
    match parsed_u32(s) {
        Some(v) => v,
        None => default,
    }
}

/// The frame size in ffprobe's `width,height` output: the first two
/// comma-separated fields of the trimmed text, each falling back to 640 and
/// 480 when it is not a number; `None` without a second field.
pub open spec fn probed_dimensions(text: Seq<char>) -> Option<(u32, u32)> {
    let parts = comma_fields(trim_ws(text));
    if parts.len() < 2 {
        None
    } else {
        Some((parsed_or(parts[0], 640), parsed_or(parts[1], 480)))
    }
}

/// Read the frame size from ffprobe's `width,height` output.
pub fn parse_probe_dimensions(text: &str) -> (r: Option<(u32, u32)>)
    ensures
        r == probed_dimensions(text@),
{
    let t = trim(text);
    let parts = split_commas(t.as_str());
    if parts.len() < 2 {
        return None;
    }
    assert(parts@[0]@ == comma_fields(trim_ws(text@))[0]);
    assert(parts@[1]@ == comma_fields(trim_ws(text@))[1]);
    let w = match parse_u32(parts[0].as_str()) {
        Some(v) => v,
        None => 640,
    };
    let h = match parse_u32(parts[1].as_str()) {
        Some(v) => v,
        None => 480,
    };
    Some((w, h))
}

/// What the video probe reads from ffprobe's
/// `width,height,r_frame_rate,nb_frames` line.
pub struct ProbeFields {
    pub width: u32,
    pub height: u32,
    /// The frame rate field as given (`30/1`, `29.97`).
    pub frame_rate: String,
    /// The frame count, when a fourth field holds a number; otherwise it is
    /// estimated from the duration.
    pub frame_count: Option<u32>,
}

/// The message for a probe line with fewer than three fields.
pub open spec fn probe_format_message(line: Seq<char>) -> Seq<char> {
    "Unexpected ffprobe output format: '"@ + line + "'"@
}

/// The message for a size field that is not a number.
pub open spec fn probe_field_message(which: Seq<char>, field: Seq<char>, e: IntParseError) -> Seq<char> {
    "Failed to parse video "@ + which + " '"@ + field + "': "@ + parse_error_text(e)
}

/// The error message for a probe line, if it is rejected: too few fields,
/// then an unreadable width, then an unreadable height.
pub open spec fn probe_line_error(line: Seq<char>) -> Option<Seq<char>> {
    let parts = comma_fields(line);
    if parts.len() < 3 {
        Some(probe_format_message(line))
    } else {
        match u32_from_text(parts[0]) {
            Err(e) => Some(probe_field_message("width"@, parts[0], e)),
            Ok(_) => match u32_from_text(parts[1]) {
                Err(e) => Some(probe_field_message("height"@, parts[1], e)),
                Ok(_) => None,
            },
        }
    }
}

/// The frame count a probe line gives: its fourth field, when there is one
/// that is not `N/A` and holds a number.
pub open spec fn probed_frame_count(parts: Seq<Seq<char>>) -> Option<u32> {
    if parts.len() > 3 && parts[3] != "N/A"@ {
        parsed_u32(parts[3])
    } else {
        None
    }
}

fn field_message(which: &str, field: &str, e: IntParseError) -> (r: String)
    ensures
        r@ == probe_field_message(which@, field@, e),
{
    let mut m = String::from_str("Failed to parse video ");
    m.append(which);
    m.append(" '");
    m.append(field);
    m.append("': ");
    m.append(e.description());
    m
}

/// Read ffprobe's `width,height,r_frame_rate,nb_frames` output: the trimmed
/// line must have at least three comma-separated fields, the first two
/// unsigned numbers.
pub fn parse_probe_fields(output: &str) -> (r: Result<ProbeFields, AppError>)
    ensures
        r is Ok <==> probe_line_error(trim_ws(output@)) is None,
        r matches Err(e) ==> e matches AppError::Ffmpeg(m) && Some(m@) == probe_line_error(
            trim_ws(output@),
        ),
        r matches Ok(f) ==> {
            let parts = comma_fields(trim_ws(output@));
            &&& u32_from_text(parts[0]) == Ok::<u32, IntParseError>(f.width)
            &&& u32_from_text(parts[1]) == Ok::<u32, IntParseError>(f.height)
            &&& f.frame_rate@ == parts[2]
            &&& f.frame_count == probed_frame_count(parts)
        },
{
    let line = trim(output);
    let parts = split_commas(line.as_str());
    if parts.len() < 3 {
        let mut m = String::from_str("Unexpected ffprobe output format: '");
        m.append(line.as_str());
        m.append("'");
        return Err(AppError::Ffmpeg(m));
    }
    assert(parts@[0]@ == comma_fields(line@)[0]);
    assert(parts@[1]@ == comma_fields(line@)[1]);
    assert(parts@[2]@ == comma_fields(line@)[2]);
    let width = match parse_u32_checked(parts[0].as_str()) {
        Ok(v) => v,
        Err(e) => {
            return Err(AppError::Ffmpeg(field_message("width", parts[0].as_str(), e)));
        },
    };
    let height = match parse_u32_checked(parts[1].as_str()) {
        Ok(v) => v,
        Err(e) => {
            return Err(AppError::Ffmpeg(field_message("height", parts[1].as_str(), e)));
        },
    };
    let frame_count = if parts.len() > 3 && !str_equals(parts[3].as_str(), "N/A") {
        assert(parts@[3]@ == comma_fields(line@)[3]);
        parse_u32(parts[3].as_str())
    } else {
        None
    };
    Ok(ProbeFields { width, height, frame_rate: parts[2].clone(), frame_count })
}

/// The first raw frame in the decoder's output: its first `width × height × 4`
/// bytes, or `None` when the output is shorter.
pub fn first_raw_frame(output: &[u8], width: u32, height: u32) -> (r: Option<Vec<u8>>)
    requires
        width * height * 4 <= u32::MAX,
    ensures
        r is Some <==> output@.len() >= width * height * 4,
        r matches Some(f) ==> f@ == output@.subrange(0, width * height * 4),
{
    assert(width * height <= width * height * 4) by (nonlinear_arith);
    let expected: usize = (width * height * 4) as usize;
    if output.len() >= expected {
        let mut frame: Vec<u8> = Vec::new();
        let mut i: usize = 0;
        while i < expected
            invariant
                expected <= output@.len(),
                i <= expected,
                frame@ == output@.subrange(0, i as int),
            decreases expected - i,
        {
            frame.push(output[i]);
            i = i + 1;
            assert(frame@ =~= output@.subrange(0, i as int));
        }
        Some(frame)
    } else {
        None
    }
}

} // verus!
