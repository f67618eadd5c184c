//! Output naming (results, snapshots, the video frame sequence, progress GIFs)
//! and the row layout of canvas readback buffers.

use crate::order::texts;
use crate::paths::{file_stem, path_file_stem, text_of};
use crate::text::{
    decimal, is_ascii_digit, lemma_decimal_digits, lemma_zero_padded_digits, push_char,
    push_zero_padded, zero_padded,
};
use crate::types::RgbaFrame;
use vstd::arithmetic::power2::{lemma2_to64, lemma_pow2_pos, pow2};
use vstd::bits::{lemma_u32_low_bits_mask_is_mod, low_bits_mask};
use vstd::prelude::*;
use vstd::string::*;

verus! {

// ---------------------------------------------------------------------------
// Path stems
// ---------------------------------------------------------------------------

/// The stem of `p`, or `fallback` when it has none.
pub open spec fn stem_or(p: Seq<char>, fallback: Seq<char>) -> Seq<char> {
    match path_file_stem(p) {
        Some(stem) => stem,
        None => fallback,
    }
}

/// The stem of `path` followed by `suffix`, or `fallback` and `suffix`.
fn stem_with_suffix(path: &str, fallback: &str, suffix: &str) -> (r: String)
    ensures
        r@ == stem_or(path@, fallback@) + suffix@,
{
    let found = file_stem(path);
    assert(text_of(found) == path_file_stem(path@));
    let stem = match found {
        Some(s) => s,
        None => String::from_str(fallback),
    };
    stem.concat(suffix)
}

/// Generate the completion filename: `{source_stem}_result.png`, falling back
/// to `output_result.png` when the stem cannot be determined.
pub fn completion_filename(source_path: &str) -> (r: String)
    ensures
        r@ == stem_or(source_path@, "output"@) + "_result.png"@,
{
    stem_with_suffix(source_path, "output", "_result.png")
}

/// Generate the progress-GIF filename: `{source_stem}_process.gif`, falling
/// back to `output_process.gif`.
pub fn process_gif_filename(source_path: &str) -> (r: String)
    ensures
        r@ == stem_or(source_path@, "output"@) + "_process.gif"@,
{
    stem_with_suffix(source_path, "output", "_process.gif")
}

/// The rendered video's filename: `{source_stem}_result.mp4`, falling back to
/// `video_result.mp4`.
pub fn video_result_filename(source_path: &str) -> (r: String)
    ensures
        r@ == stem_or(source_path@, "video"@) + "_result.mp4"@,
{
    stem_with_suffix(source_path, "video", "_result.mp4")
}

// ---------------------------------------------------------------------------
// Frame sequence
// ---------------------------------------------------------------------------

/// `frame_` followed by at least one ASCII digit and `.png`.
pub open spec fn frame_sequence_name(name: Seq<char>) -> bool {
    &&& name.len() >= 11
    &&& name.subrange(0, 6) == "frame_"@
    &&& name.subrange(name.len() - 4, name.len() as int) == ".png"@
    &&& forall|i: int| 6 <= i < name.len() - 4 ==> is_ascii_digit(#[trigger] name[i])
}

/// The name of output frame `index`: `frame_` + at least five digits + `.png`.
pub open spec fn frame_name(index: nat) -> Seq<char> {
    "frame_"@ + zero_padded(decimal(index), 5) + ".png"@
}

/// `s` holds exactly `lit` starting at `start`.
fn matches_at(s: &str, start: usize, lit: &str) -> (r: bool)
    requires
        start + lit@.len() <= s@.len() <= usize::MAX,
    ensures
        r == (s@.subrange(start as int, start + lit@.len()) == lit@),
{
    let n = lit.unicode_len();
    let mut i: usize = 0;
    while i < n
        invariant
            n == lit@.len(),
            start + n <= s@.len() <= usize::MAX,
            0 <= i <= n,
            forall|k: int| 0 <= k < i ==> s@[start + k] == lit@[k],
        decreases n - i,
    {
        if s.get_char(start + i) != lit.get_char(i) {
            assert(s@.subrange(start as int, start + n)[i as int] != lit@[i as int]);
            return false;
        }
        i = i + 1;
    }
    assert(s@.subrange(start as int, start + n) =~= lit@);
    true
}

/// True if `name` matches the `frame_<digits>.png` output-sequence pattern
/// (e.g. `frame_00042.png`).
pub fn is_frame_sequence_name(name: &str) -> (r: bool)
    ensures
        r == frame_sequence_name(name@),
{
    proof {
        reveal_strlit("frame_");
        reveal_strlit(".png");
    }
    let n = name.unicode_len();
    if n < 11 {
        return false;
    }
    if !matches_at(name, 0, "frame_") {
        return false;
    }
    if !matches_at(name, n - 4, ".png") {
        return false;
    }
    let mut i: usize = 6;
    while i < n - 4
        invariant
            n == name@.len(),
            n >= 11,
            6 <= i <= n - 4,
            forall|k: int| 6 <= k < i ==> is_ascii_digit(#[trigger] name@[k]),
        decreases n - 4 - i,
    {
        let c = name.get_char(i);
        if !('0' <= c && c <= '9') {
            return false;
        }
        i = i + 1;
    }
    true
}

/// The names among `names` that belong to an output frame sequence, in
/// their order.
pub open spec fn frame_sequence_names(names: Seq<Seq<char>>) -> Seq<Seq<char>>
    decreases names.len(),
{
    if names.len() == 0 {
        Seq::<Seq<char>>::empty()
    } else if frame_sequence_name(names.last()) {
        frame_sequence_names(names.drop_last()).push(names.last())
    } else {
        frame_sequence_names(names.drop_last())
    }
}

/// A name is kept by `frame_sequence_names` exactly when it is among `names`
/// and is a frame-sequence name.
pub proof fn lemma_frame_sequence_names_members(names: Seq<Seq<char>>, x: Seq<char>)
    ensures
        frame_sequence_names(names).contains(x) <==> (names.contains(x) && frame_sequence_name(x)),
    decreases names.len(),
{
    if names.len() > 0 {
        let rest = names.drop_last();
        lemma_frame_sequence_names_members(rest, x);
        assert(names =~= rest.push(names.last()));
        if names.contains(x) && x != names.last() {
            let k = choose|k: int| 0 <= k < names.len() && names[k] == x;
            assert(rest[k] == x);
        }
        if rest.contains(x) {
            let k = choose|k: int| 0 <= k < rest.len() && rest[k] == x;
            assert(names[k] == x);
        }
        if frame_sequence_name(names.last()) {
            let kept = frame_sequence_names(rest);
            assert(kept.push(names.last())[kept.len() as int] == names.last());
            if kept.contains(x) {
                let k = choose|k: int| 0 <= k < kept.len() && kept[k] == x;
                assert(kept.push(names.last())[k] == x);
            }
            if kept.push(names.last()).contains(x) && x != names.last() {
                let k = choose|k: int| 0 <= k < kept.len() + 1 && kept.push(names.last())[k] == x;
                assert(kept[k] == x);
            }
        }
    }
}

/// Among the names of an output folder's files, those of a leftover frame
/// sequence (`frame_<digits>.png`), in their order: the files a new video
/// run removes first. `*_result.*` and `snapshot_*.png` are never among them.
pub fn stale_frame_files(file_names: &Vec<String>) -> (r: Vec<String>)
    ensures
        texts(r@) == frame_sequence_names(texts(file_names@)),
        forall|k: int| 0 <= k < r@.len() ==> frame_sequence_name(#[trigger] r@[k]@),
        forall|k: int|
            0 <= k < file_names@.len() ==> (frame_sequence_name(#[trigger] file_names@[k]@)
                <==> texts(r@).contains(file_names@[k]@)),
{
    let mut found: Vec<String> = Vec::new();
    let mut i: usize = 0;
    while i < file_names.len()
        invariant
            i <= file_names@.len(),
            texts(found@) == frame_sequence_names(texts(file_names@).subrange(0, i as int)),
        decreases file_names@.len() - i,
    {
        let ghost prefix = texts(file_names@).subrange(0, i as int);
        let ghost next = texts(file_names@).subrange(0, i + 1);
        assert(next.drop_last() =~= prefix);
        assert(next.last() == file_names@[i as int]@);
        if is_frame_sequence_name(file_names[i].as_str()) {
            let ghost before = texts(found@);
            found.push(file_names[i].clone());
            assert(texts(found@) =~= before.push(file_names@[i as int]@));
        }
        i = i + 1;
    }
    assert(texts(file_names@).subrange(0, i as int) =~= texts(file_names@));
    proof {
        let all = texts(file_names@);
        assert forall|k: int| 0 <= k < found@.len() implies frame_sequence_name(
            #[trigger] found@[k]@,
        ) by {
            assert(texts(found@)[k] == found@[k]@);
            lemma_frame_sequence_names_members(all, found@[k]@);
        }
        assert forall|k: int| 0 <= k < file_names@.len() implies (frame_sequence_name(
            #[trigger] file_names@[k]@,
        ) <==> texts(found@).contains(file_names@[k]@)) by {
            assert(all[k] == file_names@[k]@);
            lemma_frame_sequence_names_members(all, file_names@[k]@);
        }
    }
    found
}

/// The filename of output frame `index` (`frame_{:05}.png`).
pub fn frame_filename(index: u32) -> (r: String)
    ensures
        r@ == frame_name(index as nat),
        frame_sequence_name(r@),
{
    proof {
        reveal_strlit("frame_");
        reveal_strlit(".png");
    }
    let mut s = String::from_str("frame_");
    push_zero_padded(&mut s, index as u64, 5);
    s.append(".png");
    proof {
        let digits = zero_padded(decimal(index as nat), 5);
        lemma_decimal_digits(index as nat);
        lemma_zero_padded_digits(decimal(index as nat), 5);
        assert(s@ == "frame_"@ + digits + ".png"@);
        let name = s@;
        assert(name.subrange(0, 6) =~= "frame_"@);
        assert(name.subrange(name.len() - 4, name.len() as int) =~= ".png"@);
        assert forall|i: int| 6 <= i < name.len() - 4 implies is_ascii_digit(#[trigger] name[i]) by {
            assert(name[i] == digits[i - 6]);
        }
    }
    s
}

/// Every name the frame sequence writes is recognised as part of it, so a
/// cleanup of leftover frames removes all frames of an earlier run.
pub proof fn lemma_frame_names_are_sequence_names(index: nat)
    ensures
        frame_sequence_name(frame_name(index)),
{
    let digits = zero_padded(decimal(index), 5);
    lemma_decimal_digits(index);
    lemma_zero_padded_digits(decimal(index), 5);
    let name = frame_name(index);
    assert("frame_"@.len() == 6) by {
        reveal_strlit("frame_");
    }
    assert(".png"@.len() == 4) by {
        reveal_strlit(".png");
    }
    assert(name.subrange(0, 6) =~= "frame_"@);
    assert(name.subrange(name.len() - 4, name.len() as int) =~= ".png"@);
    assert forall|i: int| 6 <= i < name.len() - 4 implies is_ascii_digit(#[trigger] name[i]) by {
        assert(name[i] == digits[i - 6]);
    }
}

/// Distinct frame indices give distinct frame names, so no frame of a run
/// overwrites another.
pub proof fn lemma_frame_names_distinct(a: nat, b: nat)
    requires
        a != b,
    ensures
        frame_name(a) != frame_name(b),
{
    lemma_decimal_injective_padded(a, b);
    if frame_name(a) == frame_name(b) {
        let da = zero_padded(decimal(a), 5);
        let db = zero_padded(decimal(b), 5);
        assert("frame_"@.len() == 6) by {
            reveal_strlit("frame_");
        }
        assert(".png"@.len() == 4) by {
            reveal_strlit(".png");
        }
        assert(frame_name(a).len() == 10 + da.len());
        assert(frame_name(b).len() == 10 + db.len());
        assert(da.len() == db.len());
        assert(da =~= frame_name(a).subrange(6, 6 + da.len() as int));
        assert(db =~= frame_name(b).subrange(6, 6 + db.len() as int));
    }
}

/// The numeric value of a string of ASCII digits.
pub open spec fn digits_value(s: Seq<char>) -> nat
    decreases s.len(),
{
    if s.len() == 0 {
        0
    } else {
        digits_value(s.drop_last()) * 10 + ((s.last() as nat) - 48) as nat
    }
}

proof fn lemma_decimal_value(n: nat)
    ensures
        digits_value(decimal(n)) == n,
    decreases n,
{
    if n >= 10 {
        lemma_decimal_value(n / 10);
        assert(decimal(n).drop_last() =~= decimal(n / 10));
        assert(decimal(n).last() as nat == 48 + n % 10);
        assert(digits_value(decimal(n)) == digits_value(decimal(n / 10)) * 10 + n % 10);
    } else {
        assert(decimal(n).last() as nat == 48 + n);
        assert(decimal(n).drop_last() =~= Seq::<char>::empty());
        assert(digits_value(Seq::<char>::empty()) == 0);
        assert(digits_value(decimal(n)) == digits_value(decimal(n).drop_last()) * 10 + n);
    }
}

proof fn lemma_leading_zeros_value(k: nat, s: Seq<char>)
    ensures
        digits_value(Seq::new(k, |i: int| '0') + s) == digits_value(s),
    decreases s.len(), k,
{
    if s.len() > 0 {
        let t = Seq::new(k, |i: int| '0') + s;
        assert(t.drop_last() =~= Seq::new(k, |i: int| '0') + s.drop_last());
        lemma_leading_zeros_value(k, s.drop_last());
    } else if k > 0 {
        let t = Seq::new(k, |i: int| '0');
        assert((Seq::new(k, |i: int| '0') + s) =~= t);
        assert(t.drop_last() =~= Seq::new((k - 1) as nat, |i: int| '0') + s);
        lemma_leading_zeros_value((k - 1) as nat, s);
    } else {
        assert((Seq::new(k, |i: int| '0') + s) =~= s);
    }
}

proof fn lemma_decimal_injective_padded(a: nat, b: nat)
    requires
        a != b,
    ensures
        zero_padded(decimal(a), 5) != zero_padded(decimal(b), 5),
{
    lemma_decimal_value(a);
    lemma_decimal_value(b);
    let da = decimal(a);
    let db = decimal(b);
    if da.len() < 5 {
        lemma_leading_zeros_value((5 - da.len()) as nat, da);
    }
    if db.len() < 5 {
        lemma_leading_zeros_value((5 - db.len()) as nat, db);
    }
}

// ---------------------------------------------------------------------------
// Snapshot names
// ---------------------------------------------------------------------------

/// A local wall-clock reading, field by field.
pub struct ClockReading {
    pub year: i32,
    pub month: u32,
    pub day: u32,
    pub hour: u32,
    pub minute: u32,
    pub second: u32,
    pub nanosecond: u32,
}

/// The ranges a local clock reading lies in, field by field (a leap second
/// shows as a nanosecond count of at least one billion).
pub open spec fn clock_reading_valid(c: ClockReading) -> bool {
    &&& 1 <= c.month <= 12
    &&& 1 <= c.day <= 31
    &&& c.hour <= 23
    &&& c.minute <= 59
    &&& c.second <= 59
    &&& c.nanosecond < 2_000_000_000
}

/// A year as `%Y` writes it: four digits, zero-padded, for years 0 through
/// 9999; otherwise a sign followed by at least four digits.
pub open spec fn year_text(year: int) -> Seq<char> {
    if 0 <= year <= 9999 {
        zero_padded(decimal(year as nat), 4)
    } else if year > 9999 {
        seq!['+'] + zero_padded(decimal(year as nat), 4)
    } else {
        seq!['-'] + zero_padded(decimal((-year) as nat), 4)
    }
}

/// Two zero-padded digits, as `%m`, `%d`, `%H`, `%M` and `%S` write them.
pub open spec fn two_digits(n: nat) -> Seq<char> {
    zero_padded(decimal(n), 2)
}

/// The second as `%S` writes it: 60 during a leap second.
pub open spec fn shown_second(c: ClockReading) -> nat {
    c.second as nat + c.nanosecond as nat / 1_000_000_000
}

/// `snapshot_{YYYYMMDD_HHMMSS}.png` for the given reading.
pub open spec fn snapshot_name(c: ClockReading) -> Seq<char> {
    "snapshot_"@ + year_text(c.year as int) + two_digits(c.month as nat) + two_digits(
        c.day as nat,
    ) + "_"@ + two_digits(c.hour as nat) + two_digits(c.minute as nat) + two_digits(
        shown_second(c),
    ) + ".png"@
}

/// Generate the snapshot filename `snapshot_{YYYYMMDD_HHMMSS}.png` for a
/// local wall-clock reading (the caller reads the clock).
pub fn snapshot_filename(c: &ClockReading) -> (r: String)
    requires
        clock_reading_valid(*c),
    ensures
        r@ == snapshot_name(*c),
{
    let mut s = String::from_str("snapshot_");
    if 0 <= c.year && c.year <= 9999 {
        push_zero_padded(&mut s, c.year as u64, 4);
    } else if c.year > 9999 {
        push_char(&mut s, '+');
        push_zero_padded(&mut s, c.year as u64, 4);
    } else {
        push_char(&mut s, '-');
        let magnitude: u64 = (0 - (c.year as i64)) as u64;
        push_zero_padded(&mut s, magnitude, 4);
    }
    push_zero_padded(&mut s, c.month as u64, 2);
    push_zero_padded(&mut s, c.day as u64, 2);
    s.append("_");
    push_zero_padded(&mut s, c.hour as u64, 2);
    push_zero_padded(&mut s, c.minute as u64, 2);
    let second: u64 = c.second as u64 + (c.nanosecond / 1_000_000_000) as u64;
    push_zero_padded(&mut s, second, 2);
    s.append(".png");
    assert(s@ =~= snapshot_name(*c));
    s
}

// ---------------------------------------------------------------------------
// Downscaling
// ---------------------------------------------------------------------------

/// The RGBA8 bytes the image crate's triangle-filter resize produces from the
/// `width × height` image `pixels` at the new size.
pub uninterp spec fn triangle_resized(
    pixels: Seq<u8>,
    width: u32,
    height: u32,
    new_width: u32,
    new_height: u32,
) -> Seq<u8>;

/// `image::imageops::resize` with the triangle filter, applied to an RGBA8
/// buffer. The result is the named resample of the input and holds exactly
/// `new_width × new_height` pixels. The resize allocates a `width ×
/// new_height` intermediate image of four channels when the source is not
/// empty, so that size must fit as well.
#[verifier::external_body]
pub(crate) fn resize_triangle(pixels: Vec<u8>, width: u32, height: u32, new_width: u32, new_height: u32) -> (r: Vec<u8>)
    requires
        pixels@.len() == width * height * 4,
        new_width * new_height * 4 <= usize::MAX,
        width > 0 && height > 0 ==> width * new_height * 4 <= usize::MAX,
    ensures
        r@ == triangle_resized(pixels@, width, height, new_width, new_height),
        r@.len() == new_width * new_height * 4,
{
    let img = image::RgbaImage::from_raw(width, height, pixels).unwrap();
    image::imageops::resize(&img, new_width, new_height, image::imageops::FilterType::Triangle)
        .into_raw()
}

/// The RGBA16 samples the image crate's triangle-filter resize produces from
/// the `width × height` image `samples` at the new size (the same resize as
/// `triangle_resized`, instantiated for 16-bit channels).
pub uninterp spec fn triangle_resized16(
    samples: Seq<u16>,
    width: u32,
    height: u32,
    new_width: u32,
    new_height: u32,
) -> Seq<u16>;

/// `image::imageops::resize` with the triangle filter, applied to an RGBA16
/// buffer. The result is the named resample of the input and holds exactly
/// `new_width × new_height` pixels. As for 8-bit buffers, the `width ×
/// new_height` intermediate image must fit as well.
#[verifier::external_body]
pub(crate) fn resize_triangle16(
    samples: Vec<u16>,
    width: u32,
    height: u32,
    new_width: u32,
    new_height: u32,
) -> (r: Vec<u16>)
    requires
        samples@.len() == width * height * 4,
        new_width * new_height * 4 <= usize::MAX,
        width > 0 && height > 0 ==> width * new_height * 4 <= usize::MAX,
    ensures
        r@ == triangle_resized16(samples@, width, height, new_width, new_height),
        r@.len() == new_width * new_height * 4,
{
    let img = image::ImageBuffer::<image::Rgba<u16>, Vec<u16>>::from_raw(width, height, samples).unwrap();
    image::imageops::resize(&img, new_width, new_height, image::imageops::FilterType::Triangle)
        .into_raw()
}

/// The height a `width × height` image gets when scaled to `max_width`
/// columns: proportional, rounded down, at least one row.
pub open spec fn scaled_height(width: nat, height: nat, max_width: nat) -> nat {
    let h = height * max_width / width;
    if h == 0 {
        1
    } else {
        h
    }
}

/// Scaling a `width × height` image down to `max_width` columns keeps its
/// aspect ratio up to rounding down: the new height `h` is the largest with
/// `h * width <= height * max_width`, except that it is one row when that
/// would be zero.
pub proof fn lemma_scaled_height_keeps_aspect(width: nat, height: nat, max_width: nat)
    requires
        width > max_width > 0,
    ensures
        ({
            let h = scaled_height(width, height, max_width);
            ||| h * width <= height * max_width < (h + 1) * width
            ||| h == 1 && height * max_width < width
        }),
{
    let p = (height * max_width) as int;
    let q = p / (width as int);
    vstd::arithmetic::div_mod::lemma_fundamental_div_mod(p, width as int);
    vstd::arithmetic::div_mod::lemma_mod_bound(p, width as int);
    assert(q * width <= p < (q + 1) * width) by (nonlinear_arith)
        requires
            p == (width as int) * q + p % (width as int),
            0 <= p % (width as int) < width,
    ;
}

/// Downscale an image so its width does not exceed `max_width`, preserving
/// aspect ratio (triangle filter). Returns the image unchanged if it already
/// fits or if `max_width` is zero.
pub fn downscale_to_width(img: RgbaFrame, max_width: u32) -> (r: RgbaFrame)
    requires
        img.h() == 0 && img.w() > max_width > 0 ==> max_width * 4 <= usize::MAX,
    ensures
        img.w() <= max_width || max_width == 0 ==> r == img,
        !(img.w() <= max_width || max_width == 0) ==> {
            &&& r.w() == max_width
            &&& r.h() == scaled_height(img.w(), img.h(), max_width as nat)
            &&& r.h() <= img.h() || img.h() == 0
            &&& (r.h() * img.w() <= img.h() * max_width < (r.h() + 1) * img.w() || (r.h() == 1
                && img.h() * max_width < img.w()))
            &&& r.data() == triangle_resized(
                img.data(),
                img.w() as u32,
                img.h() as u32,
                max_width,
                r.h() as u32,
            )
        },
{
    proof {
        use_type_invariant(&img);
    }
    let width = img.width();
    let height = img.height();
    let byte_count = img.pixels().len();
    if width <= max_width || max_width == 0 {
        return img;
    }
    let ghost (w, h, m) = (width as nat, height as nat, max_width as nat);
    proof {
        lemma_scaled_height_keeps_aspect(w, h, m);
    }
    assert(h * m <= 0xffff_ffff * 0xffff_ffff) by (nonlinear_arith)
        requires
            h <= 0xffff_ffff,
            m <= 0xffff_ffff,
    ;
    assert(h * m / w <= h) by (nonlinear_arith)
        requires
            m < w,
            w > 0,
    ;
    let scaled: u64 = (height as u64) * (max_width as u64) / (width as u64);
    let new_h: u32 = if scaled == 0 {
        1
    } else {
        scaled as u32
    };
    assert(m * (new_h as nat) * 4 <= w * h * 4 || h == 0) by (nonlinear_arith)
        requires
            m < w,
            new_h <= h || (h == 0 && new_h == 1),
    ;
    assert((max_width as nat) * (new_h as nat) * 4 <= usize::MAX) by {
        assert(byte_count == w * h * 4);
    }
    assert(h > 0 ==> w * (new_h as nat) * 4 <= w * h * 4) by (nonlinear_arith)
        requires
            h > 0 ==> new_h <= h,
    ;
    assert(h > 0 ==> w * (new_h as nat) * 4 <= usize::MAX) by {
        assert(byte_count == w * h * 4);
    }
    let pixels = img.into_raw();
    let out = resize_triangle(pixels, width, height, max_width, new_h);
    RgbaFrame::from_raw(max_width, new_h, out).unwrap()
}

// ---------------------------------------------------------------------------
// Readback layout
// ---------------------------------------------------------------------------

/// `a` is a power of two.
pub open spec fn is_power_of_two(a: u32) -> bool {
    exists|n: nat| n < 32 && a as nat == pow2(n)
}

proof fn lemma_mask_is_floor(x: u32, a: u32)
    requires
        is_power_of_two(a),
    ensures
        a >= 1,
        x & !((a - 1) as u32) == x - x % a,
{
    let n = choose|n: nat| n < 32 && a as nat == pow2(n);
    lemma_pow2_pos(n);
    lemma_u32_low_bits_mask_is_mod(x, n);
    let m: u32 = (a - 1) as u32;
    assert(low_bits_mask(n) as u32 == m);
    assert(x & !m == x - (x & m)) by (bit_vector);
}

/// Align a value up to the given alignment (a power of two): the smallest
/// multiple of `alignment` that is at least `value`.
pub fn align_to(value: u32, alignment: u32) -> (r: u32)
    requires
        is_power_of_two(alignment),
        value + alignment - 1 <= u32::MAX,
    ensures
        r % alignment == 0,
        value <= r < value + alignment,
{
    proof {
        lemma_mask_is_floor(0, alignment);
    }
    let x: u32 = value + (alignment - 1);
    proof {
        lemma_mask_is_floor(x, alignment);
        vstd::arithmetic::div_mod::lemma_fundamental_div_mod(x as int, alignment as int);
        vstd::arithmetic::div_mod::lemma_mod_bound(x as int, alignment as int);
        vstd::arithmetic::div_mod::lemma_mod_multiples_basic(x as int / alignment as int, alignment as int);
    }
    x & !(alignment - 1)
}

/// Bytes per row in a canvas readback buffer: `width` RGBA8 pixels padded to
/// the 256-byte row alignment the GPU requires for texture copies.
pub fn padded_bytes_per_row(width: u32) -> (r: u32)
    requires
        width * 4 + 255 <= u32::MAX,
    ensures
        r % 256 == 0,
        width * 4 <= r < width * 4 + 256,
{
    assert(is_power_of_two(256)) by {
        lemma2_to64();
        assert(256 == pow2(8));
    }
    align_to(width * 4, 256)
}

/// Pixel rows copied out of a padded readback buffer: row `row` of the result
/// is the first `row_bytes` bytes of row `row` of `data`.
pub open spec fn unpadded_rows(data: Seq<u8>, row_bytes: nat, stride: nat, rows: nat) -> Seq<u8> {
    Seq::new(rows * row_bytes, |k: int| data[(k / row_bytes as int) * stride + k % row_bytes as int])
}

/// Remove the per-row padding of a readback buffer, keeping the first
/// `row_bytes` bytes of each of the `rows` rows laid out every `stride` bytes.
pub fn strip_row_padding(data: &[u8], row_bytes: usize, stride: usize, rows: usize) -> (r: Vec<u8>)
    requires
        row_bytes <= stride,
        rows * stride <= data@.len(),
        rows * row_bytes <= usize::MAX,
    ensures
        r@ == unpadded_rows(data@, row_bytes as nat, stride as nat, rows as nat),
{
    let data_len = data.len();
    let mut out: Vec<u8> = Vec::new();
    let mut row: usize = 0;
    while row < rows
        invariant
            row_bytes <= stride,
            rows * stride <= data@.len(),
            data_len == data@.len(),
            rows * row_bytes <= usize::MAX,
            row <= rows,
            out@.len() == row * row_bytes,
            forall|k: int|
                0 <= k < out@.len() ==> #[trigger] out@[k] == data@[(k / row_bytes as int) * stride
                    + k % row_bytes as int],
        decreases rows - row,
    {
        assert(row * stride + stride <= rows * stride) by (nonlinear_arith)
            requires
                row < rows,
        ;
        assert((row + 1) * row_bytes <= rows * row_bytes) by (nonlinear_arith)
            requires
                row < rows,
        ;
        let start = row * stride;
        let mut i: usize = 0;
        while i < row_bytes
            invariant
                row_bytes <= stride,
                rows * stride <= data@.len(),
                data_len == data@.len(),
                start == row * stride,
                start + stride <= data@.len(),
                (row + 1) * row_bytes <= usize::MAX,
                i <= row_bytes,
                out@.len() == row * row_bytes + i,
                forall|k: int|
                    0 <= k < out@.len() ==> #[trigger] out@[k] == data@[(k / row_bytes as int)
                        * stride + k % row_bytes as int],
            decreases row_bytes - i,
        {
            let ghost k = out@.len() as int;
            out.push(data[start + i]);
            proof {
                assert(k == row * row_bytes + i);
                vstd::arithmetic::div_mod::lemma_fundamental_div_mod_converse(
                    k,
                    row_bytes as int,
                    row as int,
                    i as int,
                );
                assert(out@[k] == data@[(k / row_bytes as int) * stride + k % row_bytes as int]);
            }
            i = i + 1;
            assert((row * row_bytes + i) == row * row_bytes + i);
        }
        row = row + 1;
        assert(out@.len() == row * row_bytes) by (nonlinear_arith)
            requires
                out@.len() == (row - 1) * row_bytes + row_bytes,
        ;
    }
    assert(out@ =~= unpadded_rows(data@, row_bytes as nat, stride as nat, rows as nat));
    out
}

} // verus!
