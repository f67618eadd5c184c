//! Shape layers: choosing the shape files, preparing each image (resampling,
//! grayscale conversion) and the budget check for the shape texture array.

use crate::error::AppError;
use crate::paths::{file_extension, path_extension};
use crate::io::output::{resize_triangle, resize_triangle16, triangle_resized, triangle_resized16};
use crate::order::{sort_by_keys, sorted_by_keys, texts};
use crate::text::{ascii_case_eq, eq_ignore_ascii_case};
use crate::types::{Rgba16Frame, RgbaFrame, ShapeLayer};
use vstd::arithmetic::div_mod::lemma_div_multiples_vanish;
use vstd::prelude::*;

verus! {

/// Bytes in one mebibyte.
pub open spec fn mib() -> nat {
    1024 * 1024
}

/// Bytes occupied by `num_layers` RGBA8 shape layers of `res × res` pixels.
pub open spec fn texture_array_bytes(res: nat, num_layers: nat) -> nat {
    res * res * 4 * num_layers
}

/// `n` bytes in mebibytes, rounded up.
pub open spec fn ceil_mib(n: nat) -> nat {
    ((n + mib() - 1) as nat) / mib()
}

/// Check if the texture array fits within the VRAM budget.
/// Returns `Ok(())` if within budget (equal counts as within), or
/// `AppError::VramBudget` with the requirement rounded up to whole megabytes.
pub fn check_vram_budget(shape_resolution: u32, num_layers: u32, vram_budget_mb: u32) -> (r: Result<(), AppError>)
    requires
        shape_resolution * shape_resolution * 4 <= u64::MAX,
        texture_array_bytes(shape_resolution as nat, num_layers as nat) <= u64::MAX,
        texture_array_bytes(shape_resolution as nat, num_layers as nat) > vram_budget_mb * mib()
            ==> texture_array_bytes(shape_resolution as nat, num_layers as nat) + mib() <= u64::MAX,
    ensures
        r is Ok <==> texture_array_bytes(shape_resolution as nat, num_layers as nat) <= vram_budget_mb * mib(),
        r matches Err(e) ==> e == (AppError::VramBudget {
            required_mb: (ceil_mib(texture_array_bytes(shape_resolution as nat, num_layers as nat)) % 0x1_0000_0000) as u32,
            budget_mb: vram_budget_mb,
        }),
{
    let res = shape_resolution as u64;
    let layers = num_layers as u64;
    let ghost total_n = texture_array_bytes(shape_resolution as nat, num_layers as nat);
    assert(res * res <= res * res * 4) by (nonlinear_arith);
    assert(res * res * 4 * layers == total_n);
    let total_bytes: u64 = res * res * 4 * layers;
    let budget_bytes: u64 = (vram_budget_mb as u64) * 1024 * 1024;
    assert(total_bytes == total_n);
    assert(budget_bytes == vram_budget_mb * mib()) by (nonlinear_arith)
        requires
            budget_bytes == (vram_budget_mb as u64) * 1024 * 1024,
            mib() == 1048576,
    ;
    if total_bytes > budget_bytes {
        let required: u64 = (total_bytes + 1024 * 1024 - 1) / (1024 * 1024);
        let required_mb: u32 = (required % 0x1_0000_0000) as u32;
        return Err(AppError::VramBudget { required_mb, budget_mb: vram_budget_mb });
    }
    Ok(())
}

/// Rec. 709 luminance `round(0.2126 × R + 0.7152 × G + 0.0722 × B)`, with
/// halves rounded up.
pub open spec fn luminance(r: u8, g: u8, b: u8) -> u8 {
    ((2126 * r + 7152 * g + 722 * b + 5000) / 10000) as u8
}

/// `out` is the grayscale-with-alpha form of the RGBA8 bytes `src`: one
/// pixel per whole pixel of `src`, each `[L, L, L, A]` with `L` the
/// luminance of the source pixel and `A` its alpha.
pub open spec fn gray_alpha_of(src: Seq<u8>, out: Seq<u8>) -> bool {
    &&& out.len() == src.len() / 4 * 4
    &&& forall|k: int|
        0 <= k < src.len() / 4 ==> {
            &&& #[trigger] out[4 * k] == luminance(src[4 * k], src[4 * k + 1], src[4 * k + 2])
            &&& out[4 * k + 1] == out[4 * k]
            &&& out[4 * k + 2] == out[4 * k]
            &&& out[4 * k + 3] == src[4 * k + 3]
        }
}

fn luminance_of(r: u8, g: u8, b: u8) -> (l: u8)
    ensures
        l == luminance(r, g, b),
{
    let sum: u32 = 2126 * (r as u32) + 7152 * (g as u32) + 722 * (b as u32) + 5000;
    (sum / 10000) as u8
}

/// Convert RGBA8 bytes to grayscale with preserved alpha: every pixel
/// becomes `[L, L, L, A]`, `L = round(0.2126 × R + 0.7152 × G + 0.0722 × B)`.
pub fn convert_to_grayscale_alpha(rgba: &Vec<u8>) -> (out: Vec<u8>)
    ensures
        gray_alpha_of(rgba@, out@),
{
    let pixel_count = rgba.len() / 4;
    let mut out: Vec<u8> = Vec::new();
    let mut k: usize = 0;
    while k < pixel_count
        invariant
            pixel_count == rgba@.len() / 4,
            rgba@.len() <= usize::MAX,
            k <= pixel_count,
            out@.len() == 4 * k,
            forall|j: int|
                0 <= j < k ==> {
                    &&& #[trigger] out@[4 * j] == luminance(rgba@[4 * j], rgba@[4 * j + 1], rgba@[4 * j + 2])
                    &&& out@[4 * j + 1] == out@[4 * j]
                    &&& out@[4 * j + 2] == out@[4 * j]
                    &&& out@[4 * j + 3] == rgba@[4 * j + 3]
                },
        decreases pixel_count - k,
    {
        let i = 4 * k;
        let l = luminance_of(rgba[i], rgba[i + 1], rgba[i + 2]);
        let a = rgba[i + 3];
        let ghost before = out@;
        out.push(l);
        out.push(l);
        out.push(l);
        out.push(a);
        assert forall|j: int| 0 <= j < k + 1 implies {
            &&& #[trigger] out@[4 * j] == luminance(rgba@[4 * j], rgba@[4 * j + 1], rgba@[4 * j + 2])
            &&& out@[4 * j + 1] == out@[4 * j]
            &&& out@[4 * j + 2] == out@[4 * j]
            &&& out@[4 * j + 3] == rgba@[4 * j + 3]
        } by {
            if j < k {
                assert(out@[4 * j] == before[4 * j]);
                assert(out@[4 * j + 1] == before[4 * j + 1]);
                assert(out@[4 * j + 2] == before[4 * j + 2]);
                assert(out@[4 * j + 3] == before[4 * j + 3]);
            }
        }
        k = k + 1;
    }
    out
}

/// A gray pixel keeps its value: the weights sum to one.
pub proof fn lemma_luminance_of_gray(v: u8)
    ensures
        luminance(v, v, v) == v,
{
}

/// Converting an already converted layer changes nothing.
pub proof fn lemma_grayscale_idempotent(src: Seq<u8>, once: Seq<u8>, twice: Seq<u8>)
    requires
        gray_alpha_of(src, once),
        gray_alpha_of(once, twice),
    ensures
        twice == once,
{
    assert(once.len() % 4 == 0);
    assert(once.len() / 4 == src.len() / 4);
    assert forall|i: int| 0 <= i < once.len() implies twice[i] == once[i] by {
        let k = i / 4;
        assert(0 <= k < once.len() / 4);
        assert(i == 4 * k || i == 4 * k + 1 || i == 4 * k + 2 || i == 4 * k + 3);
        lemma_luminance_of_gray(once[4 * k]);
        assert(twice[4 * k] == luminance(once[4 * k], once[4 * k + 1], once[4 * k + 2]));
    }
    assert(twice =~= once);
}

/// A decoded shape image, at the channel depth it was stored with: 8 bits,
/// or 16 bits (16-bit PNGs), which is resampled at its own depth and only
/// then narrowed to 8 bits.
#[derive(Debug)]
pub enum ShapeImage {
    Rgba8(RgbaFrame),
    Rgba16(Rgba16Frame),
}

/// The width of a shape image in pixels.
pub open spec fn shape_width(img: ShapeImage) -> nat {
    match img {
        ShapeImage::Rgba8(f) => f.w(),
        ShapeImage::Rgba16(f) => f.w(),
    }
}

/// A 16-bit channel value narrowed to 8 bits as the image crate does it:
/// `round(c * 255 / 65535)`, computed as `(c + 128) / 257`.
pub open spec fn narrow_sample(c: u16) -> u8 {
    ((c as nat + 128) / 257) as u8
}

/// Every sample of `s` narrowed to 8 bits.
pub open spec fn narrowed(s: Seq<u16>) -> Seq<u8> {
    s.map_values(|c: u16| narrow_sample(c))
}

/// Narrow RGBA16 samples to RGBA8, sample by sample.
fn narrow_to_8bit(samples: &Vec<u16>) -> (r: Vec<u8>)
    ensures
        r@ == narrowed(samples@),
{
    let mut out: Vec<u8> = Vec::new();
    let mut i: usize = 0;
    while i < samples.len()
        invariant
            i <= samples@.len(),
            out@ =~= narrowed(samples@).subrange(0, i as int),
        decreases samples@.len() - i,
    {
        let c: u32 = samples[i] as u32;
        let v: u32 = (c + 128) / 257;
        assert(v <= 255);
        out.push(v as u8);
        i = i + 1;
    }
    out
}

/// The RGBA8 pixels of `img` resampled to `shape_resolution ×
/// shape_resolution` with the triangle filter, at the image's own depth.
pub open spec fn resampled_rgba8(img: ShapeImage, shape_resolution: u32) -> Seq<u8> {
    match img {
        ShapeImage::Rgba8(f) => triangle_resized(
            f.data(),
            f.w() as u32,
            f.h() as u32,
            shape_resolution,
            shape_resolution,
        ),
        ShapeImage::Rgba16(f) => narrowed(
            triangle_resized16(f.data(), f.w() as u32, f.h() as u32, shape_resolution, shape_resolution),
        ),
    }
}

/// Prepare one shape image as a texture layer: resample it to
/// `shape_resolution × shape_resolution` with the triangle (bilinear)
/// filter at its own channel depth, take it to 8 bits per channel, then
/// convert it to grayscale with preserved alpha, unless its original colors
/// are kept.
pub fn preprocess_shape(img: ShapeImage, shape_resolution: u32, preserve_color: bool) -> (r: ShapeLayer)
    requires
        shape_resolution * shape_resolution * 4 <= usize::MAX,
        shape_width(img) * shape_resolution * 4 <= usize::MAX,
    ensures
        r.pixels@.len() == 4 * shape_resolution * shape_resolution,
        preserve_color ==> r.pixels@ == resampled_rgba8(img, shape_resolution),
        !preserve_color ==> gray_alpha_of(resampled_rgba8(img, shape_resolution), r.pixels@),
{
    let ghost original = img;
    let resized: Vec<u8> = match img {
        ShapeImage::Rgba8(f) => {
            proof {
                use_type_invariant(&f);
            }
            let w = f.width();
            let h = f.height();
            resize_triangle(f.into_raw(), w, h, shape_resolution, shape_resolution)
        },
        ShapeImage::Rgba16(f) => {
            proof {
                use_type_invariant(&f);
            }
            let w = f.width();
            let h = f.height();
            let wide = resize_triangle16(f.into_raw(), w, h, shape_resolution, shape_resolution);
            narrow_to_8bit(&wide)
        },
    };
    assert(resized@ == resampled_rgba8(original, shape_resolution));
    assert(resized@.len() == 4 * shape_resolution * shape_resolution) by (nonlinear_arith)
        requires
            resized@.len() == shape_resolution * shape_resolution * 4,
    ;
    proof {
        let m: int = shape_resolution * shape_resolution;
        assert(resized@.len() == 4 * m) by (nonlinear_arith)
            requires
                resized@.len() == 4 * shape_resolution * shape_resolution,
                m == shape_resolution * shape_resolution,
        ;
        lemma_div_multiples_vanish(m, 4);
    }
    if preserve_color {
        ShapeLayer { pixels: resized }
    } else {
        ShapeLayer { pixels: convert_to_grayscale_alpha(&resized) }
    }
}


// ---------------------------------------------------------------------------
// Loading the shape folder
// ---------------------------------------------------------------------------

/// Maximum number of shape files that can be loaded.
pub const MAX_SHAPES: usize = 256;

/// A file name with the extension `png`, in any ASCII letter case.
pub open spec fn png_name(name: Seq<char>) -> bool {
    match path_extension(name) {
        Some(e) => ascii_case_eq(e, "png"@),
        None => false,
    }
}

/// The PNG names among `names`, in their order.
pub open spec fn png_names(names: Seq<Seq<char>>) -> Seq<Seq<char>>
    decreases names.len(),
{
    if names.len() == 0 {
        Seq::<Seq<char>>::empty()
    } else if png_name(names.last()) {
        png_names(names.drop_last()).push(names.last())
    } else {
        png_names(names.drop_last())
    }
}

/// `s` cut to its first `MAX_SHAPES` entries.
pub open spec fn at_most_max_shapes(s: Seq<Seq<char>>) -> Seq<Seq<char>> {
    if s.len() > MAX_SHAPES {
        s.subrange(0, MAX_SHAPES as int)
    } else {
        s
    }
}

/// The shape files that are loaded from a folder holding `names`: the PNG
/// files in alphabetical order, at most `MAX_SHAPES` of them.
pub open spec fn selected_shape_files(names: Seq<Seq<char>>, selected: Seq<Seq<char>>) -> bool {
    exists|sorted: Seq<Seq<char>>|
        sorted_by_keys(png_names(names), png_names(names), sorted) && selected
            == at_most_max_shapes(sorted)
}

fn is_png_name(name: &str) -> (r: bool)
    ensures
        r == png_name(name@),
{
    proof {
        reveal_strlit("png");
    }
    match file_extension(name) {
        Some(e) => eq_ignore_ascii_case(e.as_str(), "png"),
        None => false,
    }
}

/// Choose the shape files among the names of a folder's entries: the PNG
/// files (extension in any case), sorted alphabetically, the first 256.
pub fn select_shape_files(file_names: &Vec<String>) -> (r: Vec<String>)
    ensures
        selected_shape_files(texts(file_names@), texts(r@)),
{
    let mut pngs: Vec<String> = Vec::new();
    let mut i: usize = 0;
    while i < file_names.len()
        invariant
            i <= file_names@.len(),
            texts(pngs@) == png_names(texts(file_names@).subrange(0, i as int)),
        decreases file_names@.len() - i,
    {
        let ghost prefix = texts(file_names@).subrange(0, i as int);
        let ghost next = texts(file_names@).subrange(0, i + 1);
        assert(next.drop_last() =~= prefix);
        assert(next.last() == file_names@[i as int]@);
        if is_png_name(file_names[i].as_str()) {
            let ghost before = texts(pngs@);
            pngs.push(file_names[i].clone());
            assert(texts(pngs@) =~= before.push(file_names@[i as int]@));
        }
        i = i + 1;
    }
    assert(texts(file_names@).subrange(0, i as int) =~= texts(file_names@));
    let mut sorted = sort_by_keys(&pngs, &pngs);
    let ghost full = texts(sorted@);
    sorted.truncate(MAX_SHAPES);
    assert(texts(sorted@) =~= at_most_max_shapes(full));
    sorted
}

/// Keep at most `max_layers` shape layers (the number of texture-array
/// layers the GPU offers), dropping those past the limit. Returns whether
/// any were dropped.
pub fn keep_first_layers(layers: &mut Vec<ShapeLayer>, max_layers: usize) -> (dropped: bool)
    ensures
        dropped == (old(layers)@.len() > max_layers),
        final(layers)@ == (if old(layers)@.len() > max_layers {
            old(layers)@.subrange(0, max_layers as int)
        } else {
            old(layers)@
        }),
{
    if layers.len() > max_layers {
        layers.truncate(max_layers);
        true
    } else {
        false
    }
}

/// The images that decoded, in order.
pub open spec fn decoded_frames(decoded: Seq<Option<ShapeImage>>) -> Seq<ShapeImage>
    decreases decoded.len(),
{
    if decoded.len() == 0 {
        Seq::<ShapeImage>::empty()
    } else {
        match decoded.last() {
            Some(f) => decoded_frames(decoded.drop_last()).push(f),
            None => decoded_frames(decoded.drop_last()),
        }
    }
}

/// `layer` is the texture layer prepared from `img`: four bytes for each of
/// the `shape_resolution × shape_resolution` pixels, resampled and, unless
/// colors are kept, converted to grayscale with alpha.
pub open spec fn layer_of(img: ShapeImage, layer: ShapeLayer, shape_resolution: u32, preserve_color: bool) -> bool {
    let resized = resampled_rgba8(img, shape_resolution);
    &&& layer.pixels@.len() == 4 * shape_resolution * shape_resolution
    &&& if preserve_color {
        layer.pixels@ == resized
    } else {
        gray_alpha_of(resized, layer.pixels@)
    }
}

/// Prepare the shape layers from the selected files of the shape folder
/// `folder`, each given as its decoded image (`None` where the file could not
/// be decoded; such files are skipped). Fails with `NoShapes` when no image
/// is left.
pub fn load_and_preprocess(
    folder: &str,
    decoded: Vec<Option<ShapeImage>>,
    shape_resolution: u32,
    preserve_color: bool,
) -> (r: Result<Vec<ShapeLayer>, AppError>)
    requires
        shape_resolution * shape_resolution * 4 <= usize::MAX,
        forall|i: int|
            0 <= i < decoded@.len() ==> (#[trigger] decoded@[i] matches Some(f) ==> shape_width(f)
                * shape_resolution * 4 <= usize::MAX),
    ensures
        r is Err <==> decoded_frames(decoded@).len() == 0,
        r matches Err(e) ==> e matches AppError::NoShapes { path } && path@ == folder@,
        r matches Ok(layers) ==> {
            &&& layers@.len() == decoded_frames(decoded@).len()
            &&& forall|k: int|
                0 <= k < layers@.len() ==> layer_of(
                    #[trigger] decoded_frames(decoded@)[k],
                    layers@[k],
                    shape_resolution,
                    preserve_color,
                )
        },
{
    let count = decoded.len();
    let ghost all = decoded@;
    assert(all.len() == count);
    let mut layers: Vec<ShapeLayer> = Vec::new();
    let mut rest = decoded;
    let mut taken: usize = 0;
    while rest.len() > 0
        invariant
            rest@ == all.subrange(taken as int, all.len() as int),
            all.len() <= usize::MAX,
            taken <= all.len(),
            shape_resolution * shape_resolution * 4 <= usize::MAX,
            forall|i: int|
                0 <= i < all.len() ==> (#[trigger] all[i] matches Some(f) ==> shape_width(f)
                    * shape_resolution * 4 <= usize::MAX),
            layers@.len() == decoded_frames(all.subrange(0, taken as int)).len(),
            forall|k: int|
                0 <= k < layers@.len() ==> layer_of(
                    #[trigger] decoded_frames(all.subrange(0, taken as int))[k],
                    layers@[k],
                    shape_resolution,
                    preserve_color,
                ),
        decreases all.len() - taken,
    {
        let ghost prefix = all.subrange(0, taken as int);
        let ghost next = all.subrange(0, taken + 1);
        assert(next.drop_last() =~= prefix);
        assert(next.last() == all[taken as int]);
        let entry = rest.remove(0);
        assert(entry == all[taken as int]);
        match entry {
            Some(img) => {
                let layer = preprocess_shape(img, shape_resolution, preserve_color);
                layers.push(layer);
                assert forall|k: int| 0 <= k < layers@.len() implies layer_of(
                    #[trigger] decoded_frames(next)[k],
                    layers@[k],
                    shape_resolution,
                    preserve_color,
                ) by {
                    if k < layers@.len() - 1 {
                        assert(decoded_frames(next)[k] == decoded_frames(prefix)[k]);
                    }
                }
            },
            None => {
                assert(decoded_frames(next) == decoded_frames(prefix));
            },
        }
        taken = taken + 1;
    }
    assert(taken == all.len());
    assert(all.subrange(0, taken as int) =~= all);
    if layers.len() == 0 {
        return Err(AppError::NoShapes { path: String::from_str(folder) });
    }
    Ok(layers)
}
} // verus!
