//! Recognising supported media by extension, choosing and listing the input
//! files, and loading the target frame from what was read.

use crate::error::AppError;
use crate::io::video::{first_raw_frame, parse_probe_dimensions, probed_dimensions};
use crate::order::{
    lemma_lex_irreflexive, lemma_lex_total, lemma_lex_transitive, lex_less, lex_lt, sort_by_keys,
    sorted_by_keys, texts,
};
use crate::paths::{file_extension, path_extension};
use crate::text::{ascii_case_eq, ascii_lower, is_ascii_char, str_equals, to_lowercase, unicode_lowercase};
use crate::types::RgbaFrame;
use vstd::prelude::*;
use vstd::string::*;

verus! {

/// Supported image extensions (lowercase): the formats decoded through the
/// `image` crate (PNG, JPEG, WebP, BMP, GIF, TIFF, TGA, ICO, QOI and the PNM
/// family).
pub open spec fn image_extension(e: Seq<char>) -> bool {
    ||| e == "png"@
    ||| e == "jpg"@
    ||| e == "jpeg"@
    ||| e == "webp"@
    ||| e == "bmp"@
    ||| e == "gif"@
    ||| e == "tif"@
    ||| e == "tiff"@
    ||| e == "tga"@
    ||| e == "ico"@
    ||| e == "qoi"@
    ||| e == "pnm"@
    ||| e == "pbm"@
    ||| e == "pgm"@
    ||| e == "ppm"@
    ||| e == "pam"@
}

/// Supported video extensions (lowercase): the containers handed to FFmpeg.
pub open spec fn video_extension(e: Seq<char>) -> bool {
    ||| e == "mp4"@
    ||| e == "mov"@
    ||| e == "mkv"@
    ||| e == "avi"@
    ||| e == "webm"@
    ||| e == "wmv"@
    ||| e == "m4v"@
    ||| e == "mpg"@
    ||| e == "mpeg"@
    ||| e == "ts"@
    ||| e == "3gp"@
    ||| e == "ogv"@
}

/// An extension of a supported image or video, in any letter case.
pub open spec fn supported_extension(ext: Seq<char>) -> bool {
    image_extension(unicode_lowercase(ext)) || video_extension(unicode_lowercase(ext))
}

/// Extensions are matched without regard to letter case: two ASCII
/// extensions that differ only in the case of their letters are both
/// supported or both not, and are of the same kind.
pub proof fn lemma_extension_case_insensitive(e1: Seq<char>, e2: Seq<char>)
    requires
        ascii_case_eq(e1, e2),
        forall|i: int| 0 <= i < e1.len() ==> is_ascii_char(#[trigger] e1[i]),
        forall|i: int| 0 <= i < e2.len() ==> is_ascii_char(#[trigger] e2[i]),
    ensures
        unicode_lowercase(e1) == unicode_lowercase(e2),
        supported_extension(e1) == supported_extension(e2),
        image_extension(unicode_lowercase(e1)) == image_extension(unicode_lowercase(e2)),
{
    assert(unicode_lowercase(e1) =~= e1.map_values(|c: char| ascii_lower(c)));
    assert(unicode_lowercase(e2) =~= e2.map_values(|c: char| ascii_lower(c)));
    assert(unicode_lowercase(e1) =~= unicode_lowercase(e2));
}

/// The lowercased extensions taken as video are exactly the twelve
/// containers FFmpeg is handed: mp4, mov, mkv, avi, webm, wmv, m4v, mpg,
/// mpeg, ts, 3gp and ogv.
pub proof fn lemma_video_extensions_are_the_containers(e: Seq<char>)
    ensures
        video_extension(e) <==> set![
            "mp4"@,
            "mov"@,
            "mkv"@,
            "avi"@,
            "webm"@,
            "wmv"@,
            "m4v"@,
            "mpg"@,
            "mpeg"@,
            "ts"@,
            "3gp"@,
            "ogv"@,
        ].contains(e),
{
}

/// The lowercased extensions taken as images are exactly those the image
/// decoder is built for: png, jpg, jpeg, webp, bmp, gif, tif, tiff, tga,
/// ico, qoi, pnm, pbm, pgm, ppm and pam.
pub proof fn lemma_image_extensions_are_the_decoded_formats(e: Seq<char>)
    ensures
        image_extension(e) <==> set![
            "png"@,
            "jpg"@,
            "jpeg"@,
            "webp"@,
            "bmp"@,
            "gif"@,
            "tif"@,
            "tiff"@,
            "tga"@,
            "ico"@,
            "qoi"@,
            "pnm"@,
            "pbm"@,
            "pgm"@,
            "ppm"@,
            "pam"@,
        ].contains(e),
{
}

/// Audio files are not media: a path whose extension is wav, mp3, flac, m4a,
/// aac, ogg or opus (in any ASCII case) is neither a video nor an image.
pub proof fn lemma_audio_files_are_unsupported(p: Seq<char>)
    requires
        set!["wav"@, "mp3"@, "flac"@, "m4a"@, "aac"@, "ogg"@, "opus"@].contains(
            lowercase_extension(p),
        ),
    ensures
        media_kind(p) == MediaKind::Unsupported,
{
    reveal_strlit("wav");
    reveal_strlit("mp3");
    reveal_strlit("flac");
    reveal_strlit("m4a");
    reveal_strlit("aac");
    reveal_strlit("ogg");
    reveal_strlit("opus");
    reveal_strlit("mp4");
    reveal_strlit("mov");
    reveal_strlit("mkv");
    reveal_strlit("avi");
    reveal_strlit("webm");
    reveal_strlit("wmv");
    reveal_strlit("m4v");
    reveal_strlit("mpg");
    reveal_strlit("mpeg");
    reveal_strlit("ts");
    reveal_strlit("3gp");
    reveal_strlit("ogv");
    reveal_strlit("png");
    reveal_strlit("jpg");
    reveal_strlit("jpeg");
    reveal_strlit("webp");
    reveal_strlit("bmp");
    reveal_strlit("gif");
    reveal_strlit("tif");
    reveal_strlit("tiff");
    reveal_strlit("tga");
    reveal_strlit("ico");
    reveal_strlit("qoi");
    reveal_strlit("pnm");
    reveal_strlit("pbm");
    reveal_strlit("pgm");
    reveal_strlit("ppm");
    reveal_strlit("pam");
    let e = lowercase_extension(p);
    // Each audio extension differs from every media extension in its length
    // or in one of its first three letters.
    assert(e.len() >= 3 && (e.len() == 3 || e.len() == 4));
    assert(e[0] == 'w' || e[0] == 'm' || e[0] == 'f' || e[0] == 'a' || e[0] == 'o');
    assert(!video_extension(e) && !image_extension(e)) by {
        if e.len() == 3 {
            let (c0, c1, c2) = (e[0], e[1], e[2]);
            assert(e =~= seq![c0, c1, c2]);
        } else {
            let (c0, c1, c2, c3) = (e[0], e[1], e[2], e[3]);
            assert(e =~= seq![c0, c1, c2, c3]);
        }
    }
}

/// Checks if an extension (already lowercased) is a supported image format.
pub fn is_supported_image_extension(ext: &str) -> (r: bool)
    ensures
        r == image_extension(ext@),
{
    str_equals(ext, "png") || str_equals(ext, "jpg") || str_equals(ext, "jpeg") || str_equals(
        ext,
        "webp",
    ) || str_equals(ext, "bmp") || str_equals(ext, "gif") || str_equals(ext, "tif") || str_equals(
        ext,
        "tiff",
    ) || str_equals(ext, "tga") || str_equals(ext, "ico") || str_equals(ext, "qoi") || str_equals(
        ext,
        "pnm",
    ) || str_equals(ext, "pbm") || str_equals(ext, "pgm") || str_equals(ext, "ppm") || str_equals(
        ext,
        "pam",
    )
}

/// Checks if an extension (already lowercased) is a supported video format.
pub fn is_supported_video_extension(ext: &str) -> (r: bool)
    ensures
        r == video_extension(ext@),
{
    str_equals(ext, "mp4") || str_equals(ext, "mov") || str_equals(ext, "mkv") || str_equals(
        ext,
        "avi",
    ) || str_equals(ext, "webm") || str_equals(ext, "wmv") || str_equals(ext, "m4v") || str_equals(
        ext,
        "mpg",
    ) || str_equals(ext, "mpeg") || str_equals(ext, "ts") || str_equals(ext, "3gp") || str_equals(
        ext,
        "ogv",
    )
}

/// Checks if an extension (case-insensitive) is any supported format (image or video).
pub fn is_supported_extension(ext: &str) -> (r: bool)
    ensures
        r == supported_extension(ext@),
{
    let lower = to_lowercase(ext);
    is_supported_image_extension(lower.as_str()) || is_supported_video_extension(lower.as_str())
}

/// How a media file is processed, decided by its extension.
#[derive(Clone, Copy, Debug, PartialEq, Eq, Structural)]
pub enum MediaKind {
    /// Decoded as a still image.
    Image,
    /// Decoded frame by frame with FFmpeg.
    Video,
    /// Not a supported format.
    Unsupported,
}

/// The lowercased extension of `p`, empty when it has none.
pub open spec fn lowercase_extension(p: Seq<char>) -> Seq<char> {
    match path_extension(p) {
        Some(e) => unicode_lowercase(e),
        None => Seq::<char>::empty(),
    }
}

/// The kind a path's extension selects: video extensions first, then images.
pub open spec fn media_kind(p: Seq<char>) -> MediaKind {
    if video_extension(lowercase_extension(p)) {
        MediaKind::Video
    } else if image_extension(lowercase_extension(p)) {
        MediaKind::Image
    } else {
        MediaKind::Unsupported
    }
}

/// The lowercased extension of `path` ("" when it has none).
fn lowercase_extension_of(path: &str) -> (r: String)
    ensures
        r@ == lowercase_extension(path@),
{
    match file_extension(path) {
        Some(e) => to_lowercase(e.as_str()),
        None => String::new(),
    }
}

/// Classify a media path by its (case-insensitive) extension: a video
/// container extension selects video, an image extension an image, anything
/// else is unsupported.
pub fn classify_media(path: &str) -> (r: MediaKind)
    ensures
        r == media_kind(path@),
{
    let ext = lowercase_extension_of(path);
    if is_supported_video_extension(ext.as_str()) {
        MediaKind::Video
    } else if is_supported_image_extension(ext.as_str()) {
        MediaKind::Image
    } else {
        MediaKind::Unsupported
    }
}

/// Whether the path names a video (by its case-insensitive extension).
pub fn is_video_path(path: &str) -> (r: bool)
    ensures
        r == (media_kind(path@) == MediaKind::Video),
{
    let ext = lowercase_extension_of(path);
    is_supported_video_extension(ext.as_str())
}

// ---------------------------------------------------------------------------
// Choosing the input file
// ---------------------------------------------------------------------------

/// The key by which input files are ordered: the lowercased name.
pub open spec fn name_key(name: Seq<char>) -> Seq<char> {
    unicode_lowercase(name)
}

/// Whether the file name `name` has a supported media extension.
pub open spec fn supported_name(name: Seq<char>) -> bool {
    match path_extension(name) {
        Some(e) => supported_extension(e),
        None => false,
    }
}

/// Whether `i` is where a case-insensitive alphabetical order of the
/// supported names would start: a supported name with no supported name
/// ordered before it, and the earliest of those with an equal key.
pub open spec fn first_in_order(names: Seq<String>, i: int) -> bool {
    &&& 0 <= i < names.len()
    &&& supported_name(names[i]@)
    &&& forall|j: int|
        0 <= j < names.len() && supported_name(#[trigger] names[j]@) ==> {
            &&& !lex_lt(name_key(names[j]@), name_key(names[i]@))
            &&& (name_key(names[j]@) == name_key(names[i]@) ==> i <= j)
        }
}

fn is_supported_name(name: &str) -> (r: bool)
    ensures
        r == supported_name(name@),
{
    match file_extension(name) {
        Some(e) => is_supported_extension(e.as_str()),
        None => false,
    }
}

/// Among file names (in directory order), the index of the alphabetically
/// first (case-insensitive) one with a supported image or video extension;
/// the earliest wins among names that compare equal. `None` when no name is
/// supported.
pub fn first_supported_file(names: &Vec<String>) -> (r: Option<usize>)
    ensures
        r is None <==> forall|j: int| 0 <= j < names@.len() ==> !supported_name(#[trigger] names@[j]@),
        r matches Some(i) ==> first_in_order(names@, i as int),
{
    let mut best: Option<usize> = None;
    let mut best_key = String::new();
    let mut k: usize = 0;
    while k < names.len()
        invariant
            k <= names@.len(),
            best is None <==> forall|j: int| 0 <= j < k ==> !supported_name(#[trigger] names@[j]@),
            best matches Some(b) ==> {
                &&& b < k
                &&& best_key@ == name_key(names@[b as int]@)
                &&& first_in_order(names@.subrange(0, k as int), b as int)
            },
        decreases names@.len() - k,
    {
        let name = names[k].as_str();
        let ghost prefix = names@.subrange(0, k as int);
        let ghost next = names@.subrange(0, k + 1);
        assert forall|j: int| 0 <= j < k implies next[j] == prefix[j] by {}
        assert(next[k as int] == names@[k as int]);
        if is_supported_name(name) {
            let key = to_lowercase(name);
            match best {
                None => {
                    best = Some(k);
                    best_key = key;
                    proof {
                        lemma_lex_irreflexive(name_key(names@[k as int]@));
                        assert forall|j: int|
                            0 <= j < next.len() && supported_name(#[trigger] next[j]@) implies j == k by {
                            if j < k {
                                assert(!supported_name(names@[j]@));
                            }
                        }
                    }
                },
                Some(b) => {
                    if lex_less(key.as_str(), best_key.as_str()) {
                        proof {
                            let kb = name_key(names@[b as int]@);
                            let kk = name_key(names@[k as int]@);
                            lemma_lex_irreflexive(kk);
                            assert forall|j: int|
                                0 <= j < next.len() && supported_name(#[trigger] next[j]@) implies {
                                &&& !lex_lt(name_key(next[j]@), kk)
                                &&& (name_key(next[j]@) == kk ==> k <= j)
                            } by {
                                if j < k {
                                    assert(prefix[j] == next[j]);
                                    assert(!lex_lt(name_key(next[j]@), kb));
                                    if lex_lt(name_key(next[j]@), kk) {
                                        lemma_lex_transitive(name_key(next[j]@), kk, kb);
                                    }
                                    if name_key(next[j]@) == kk {
                                        assert(lex_lt(name_key(next[j]@), kb));
                                    }
                                }
                            }
                        }
                        best = Some(k);
                        best_key = key;
                    } else {
                        proof {
                            let kb = name_key(names@[b as int]@);
                            assert forall|j: int|
                                0 <= j < next.len() && supported_name(#[trigger] next[j]@) implies {
                                &&& !lex_lt(name_key(next[j]@), kb)
                                &&& (name_key(next[j]@) == kb ==> b <= j)
                            } by {
                                if j < k {
                                    assert(prefix[j] == next[j]);
                                }
                            }
                        }
                    }
                },
            }
        } else {
            proof {
                if let Some(b) = best {
                    let kb = name_key(names@[b as int]@);
                    assert forall|j: int|
                        0 <= j < next.len() && supported_name(#[trigger] next[j]@) implies {
                        &&& !lex_lt(name_key(next[j]@), kb)
                        &&& (name_key(next[j]@) == kb ==> b <= j)
                    } by {
                        if j < k {
                            assert(prefix[j] == next[j]);
                        }
                    }
                }
            }
        }
        k = k + 1;
    }
    proof {
        assert(names@.subrange(0, k as int) =~= names@);
    }
    best
}

/// The supported names among `names`, in their order.
pub open spec fn supported_names(names: Seq<Seq<char>>) -> Seq<Seq<char>>
    decreases names.len(),
{
    if names.len() == 0 {
        Seq::<Seq<char>>::empty()
    } else if supported_name(names.last()) {
        supported_names(names.drop_last()).push(names.last())
    } else {
        supported_names(names.drop_last())
    }
}

/// The media files offered for selection among the file names of the input
/// folder: those with a supported extension, sorted case-insensitively
/// (names with equal lowercase forms keep their order).
pub fn list_media_files(file_names: &Vec<String>) -> (r: Vec<String>)
    ensures
        sorted_by_keys(
            supported_names(texts(file_names@)),
            supported_names(texts(file_names@)).map_values(|n: Seq<char>| name_key(n)),
            texts(r@),
        ),
{
    let mut files: Vec<String> = Vec::new();
    let mut keys: Vec<String> = Vec::new();
    let mut i: usize = 0;
    while i < file_names.len()
        invariant
            i <= file_names@.len(),
            texts(files@) == supported_names(texts(file_names@).subrange(0, i as int)),
            texts(keys@) == texts(files@).map_values(|n: Seq<char>| name_key(n)),
        decreases file_names@.len() - i,
    {
        let ghost prefix = texts(file_names@).subrange(0, i as int);
        let ghost next = texts(file_names@).subrange(0, i + 1);
        assert(next.drop_last() =~= prefix);
        assert(next.last() == file_names@[i as int]@);
        if is_supported_name(file_names[i].as_str()) {
            let ghost before_files = texts(files@);
            let ghost before_keys = texts(keys@);
            let key = to_lowercase(file_names[i].as_str());
            files.push(file_names[i].clone());
            keys.push(key);
            assert(texts(files@) =~= before_files.push(file_names@[i as int]@));
            assert(texts(keys@) =~= before_keys.push(key@));
            assert(texts(keys@) =~= texts(files@).map_values(|n: Seq<char>| name_key(n)));
        }
        i = i + 1;
    }
    assert(texts(file_names@).subrange(0, i as int) =~= texts(file_names@));
    sort_by_keys(&files, &keys)
}

// ---------------------------------------------------------------------------
// Loading the generation target
// ---------------------------------------------------------------------------

/// What was read for a generation target.
pub enum TargetSource {
    /// A decoded still image.
    Image(RgbaFrame),
    /// A video whose first frame FFmpeg decoded to raw RGBA bytes, with the
    /// `width,height` report of ffprobe.
    VideoRaw { path: String, decoder_output: Vec<u8>, probe_output: String },
    /// A video whose raw decode gave nothing: its first frame as saved to an
    /// image file and decoded, if that worked.
    VideoFallback { path: String, frame: Option<RgbaFrame> },
}

/// Whether the raw frame size of a video source fits the 32-bit byte count
/// the loader computes.
pub open spec fn target_source_in_range(source: TargetSource) -> bool {
    match source {
        TargetSource::VideoRaw { probe_output, .. } => match probed_dimensions(probe_output@) {
            Some((w, h)) => w * h * 4 <= u32::MAX,
            None => true,
        },
        _ => true,
    }
}

/// The target `(pixels, (width, height), is_video)` a source gives, or
/// `None` when the media cannot be used.
pub open spec fn target_of(source: TargetSource) -> Option<(Seq<u8>, (nat, nat), bool)> {
    match source {
        TargetSource::Image(f) => Some((f.data(), (f.w(), f.h()), false)),
        TargetSource::VideoRaw { decoder_output, probe_output, .. } => match probed_dimensions(
            probe_output@,
        ) {
            Some((w, h)) => if decoder_output@.len() >= w * h * 4 {
                Some((decoder_output@.subrange(0, w * h * 4), (w as nat, h as nat), true))
            } else {
                None
            },
            None => None,
        },
        TargetSource::VideoFallback { frame, .. } => match frame {
            Some(f) => Some((f.data(), (f.w(), f.h()), true)),
            None => None,
        },
    }
}

/// The path of the media behind a source (empty for an image).
pub open spec fn source_path(source: TargetSource) -> Seq<char> {
    match source {
        TargetSource::Image(_) => Seq::<char>::empty(),
        TargetSource::VideoRaw { path, .. } => path@,
        TargetSource::VideoFallback { path, .. } => path@,
    }
}

/// Load a target frame for generation: a decoded image as it is, or the
/// first frame of a video, cut from the decoder output at the size ffprobe
/// reported. Returns `(rgba_pixels, (width, height), is_video)`.
pub fn load_target(source: TargetSource) -> (r: Result<(Vec<u8>, (u32, u32), bool), AppError>)
    requires
        target_source_in_range(source),
    ensures
        r is Ok <==> target_of(source) is Some,
        r matches Ok((p, (w, h), v)) ==> target_of(source) == Some((p@, (w as nat, h as nat), v)),
        r matches Err(e) ==> e matches AppError::NoMedia { path } && path@ == source_path(source),
{
    match source {
        TargetSource::Image(f) => {
            let w = f.width();
            let h = f.height();
            Ok((f.into_raw(), (w, h), false))
        },
        TargetSource::VideoRaw { path, decoder_output, probe_output } => {
            match parse_probe_dimensions(probe_output.as_str()) {
                Some((w, h)) => match first_raw_frame(decoder_output.as_slice(), w, h) {
                    Some(frame) => Ok((frame, (w, h), true)),
                    None => Err(AppError::NoMedia { path }),
                },
                None => Err(AppError::NoMedia { path }),
            }
        },
        TargetSource::VideoFallback { path, frame } => match frame {
            Some(f) => {
                let w = f.width();
                let h = f.height();
                Ok((f.into_raw(), (w, h), true))
            },
            None => Err(AppError::NoMedia { path }),
        },
    }
}

} // verus!
