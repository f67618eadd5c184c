//! Settings range checks, the location of settings parse errors, and preset
//! naming and listing.

use crate::error::AppError;
use crate::paths::{
    file_extension, file_stem, last_dot, lemma_plain_name_is_file_name, name_extension, name_stem,
    path_extension, path_file_stem, plain_file_name,
};
use crate::order::{
    key_before, lemma_lex_irreflexive, lemma_lex_transitive, lex_lt, sort_by_keys, sorted_by_keys,
    stable_sorted_order, texts,
};
use crate::text::{
    ascii_case_eq, eq_ignore_ascii_case, to_lowercase, unicode_lowercase,
    decimal, is_alphanumeric, lemma_trim_idempotent, lemma_trim_of_trimmed, lemma_trim_shape,
    push_char, push_decimal, trim, trim_ws, unicode_alphanumeric, unicode_whitespace,
};
use vstd::prelude::*;
use vstd::string::*;

verus! {

// ---------------------------------------------------------------------------
// Range checks
// ---------------------------------------------------------------------------

/// The range text of a settings error: `{min}–{max}` (with an en dash).
pub open spec fn range_text(min: nat, max: nat) -> Seq<char> {
    decimal(min) + seq!['\u{2013}'] + decimal(max)
}

/// The error reported for an integer setting outside `min..=max`.
pub open spec fn out_of_range_error(e: AppError, name: Seq<char>, value: nat, min: nat, max: nat) -> bool {
    match e {
        AppError::SettingsValidation { name: n, value: v, range: r } => {
            &&& n@ == name
            &&& v@ == decimal(value)
            &&& r@ == range_text(min, max)
        },
        _ => false,
    }
}

/// Check that an integer setting lies in `min..=max`; otherwise report it by
/// name, with its value and the expected range.
pub fn validate_u32(name: &str, value: u32, min: u32, max: u32) -> (r: Result<(), AppError>)
    ensures
        r is Ok <==> min <= value <= max,
        r matches Err(e) ==> out_of_range_error(e, name@, value as nat, min as nat, max as nat),
{
    if value < min || value > max {
        let mut range = String::new();
        push_decimal(&mut range, min as u64);
        push_char(&mut range, '\u{2013}');
        push_decimal(&mut range, max as u64);
        let mut text = String::new();
        push_decimal(&mut text, value as u64);
        assert(range@ =~= range_text(min as nat, max as nat));
        assert(text@ =~= decimal(value as nat));
        return Err(AppError::SettingsValidation {
            name: String::from_str(name),
            value: text,
            range,
        });
    }
    Ok(())
}

// ---------------------------------------------------------------------------
// Parse error locations
// ---------------------------------------------------------------------------

/// Number of line feeds in `p`.
pub open spec fn newline_count(p: Seq<u8>) -> nat
    decreases p.len(),
{
    if p.len() == 0 {
        0
    } else {
        newline_count(p.drop_last()) + if p.last() == 10 {
            1nat
        } else {
            0nat
        }
    }
}

/// Where the last line of `p` starts: just after its last line feed (0
/// without one).
pub open spec fn line_start(p: Seq<u8>) -> nat
    decreases p.len(),
{
    if p.len() == 0 {
        0
    } else if p.last() == 10 {
        p.len()
    } else {
        line_start(p.drop_last())
    }
}

/// How many lines `str::lines` finds in the text `p`: one per line feed, plus
/// an unterminated last line.
pub open spec fn lines_in(p: Seq<u8>) -> nat {
    newline_count(p) + if p.len() > 0 && p.last() != 10 {
        1nat
    } else {
        0nat
    }
}

/// One more than the byte length of the last line `str::lines` finds in `p`
/// (a `\r` before its line feed is not counted), or 1 when there is none.
pub open spec fn column_after(p: Seq<u8>) -> nat {
    if p.len() == 0 {
        1
    } else if p.last() == 10 {
        let q = p.drop_last();
        let len = (q.len() - line_start(q)) as nat;
        if len > 0 && q.last() == 13 {
            len
        } else {
            len + 1
        }
    } else {
        (p.len() - line_start(p) + 1) as nat
    }
}

/// The location text of a parse error: `{path}:{line}:{column}`.
pub open spec fn location_text(path: Seq<char>, before: Seq<u8>) -> Seq<char> {
    path + ":"@ + decimal(lines_in(before)) + ":"@ + decimal(column_after(before))
}

/// Where a settings file failed to parse, as `{path}:{line}:{column}`, given
/// the bytes of the file before the error: the line is the number of lines
/// they span, the column one more than the byte length of the last of them.
pub fn error_location(path: &str, before: &[u8]) -> (r: String)
    requires
        before@.len() <= isize::MAX,
    ensures
        r@ == location_text(path@, before@),
{
    let n = before.len();
    let mut count: u64 = 0;
    let mut start: usize = 0;
    let mut i: usize = 0;
    while i < n
        invariant
            n == before@.len(),
            i <= n,
            count == newline_count(before@.subrange(0, i as int)),
            start == line_start(before@.subrange(0, i as int)),
            start <= i,
            count <= i,
        decreases n - i,
    {
        let ghost p = before@.subrange(0, i as int);
        let ghost q = before@.subrange(0, i + 1);
        assert(q.drop_last() =~= p);
        if before[i] == 10 {
            count = count + 1;
            start = i + 1;
        }
        i = i + 1;
    }
    assert(before@.subrange(0, n as int) =~= before@);
    let lines: u64 = if n > 0 && before[n - 1] != 10 {
        count + 1
    } else {
        count
    };
    let column: u64 = if n == 0 {
        1
    } else if before[n - 1] == 10 {
        let ghost q = before@.drop_last();
        let mut line_begin: usize = 0;
        let mut j: usize = 0;
        while j < n - 1
            invariant
                n == before@.len(),
                n >= 1,
                q == before@.drop_last(),
                j <= n - 1,
                line_begin == line_start(q.subrange(0, j as int)),
                line_begin <= j,
            decreases n - 1 - j,
        {
            let ghost p = q.subrange(0, j as int);
            assert(q.subrange(0, j + 1).drop_last() =~= p);
            if before[j] == 10 {
                line_begin = j + 1;
            }
            j = j + 1;
        }
        assert(q.subrange(0, (n - 1) as int) =~= q);
        let len: usize = n - 1 - line_begin;
        if len > 0 && before[n - 2] == 13 {
            len as u64
        } else {
            len as u64 + 1
        }
    } else {
        (n - start) as u64 + 1
    };
    let mut r = String::from_str(path);
    r.append(":");
    push_decimal(&mut r, lines);
    r.append(":");
    push_decimal(&mut r, column);
    r
}

// ---------------------------------------------------------------------------
// Preset names
// ---------------------------------------------------------------------------

/// Characters a preset name keeps as they are.
pub open spec fn preset_safe(c: char) -> bool {
    unicode_alphanumeric(c) || c == '-' || c == '_' || c == ' '
}

/// A kept character, or `_` in place of any other.
pub open spec fn preset_char(c: char) -> char {
    if preset_safe(c) {
        c
    } else {
        '_'
    }
}

/// The sanitized form of a preset name: unsafe characters replaced by `_`,
/// then surrounding whitespace trimmed.
pub open spec fn sanitized_preset(name: Seq<char>) -> Seq<char> {
    trim_ws(name.map_values(|c: char| preset_char(c)))
}

/// Sanitize a user-supplied preset name into a safe file stem.
/// Keeps alphanumerics, spaces, dashes and underscores; trims the result.
pub fn sanitize_preset_name(name: &str) -> (r: String)
    ensures
        r@ == sanitized_preset(name@),
        forall|i: int| 0 <= i < r@.len() ==> preset_safe(#[trigger] r@[i]),
        r@.len() > 0 ==> !unicode_whitespace(r@[0]) && !unicode_whitespace(r@.last()),
{
    let n = name.unicode_len();
    let mut cleaned = String::new();
    let mut i: usize = 0;
    while i < n
        invariant
            n == name@.len(),
            i <= n,
            cleaned@ == name@.subrange(0, i as int).map_values(|c: char| preset_char(c)),
        decreases n - i,
    {
        let c = name.get_char(i);
        let kept = if is_alphanumeric(c) || c == '-' || c == '_' || c == ' ' {
            c
        } else {
            '_'
        };
        push_char(&mut cleaned, kept);
        i = i + 1;
        assert(cleaned@ =~= name@.subrange(0, i as int).map_values(|c: char| preset_char(c)));
    }
    assert(name@.subrange(0, n as int) =~= name@);
    let ghost mapped = name@.map_values(|c: char| preset_char(c));
    proof {
        assert forall|k: int| 0 <= k < mapped.len() implies preset_safe(#[trigger] mapped[k]) by {}
        lemma_trim_shape(mapped, |c: char| preset_safe(c));
    }
    trim(cleaned.as_str())
}

/// Sanitizing is idempotent: a sanitized name sanitizes to itself.
pub proof fn lemma_sanitize_idempotent(name: Seq<char>)
    ensures
        sanitized_preset(sanitized_preset(name)) == sanitized_preset(name),
{
    let mapped = name.map_values(|c: char| preset_char(c));
    assert forall|k: int| 0 <= k < mapped.len() implies preset_safe(#[trigger] mapped[k]) by {}
    lemma_trim_shape(mapped, |c: char| preset_safe(c));
    let t = sanitized_preset(name);
    assert(t.map_values(|c: char| preset_char(c)) =~= t);
    lemma_trim_idempotent(mapped);
}

/// The file a preset called `name` is saved to: `{sanitized}.toml`.
pub open spec fn preset_save_file(name: Seq<char>) -> Seq<char> {
    sanitized_preset(name) + ".toml"@
}

/// The file name under which `save_preset` stores a preset: the sanitized
/// name with `.toml`, or `SaveFailed` ("preset name is empty") when nothing is
/// left of the name after sanitizing.
pub fn preset_save_name(name: &str) -> (r: Result<String, AppError>)
    ensures
        r is Err <==> sanitized_preset(name@).len() == 0,
        r matches Ok(file) ==> file@ == preset_save_file(name@),
        r matches Err(e) ==> e matches AppError::SaveFailed { reason } && reason@
            == "preset name is empty"@,
{
    let stem = sanitize_preset_name(name);
    if stem.as_str().unicode_len() == 0 {
        return Err(AppError::SaveFailed { reason: String::from_str("preset name is empty") });
    }
    Ok(stem.concat(".toml"))
}


/// The preset a file name holds: its stem, when the extension is `toml` in
/// any ASCII letter case.
pub open spec fn preset_stem_of(name: Seq<char>) -> Option<Seq<char>> {
    match path_extension(name) {
        Some(e) => if ascii_case_eq(e, "toml"@) {
            path_file_stem(name)
        } else {
            None
        },
        None => None,
    }
}

/// The presets among the file names, in the order of the names.
pub open spec fn preset_stems(names: Seq<Seq<char>>) -> Seq<Seq<char>>
    decreases names.len(),
{
    if names.len() == 0 {
        Seq::<Seq<char>>::empty()
    } else {
        match preset_stem_of(names.last()) {
            Some(stem) => preset_stems(names.drop_last()).push(stem),
            None => preset_stems(names.drop_last()),
        }
    }
}

/// The key presets are listed by: the lowercased name.
pub open spec fn lowercase_keys(names: Seq<Seq<char>>) -> Seq<Seq<char>> {
    names.map_values(|n: Seq<char>| unicode_lowercase(n))
}

fn preset_stem(name: &str) -> (r: Option<String>)
    ensures
        r matches Some(s) ==> preset_stem_of(name@) == Some(s@),
        r is None <==> preset_stem_of(name@) is None,
{
    proof {
        reveal_strlit("toml");
    }
    match file_extension(name) {
        Some(e) => if eq_ignore_ascii_case(e.as_str(), "toml") {
            file_stem(name)
        } else {
            None
        },
        None => None,
    }
}

/// List the presets among the file names of the presets folder: the stems
/// of the `*.toml` files (extension in any case), sorted case-insensitively
/// (names with equal lowercase forms keep their order).
pub fn list_presets(file_names: &Vec<String>) -> (r: Vec<String>)
    ensures
        sorted_by_keys(
            preset_stems(texts(file_names@)),
            lowercase_keys(preset_stems(texts(file_names@))),
            texts(r@),
        ),
        forall|i: int, j: int|
            0 <= i < j < r@.len() ==> !lex_lt(
                unicode_lowercase(#[trigger] r@[j]@),
                unicode_lowercase(#[trigger] r@[i]@),
            ),
{
    let mut stems: Vec<String> = Vec::new();
    let mut keys: Vec<String> = Vec::new();
    let mut i: usize = 0;
    while i < file_names.len()
        invariant
            i <= file_names@.len(),
            texts(stems@) == preset_stems(texts(file_names@).subrange(0, i as int)),
            texts(keys@) == lowercase_keys(texts(stems@)),
        decreases file_names@.len() - i,
    {
        let ghost prefix = texts(file_names@).subrange(0, i as int);
        let ghost next = texts(file_names@).subrange(0, i + 1);
        assert(next.drop_last() =~= prefix);
        assert(next.last() == file_names@[i as int]@);
        match preset_stem(file_names[i].as_str()) {
            Some(stem) => {
                let key = to_lowercase(stem.as_str());
                let ghost old_stems = texts(stems@);
                let ghost old_keys = texts(keys@);
                stems.push(stem);
                keys.push(key);
                assert(texts(stems@) =~= old_stems.push(stem@));
                assert(texts(keys@) =~= old_keys.push(key@));
                assert(lowercase_keys(texts(stems@)) =~= lowercase_keys(old_stems).push(unicode_lowercase(stem@)));
            },
            None => {},
        }
        i = i + 1;
    }
    assert(texts(file_names@).subrange(0, i as int) =~= texts(file_names@));
    let listed = sort_by_keys(&stems, &keys);
    proof {
        let names = texts(file_names@);
        lemma_presets_listed_case_insensitively(names, texts(listed@));
        assert forall|i: int, j: int| 0 <= i < j < listed@.len() implies !lex_lt(
            unicode_lowercase(#[trigger] listed@[j]@),
            unicode_lowercase(#[trigger] listed@[i]@),
        ) by {
            assert(texts(listed@)[i] == listed@[i]@);
            assert(texts(listed@)[j] == listed@[j]@);
        }
    }
    listed
}
/// A preset saved under any name that survives sanitizing is listed under
/// that sanitized name: its file `{sanitized}.toml` is recognised as a
/// preset, with the sanitized name as its stem.
pub proof fn lemma_saved_preset_is_listed(name: Seq<char>)
    requires
        sanitized_preset(name).len() > 0,
    ensures
        preset_stem_of(preset_save_file(name)) == Some(sanitized_preset(name)),
{
    reveal_strlit(".toml");
    reveal_strlit("toml");
    let stem = sanitized_preset(name);
    let mapped = name.map_values(|c: char| preset_char(c));
    assert forall|k: int| 0 <= k < mapped.len() implies preset_safe(#[trigger] mapped[k]) by {}
    lemma_trim_shape(mapped, |c: char| preset_safe(c));
    let file = preset_save_file(name);
    let n = stem.len() as int;
    assert(file.len() == n + 5);
    assert forall|i: int| 0 <= i < file.len() implies #[trigger] file[i] != '/' && file[i] != '\\'
        && file[i] != ':' by {
        if i < n {
            assert(file[i] == stem[i]);
            assert(preset_safe(stem[i]));
        }
    }
    assert(plain_file_name(file));
    lemma_plain_name_is_file_name(file);
    // The last dot is the one that starts ".toml".
    let f4 = file.drop_last();
    let f3 = f4.drop_last();
    let f2 = f3.drop_last();
    let f1 = f2.drop_last();
    assert(file.last() == 'l' && f4.last() == 'm' && f3.last() == 'o' && f2.last() == 't');
    assert(f1.len() == n + 1 && f1.last() == '.');
    assert(last_dot(f1) == n);
    assert(last_dot(f2) == n);
    assert(last_dot(f3) == n);
    assert(last_dot(f4) == n);
    assert(last_dot(file) == n);
    assert(name_extension(file) == Some("toml"@)) by {
        assert(file.subrange(n + 1, file.len() as int) =~= "toml"@);
    }
    assert(name_stem(file) =~= stem);
    assert(ascii_case_eq("toml"@, "toml"@));
}

/// Presets are listed in case-insensitive order: of any two listed names,
/// the lowercase form of the later one never comes before the lowercase form
/// of the earlier one; and every preset file is listed once.
pub proof fn lemma_presets_listed_case_insensitively(file_names: Seq<Seq<char>>, listed: Seq<Seq<char>>)
    requires
        sorted_by_keys(preset_stems(file_names), lowercase_keys(preset_stems(file_names)), listed),
    ensures
        listed.len() == preset_stems(file_names).len(),
        forall|i: int, j: int|
            0 <= i < j < listed.len() ==> !lex_lt(
                unicode_lowercase(#[trigger] listed[j]),
                unicode_lowercase(#[trigger] listed[i]),
            ),
{
    let items = preset_stems(file_names);
    let keys = lowercase_keys(items);
    let order = choose|order: Seq<usize>|
        {
            &&& stable_sorted_order(keys, order)
            &&& listed.len() == order.len()
            &&& forall|i: int| 0 <= i < listed.len() ==> listed[i] == items[#[trigger] order[i] as int]
        };
    assert forall|i: int, j: int| 0 <= i < j < listed.len() implies !lex_lt(
        unicode_lowercase(#[trigger] listed[j]),
        unicode_lowercase(#[trigger] listed[i]),
    ) by {
        let a = order[i] as int;
        let b = order[j] as int;
        assert(listed[i] == items[a]);
        assert(listed[j] == items[b]);
        assert(key_before(keys, a, b));
        let ka = unicode_lowercase(items[a]);
        let kb = unicode_lowercase(items[b]);
        assert(keys[a] == ka && keys[b] == kb);
        lemma_lex_irreflexive(ka);
        if lex_lt(kb, ka) && lex_lt(ka, kb) {
            lemma_lex_transitive(ka, kb, ka);
        }
    }
}

} // verus!
