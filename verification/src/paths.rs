//! What std's `Path` reads from a path: its file name, and the extension and
//! stem of that name. For paths that every platform parses alike (no
//! backslash, no drive prefix, no leading `//`) std's documented rules are
//! spelled out; other paths keep std's answer as a name.

use vstd::prelude::*;

verus! {

/// A single file name: non-empty, without a path separator or drive colon,
/// and not `.` or `..`.
pub open spec fn plain_file_name(p: Seq<char>) -> bool {
    &&& p.len() > 0
    &&& forall|i: int| 0 <= i < p.len() ==> #[trigger] p[i] != '/' && p[i] != '\\' && p[i] != ':'
    &&& !(p.len() == 1 && p[0] == '.')
    &&& !(p.len() == 2 && p[0] == '.' && p[1] == '.')
}

/// The index of the last `.` in `p`, or -1 without one.
pub open spec fn last_dot(p: Seq<char>) -> int
    decreases p.len(),
{
    if p.len() == 0 {
        -1
    } else if p.last() == '.' {
        p.len() - 1
    } else {
        last_dot(p.drop_last())
    }
}

/// The extension of a plain file name: the text after its last `.`, unless
/// it has no `.` or its only `.` is the leading one.
pub open spec fn name_extension(p: Seq<char>) -> Option<Seq<char>> {
    if last_dot(p) <= 0 {
        None
    } else {
        Some(p.subrange(last_dot(p) + 1, p.len() as int))
    }
}

/// The stem of a plain file name: the text before its last `.`, or the whole
/// name when it has no `.` or only a leading one.
pub open spec fn name_stem(p: Seq<char>) -> Seq<char> {
    if last_dot(p) <= 0 {
        p
    } else {
        p.subrange(0, last_dot(p))
    }
}

/// A path that std parses the same way on every platform: no backslash, no
/// drive prefix such as `C:`, and no leading `//` (a network prefix on
/// Windows). Such a path is a sequence of components separated by `/`.
pub open spec fn portable_path(p: Seq<char>) -> bool {
    &&& forall|i: int| 0 <= i < p.len() ==> #[trigger] p[i] != '\\'
    &&& !(p.len() >= 2 && p[1] == ':')
    &&& !(p.len() >= 2 && p[0] == '/' && p[1] == '/')
}

/// The index of the last `/` in `p`, or -1 without one.
pub open spec fn last_slash(p: Seq<char>) -> int
    decreases p.len(),
{
    if p.len() == 0 {
        -1
    } else if p.last() == '/' {
        p.len() - 1
    } else {
        last_slash(p.drop_last())
    }
}

/// `last_slash` lies in `-1..len`, and no `/` follows it.
pub proof fn lemma_last_slash_range(p: Seq<char>)
    ensures
        -1 <= last_slash(p) < p.len(),
        last_slash(p) >= 0 ==> p[last_slash(p)] == '/',
        forall|i: int| last_slash(p) < i < p.len() ==> #[trigger] p[i] != '/',
    decreases p.len(),
{
    if p.len() > 0 && p.last() != '/' {
        lemma_last_slash_range(p.drop_last());
        assert forall|i: int| last_slash(p) < i < p.len() implies #[trigger] p[i] != '/' by {
            if i < p.len() - 1 {
                assert(p[i] == p.drop_last()[i]);
            }
        }
    }
}

/// The last component of a `/`-separated path, skipping the empty
/// components that repeated or trailing separators leave and the `.`
/// components, which std normalizes away. None when nothing is left.
pub open spec fn last_component(p: Seq<char>) -> Option<Seq<char>>
    decreases p.len(),
{
    let i = last_slash(p);
    let tail = p.subrange(i + 1, p.len() as int);
    if tail.len() == 0 || tail == seq!['.'] {
        if i < 0 {
            None
        } else {
            proof {
                lemma_last_slash_range(p);
            }
            last_component(p.subrange(0, i))
        }
    } else {
        Some(tail)
    }
}

/// `Path::file_name` of a portable path: its last component, unless that is
/// `..` or there is none (the root, `.`, or the empty path).
pub open spec fn path_file_name(p: Seq<char>) -> Option<Seq<char>> {
    match last_component(p) {
        Some(c) => if c == seq!['.', '.'] {
            None
        } else {
            Some(c)
        },
        None => None,
    }
}

/// The extension `Path::extension` finds in a path that is not portable
/// (None when its file name has none).
pub uninterp spec fn general_path_extension(p: Seq<char>) -> Option<Seq<char>>;

/// The stem `Path::file_stem` finds in a path that is not portable (None
/// when it has no file name).
pub uninterp spec fn general_path_file_stem(p: Seq<char>) -> Option<Seq<char>>;

/// The extension of the path `p`'s file name, as `Path::extension` gives it.
pub open spec fn path_extension(p: Seq<char>) -> Option<Seq<char>> {
    if portable_path(p) {
        match path_file_name(p) {
            Some(name) => name_extension(name),
            None => None,
        }
    } else {
        general_path_extension(p)
    }
}

/// The stem of the path `p`'s file name, as `Path::file_stem` gives it.
pub open spec fn path_file_stem(p: Seq<char>) -> Option<Seq<char>> {
    if portable_path(p) {
        match path_file_name(p) {
            Some(name) => Some(name_stem(name)),
            None => None,
        }
    } else {
        general_path_file_stem(p)
    }
}

/// A plain file name is a portable path whose file name is itself.
pub proof fn lemma_plain_name_is_file_name(p: Seq<char>)
    requires
        plain_file_name(p),
    ensures
        portable_path(p),
        path_file_name(p) == Some(p),
        path_extension(p) == name_extension(p),
        path_file_stem(p) == Some(name_stem(p)),
{
    lemma_last_slash_range(p);
    if last_slash(p) >= 0 {
        assert(p[last_slash(p)] != '/');
    }
    assert(p.subrange(0, p.len() as int) =~= p);
    if p == seq!['.'] {
        assert(p[0] == '.');
    }
    if p == seq!['.', '.'] {
        assert(p[0] == '.' && p[1] == '.');
    }
}

/// The text of an optional string.
pub open spec fn text_of(s: Option<String>) -> Option<Seq<char>> {
    match s {
        Some(t) => Some(t@),
        None => None,
    }
}

/// `Path::extension`, as text. For a portable path the result follows std's
/// documented rule (the file name's text after its last `.`; none without a
/// file name, without a `.`, or with only a leading one); for other paths it
/// is std's answer, named above.
#[verifier::external_body]
pub(crate) fn file_extension(path: &str) -> (r: Option<String>)
    ensures
        portable_path(path@) ==> text_of(r) == path_extension(path@),
        !portable_path(path@) ==> text_of(r) == general_path_extension(path@),
{
    match std::path::Path::new(path).extension() {
        Some(ext) => match ext.to_str() {
            Some(text) => Some(text.to_string()),
            None => None,
        },
        None => None,
    }
}

/// `Path::file_stem`, as text. For a portable path the result follows std's
/// documented rule (the file name's text before its last `.`, or the whole
/// name without a `.` or with only a leading one; none without a file name);
/// for other paths it is std's answer, named above.
#[verifier::external_body]
pub(crate) fn file_stem(path: &str) -> (r: Option<String>)
    ensures
        portable_path(path@) ==> text_of(r) == path_file_stem(path@),
        !portable_path(path@) ==> text_of(r) == general_path_file_stem(path@),
{
    match std::path::Path::new(path).file_stem() {
        Some(stem) => match stem.to_str() {
            Some(text) => Some(text.to_string()),
            None => None,
        },
        None => None,
    }
}

} // verus!
