//! File paths of plugins: where the plugin folder lies, and the name, stem
//! and extension of a plugin file.
use vstd::prelude::*;

verus! {

/// `base` followed by `segment`, as `std::path::PathBuf::push` joins them on
/// Unix: an absolute `segment` replaces `base`; otherwise a `/` separates the
/// two unless `base` is empty or already ends with one.
pub open spec fn joined(base: Seq<char>, segment: Seq<char>) -> Seq<char> {
    if segment.len() > 0 && segment[0] == '/' {
        segment
    } else if base.len() == 0 || base.last() == '/' {
        base + segment
    } else {
        base + seq!['/'] + segment
    }
}

/// Joins two path texts (see `joined`).
pub fn join_path(base: &str, segment: &str) -> (path: String)
    ensures
        path@ == joined(base@, segment@),
{
    let seg_len = segment.unicode_len();
    if seg_len > 0 && segment.get_char(0) == '/' {
        return segment.to_owned();
    }
    let base_len = base.unicode_len();
    let mut path = base.to_owned();
    if base_len > 0 && base.get_char(base_len - 1) != '/' {
        path.append("/");
        proof {
            reveal_strlit("/");
        }
    }
    path.append(segment);
    proof {
        if base@.len() > 0 && base@.last() != '/' {
            assert(path@ =~= base@ + seq!['/'] + segment@);
        }
    }
    path
}

/// The final component of a path, as `std::path::Path::file_name` gives it,
/// or `None` where the path has none (it ends in `..`, or is empty or a
/// root). This is determined by the path's text alone.
pub uninterp spec fn path_file_name(path: Seq<char>) -> Option<Seq<char>>;

/// Index of the last `.` in `name`, or -1 where there is none.
pub open spec fn last_dot(name: Seq<char>) -> int
    decreases name.len(),
{
    if name.len() == 0 {
        -1
    } else if name.last() == '.' {
        name.len() - 1
    } else {
        last_dot(name.drop_last())
    }
}

/// The stem of a file name, by the rules that `std::path::Path::file_stem`
/// documents: the whole name where it holds no `.` or only a leading one,
/// else the part before the last `.`.
pub open spec fn stem_of(name: Seq<char>) -> Seq<char> {
    if last_dot(name) <= 0 {
        name
    } else {
        name.take(last_dot(name))
    }
}

/// The extension of a file name, by the rules that
/// `std::path::Path::extension` documents: none where the name holds no `.`
/// or only a leading one, else the part after the last `.`.
pub open spec fn extension_of(name: Seq<char>) -> Option<Seq<char>> {
    if last_dot(name) <= 0 {
        None
    } else {
        Some(name.skip(last_dot(name) + 1))
    }
}

/// `std::path::Path::file_name` of the path `path`, as text. The result is
/// the named `path_file_name`; what that is on a given path is not stated.
#[verifier::external_body]
pub(crate) fn file_name(path: &str) -> (name: Option<String>)
    ensures
        match name {
            Some(n) => path_file_name(path@) == Some(n@),
            None => path_file_name(path@) is None,
        },
{
    std::path::Path::new(path).file_name().and_then(|n| n.to_str()).map(|n| n.to_string())
}

/// A name that holds no `.` from position `j` on has its last `.` before `j`.
proof fn lemma_last_dot_prefix(name: Seq<char>, j: int)
    requires
        0 <= j <= name.len(),
        forall|k: int| j <= k < name.len() ==> name[k] != '.',
    ensures
        last_dot(name) == last_dot(name.take(j)),
    decreases name.len() - j,
{
    if j < name.len() {
        assert(name.drop_last().take(j) =~= name.take(j));
        lemma_last_dot_prefix(name.drop_last(), j);
    } else {
        assert(name.take(j) =~= name);
    }
}

/// The position of the last `.` in `name`, if it holds one (see `last_dot`).
fn last_dot_index(name: &str) -> (i: Option<usize>)
    ensures
        match i {
            Some(k) => k as int == last_dot(name@) && k < name@.len(),
            None => last_dot(name@) == -1,
        },
{
    let mut j: usize = name.unicode_len();
    while j > 0
        invariant
            j <= name@.len(),
            forall|k: int| j <= k < name@.len() ==> name@[k] != '.',
        decreases j,
    {
        if name.get_char(j - 1) == '.' {
            proof {
                lemma_last_dot_prefix(name@, j as int);
                assert(name@.take(j as int).drop_last() =~= name@.take(j - 1));
            }
            return Some(j - 1);
        }
        j = j - 1;
    }
    proof {
        lemma_last_dot_prefix(name@, 0);
    }
    None
}

/// The stem of the file name `name` (see `stem_of`).
pub fn stem(name: &str) -> (s: String)
    ensures
        s@ == stem_of(name@),
{
    match last_dot_index(name) {
        Some(k) if k > 0 => name.substring_char(0, k).to_owned(),
        _ => name.to_owned(),
    }
}

/// The extension of the file name `name` (see `extension_of`).
pub fn extension_in(name: &str) -> (ext: Option<String>)
    ensures
        match ext {
            Some(e) => extension_of(name@) == Some(e@),
            None => extension_of(name@) is None,
        },
{
    match last_dot_index(name) {
        Some(k) if k > 0 => {
            let len = name.unicode_len();
            Some(name.substring_char(k + 1, len).to_owned())
        },
        _ => None,
    }
}

/// The stem of the path `path`'s file name, as `std::path::Path::file_stem`
/// documents it: none where the path has no file name.
pub fn file_stem(path: &str) -> (s: Option<String>)
    ensures
        match s {
            Some(t) => path_file_name(path@) is Some && t@ == stem_of(path_file_name(path@)->0),
            None => path_file_name(path@) is None,
        },
{
    match file_name(path) {
        Some(n) => Some(stem(n.as_str())),
        None => None,
    }
}

/// The extension of the path `path`'s file name, as
/// `std::path::Path::extension` documents it.
pub fn extension(path: &str) -> (ext: Option<String>)
    ensures
        match ext {
            Some(e) => path_file_name(path@) is Some && extension_of(path_file_name(path@)->0)
                == Some(e@),
            None => path_file_name(path@) is None || extension_of(path_file_name(path@)->0) is None,
        },
{
    match file_name(path) {
        Some(n) => extension_in(n.as_str()),
        None => None,
    }
}

} // verus!
