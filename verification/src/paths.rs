//! File-system path text: the standard library's path splitting, and the
//! file name rules built on it.
use vstd::prelude::*;

use crate::text::{
    chars_eq_text, chars_of, has_prefix, last_index_of, last_index_of_char, lemma_last_index_at,
    lemma_last_index_bounds, starts_with_text, string_of, sub_chars,
};

verus! {

/// What `std::path::Path::file_name` gives for the path with text `p`.
pub uninterp spec fn std_path_file_name(p: Seq<char>) -> Option<Seq<char>>;

/// What `std::path::Path::strip_prefix` gives for the path with text `p`
/// and the base with text `base`, as text.
pub uninterp spec fn std_path_strip_prefix(p: Seq<char>, base: Seq<char>) -> Option<Seq<char>>;

/// The texts of the components that `std::path::Path::components` yields
/// for the path with text `p`.
pub uninterp spec fn std_path_components(p: Seq<char>) -> Seq<Seq<char>>;

/// Calls `std::path::Path::file_name`: the final component of the path,
/// `None` where the path ends in `..` or has no final component.  The
/// contract only ties the result to the path's text by a name; the
/// normalisation rules of `Path` are not restated.
#[verifier::external_body]
pub(crate) fn path_file_name(path: &str) -> (r: Option<String>)
    ensures
        match r {
            Some(s) => std_path_file_name(path@) == Some(s@),
            None => std_path_file_name(path@) is None,
        },
{
    match std::path::Path::new(path).file_name() {
        Some(name) => Some(name.to_string_lossy().into_owned()),
        None => None,
    }
}

/// Calls `std::path::Path::strip_prefix`: the rest of `path` after the
/// components of `base`, or `None` where `base` is not a prefix of `path`
/// component by component.  Only tied to its arguments by a name.
#[verifier::external_body]
pub(crate) fn path_strip_prefix(path: &str, base: &str) -> (r: Option<String>)
    ensures
        match r {
            Some(s) => std_path_strip_prefix(path@, base@) == Some(s@),
            None => std_path_strip_prefix(path@, base@) is None,
        },
{
    match std::path::Path::new(path).strip_prefix(base) {
        Ok(rest) => Some(rest.to_string_lossy().into_owned()),
        Err(_) => None,
    }
}

/// Calls `std::path::Path::components` and gives the text of each
/// component in order.  Only tied to its argument by a name.
#[verifier::external_body]
pub(crate) fn path_components(path: &str) -> (r: Vec<String>)
    ensures
        r@.len() == std_path_components(path@).len(),
        forall|k: int| 0 <= k < r@.len() ==> #[trigger] r@[k]@ == std_path_components(path@)[k],
{
    let mut r = Vec::new();
    for c in std::path::Path::new(path).components() {
        r.push(c.as_os_str().to_string_lossy().into_owned());
    }
    r
}

/// The stem of a file name, by the rule of `Path::file_stem`: the whole
/// name when it has no `.`, or its only `.` is the first character, or it
/// is `..`; otherwise the part before the final `.`.
pub open spec fn stem_of_name(name: Seq<char>) -> Seq<char> {
    if name == seq!['.', '.'] {
        name
    } else {
        match last_index_of(name, '.') {
            Some(k) => if k == 0 {
                name
            } else {
                name.take(k)
            },
            None => name,
        }
    }
}

/// The extension of a file name, by the rule of `Path::extension`: the
/// part after the final `.`, except where there is no `.`, the only `.` is
/// the first character, or the name is `..`.
pub open spec fn extension_of_name(name: Seq<char>) -> Option<Seq<char>> {
    if name == seq!['.', '.'] {
        None
    } else {
        match last_index_of(name, '.') {
            Some(k) => if k == 0 {
                None
            } else {
                Some(name.skip(k + 1))
            },
            None => None,
        }
    }
}

fn is_dot_dot(v: &Vec<char>) -> (r: bool)
    ensures
        r == (v@ == seq!['.', '.']),
{
    let r = v.len() == 2 && v[0] == '.' && v[1] == '.';
    if r {
        assert(v@ =~= seq!['.', '.']);
    }
    r
}

/// The stem of the file name `name` (see `stem_of_name`).
pub fn file_stem_of_name(name: &str) -> (r: String)
    ensures
        r@ == stem_of_name(name@),
{
    let v = chars_of(name);
    if is_dot_dot(&v) {
        return string_of(&v);
    }
    proof {
        lemma_last_index_bounds(v@, '.');
    }
    match last_index_of_char(&v, '.') {
        Some(k) => {
            if k == 0 {
                string_of(&v)
            } else {
                let stem = sub_chars(&v, 0, k);
                assert(stem@ =~= v@.take(k as int));
                string_of(&stem)
            }
        },
        None => string_of(&v),
    }
}

/// The extension of the file name `name` (see `extension_of_name`).
pub fn extension_of(name: &Vec<char>) -> (r: Option<Vec<char>>)
    ensures
        match (r, extension_of_name(name@)) {
            (Some(x), Some(y)) => x@ == y,
            (None, None) => true,
            _ => false,
        },
{
    if is_dot_dot(name) {
        return None;
    }
    proof {
        lemma_last_index_bounds(name@, '.');
    }
    match last_index_of_char(name, '.') {
        Some(k) => {
            assert(last_index_of(name@, '.') == Some(k as int));
            assert(k < name.len());
            if k == 0 {
                None
            } else {
                let ext = sub_chars(name, k + 1, name.len());
                assert(ext@ =~= name@.skip(k + 1));
                Some(ext)
            }
        },
        None => None,
    }
}

/// The session id that a Codex session file's name gives: the stem of its
/// file name, where the path has one.
pub open spec fn session_id_from_path(path: Seq<char>) -> Option<Seq<char>> {
    match std_path_file_name(path) {
        Some(name) => Some(stem_of_name(name)),
        None => None,
    }
}

/// The session id that a session file's name gives, used until the file's
/// own metadata names the session: the file stem of `path`.
pub fn extract_session_id_from_filename(path: &str) -> (r: Option<String>)
    ensures
        match (r, session_id_from_path(path@)) {
            (Some(x), Some(y)) => x@ == y,
            (None, None) => true,
            _ => false,
        },
{
    match path_file_name(path) {
        Some(name) => Some(file_stem_of_name(name.as_str())),
        None => None,
    }
}

/// A Codex session log: a `.jsonl` file whose name begins with `rollout-`.
pub open spec fn is_codex_session_name(name: Seq<char>) -> bool {
    &&& extension_of_name(name) == Some("jsonl"@)
    &&& has_prefix(name, "rollout-"@)
}

/// Whether the file name `name` is that of a Codex session log.
pub fn is_codex_session_file(name: &str) -> (r: bool)
    ensures
        r == is_codex_session_name(name@),
{
    let v = chars_of(name);
    match extension_of(&v) {
        Some(ext) => chars_eq_text(&ext, "jsonl") && starts_with_text(&v, "rollout-"),
        None => false,
    }
}

/// A file name is that of a Codex session log exactly when it begins with
/// `rollout-` and ends with `.jsonl`: what stands between (dates, times,
/// ids, further dots) does not matter.
pub proof fn lemma_codex_session_name(name: Seq<char>)
    ensures
        is_codex_session_name(name) <==> {
            &&& has_prefix(name, "rollout-"@)
            &&& name.len() >= 6
            &&& name.skip(name.len() - 6) == ".jsonl"@
        },
{
    reveal_strlit("rollout-");
    reveal_strlit(".jsonl");
    reveal_strlit("jsonl");
    lemma_last_index_bounds(name, '.');
    if has_prefix(name, "rollout-"@) && name.len() >= 6 && name.skip(name.len() - 6) == ".jsonl"@ {
        let k = name.len() - 6;
        assert(name[0] == name.take(8)[0]);
        assert(name[0] == 'r');
        assert(name[k] == name.skip(k)[0]);
        assert forall|j: int| k < j < name.len() implies name[j] != '.' by {
            assert(name[j] == name.skip(k)[j - k]);
        }
        lemma_last_index_at(name, '.', k);
        assert(name != seq!['.', '.']);
        assert(name.skip(k + 1) =~= name.skip(k).skip(1));
        assert(".jsonl"@.skip(1) =~= "jsonl"@);
        assert(name.skip(k + 1) =~= "jsonl"@);
    }
    if is_codex_session_name(name) {
        let k = last_index_of(name, '.')->0;
        assert(name.skip(k + 1) == "jsonl"@);
        assert(name.len() == k + 6);
        assert(seq!['.'] + "jsonl"@ =~= ".jsonl"@);
        assert(name.skip(k) =~= seq![name[k]] + name.skip(k + 1));
        assert(name.skip(name.len() - 6) =~= ".jsonl"@);
    }
}

/// Every name `rollout-<anything>.jsonl` is that of a Codex session log.
pub proof fn lemma_codex_session_name_accepted(middle: Seq<char>)
    ensures
        is_codex_session_name("rollout-"@ + middle + ".jsonl"@),
{
    let name = "rollout-"@ + middle + ".jsonl"@;
    reveal_strlit("rollout-");
    reveal_strlit(".jsonl");
    assert(name.take(8) =~= "rollout-"@);
    assert(name.skip(name.len() - 6) =~= ".jsonl"@);
    lemma_codex_session_name(name);
}

/// Whether the file name `name` is that of a Kimi wire log.
pub fn is_kimi_wire_file(name: &str) -> (r: bool)
    ensures
        r == (name@ == "wire.jsonl"@),
{
    let v = chars_of(name);
    chars_eq_text(&v, "wire.jsonl")
}

} // verus!
