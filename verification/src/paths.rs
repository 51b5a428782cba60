//! File-system path arithmetic on UTF-8 path strings, backed by `std::path`.
//! Paths are read as on Unix: `/` separates components and a path that
//! starts with `/` is absolute.

use vstd::prelude::*;

verus! {

/// What `std::path::Path::file_name` reports for the Unix path `p`: its final
/// component, absent when the path ends in `..` or has no components.
pub uninterp spec fn file_name_of(p: Seq<char>) -> Option<Seq<char>>;

/// What `std::path::Path::parent` reports for the Unix path `p`: the path without
/// its final component, absent for a root or an empty path.
pub uninterp spec fn parent_of(p: Seq<char>) -> Option<Seq<char>>;

/// What `std::path::Path::join` builds from the Unix paths `base` and `part`:
/// `part` itself when it is absolute (starts with `/`); otherwise `base`,
/// then a `/` when `base` is not empty and does not already end in one, then
/// `part`.
pub open spec fn joined(base: Seq<char>, part: Seq<char>) -> Seq<char> {
    if part.len() > 0 && part[0] == '/' {
        part
    } else if base.len() > 0 && base.last() != '/' {
        base + seq!['/'] + part
    } else {
        base + part
    }
}

/// Calls `std::path::Path::file_name`.  Claimed: the result is the final
/// component as `file_name_of` names it (the component of a UTF-8 path is
/// UTF-8, so no character is replaced).
#[verifier::external_body]
pub(crate) fn file_name(p: &str) -> (res: Option<String>)
    ensures
        match res {
            Some(n) => file_name_of(p@) == Some(n@),
            None => file_name_of(p@) is None,
        },
{
    std::path::Path::new(p).file_name().map(|n| n.to_string_lossy().into_owned())
}

/// Calls `std::path::Path::parent`.  Claimed: the result is the parent path as
/// `parent_of` names it.
#[verifier::external_body]
pub(crate) fn parent(p: &str) -> (res: Option<String>)
    ensures
        match res {
            Some(q) => parent_of(p@) == Some(q@),
            None => parent_of(p@) is None,
        },
{
    std::path::Path::new(p).parent().map(|q| q.to_string_lossy().into_owned())
}

/// Calls `std::path::Path::join`.  Claimed: the result is `joined(base,
/// part)`, as `PathBuf::push` documents it on Unix: an absolute part replaces
/// the path, a relative one is appended after a separator unless the path is
/// empty or already ends in one.
#[verifier::external_body]
pub(crate) fn join(base: &str, part: &str) -> (res: String)
    ensures
        res@ == joined(base@, part@),
{
    std::path::Path::new(base).join(part).to_string_lossy().into_owned()
}

/// The position of the last `.` in `s`, if any.
pub open spec fn last_dot(s: Seq<char>) -> Option<int>
    decreases s.len(),
{
    if s.len() == 0 {
        None
    } else if s.last() == '.' {
        Some(s.len() - 1)
    } else {
        last_dot(s.drop_last())
    }
}

/// The extension of a file name, by the rule `std::path::Path::extension`
/// documents: what follows the last `.`, none when there is no `.` or when
/// the only `.` starts the name.
pub open spec fn extension_of_name(name: Seq<char>) -> Option<Seq<char>> {
    match last_dot(name) {
        Some(i) => if i == 0 { None } else { Some(name.skip(i + 1)) },
        None => None,
    }
}

/// The extension of the path `p`: that of its file name.
pub open spec fn extension_of(p: Seq<char>) -> Option<Seq<char>> {
    match file_name_of(p) {
        Some(name) => extension_of_name(name),
        None => None,
    }
}

proof fn lemma_last_dot_bounds(s: Seq<char>)
    ensures
        match last_dot(s) {
            Some(i) => 0 <= i < s.len() && s[i] == '.' && forall|j: int|
                i < j < s.len() ==> s[j] != '.',
            None => forall|j: int| 0 <= j < s.len() ==> s[j] != '.',
        },
    decreases s.len(),
{
    if s.len() > 0 && s.last() != '.' {
        lemma_last_dot_bounds(s.drop_last());
        assert forall|j: int| 0 <= j < s.len() - 1 implies s.drop_last()[j] == s[j] by {}
    }
}

/// The extension of a file name (see `extension_of_name`).
pub fn name_extension(name: &str) -> (ext: Option<String>)
    ensures
        match ext {
            Some(e) => extension_of_name(name@) == Some(e@),
            None => extension_of_name(name@) is None,
        },
{
    let n = name.unicode_len();
    let mut i: usize = n;
    while i > 0 && name.get_char(i - 1) != '.'
        invariant
            i <= n,
            n == name@.len(),
            forall|j: int| i <= j < n ==> name@[j] != '.',
        decreases i,
    {
        i = i - 1;
    }
    proof {
        lemma_last_dot_bounds(name@);
    }
    if i == 0 {
        // no dot at all
        return None;
    }
    let dot = i - 1;
    proof {
        assert(last_dot(name@) == Some(dot as int)) by {
            match last_dot(name@) {
                Some(k) => {
                    if k < dot as int {
                        assert(name@[dot as int] == '.');
                    } else if k > dot as int {
                        assert(name@[k] == '.');
                    }
                },
                None => {
                    assert(name@[dot as int] == '.');
                },
            }
        }
    }
    if dot == 0 {
        return None;
    }
    let tail = name.substring_char(dot + 1, n);
    let mut e = String::new();
    e.append(tail);
    proof {
        assert(e@ =~= name@.skip(dot as int + 1));
    }
    Some(e)
}

/// The extension of the path `p` (see `extension_of`).
pub fn path_extension(p: &str) -> (ext: Option<String>)
    ensures
        match ext {
            Some(e) => extension_of(p@) == Some(e@),
            None => extension_of(p@) is None,
        },
{
    match file_name(p) {
        Some(n) => name_extension(n.as_str()),
        None => None,
    }
}

/// What `str::to_lowercase` returns for `s` (the Unicode lowercase mapping).
pub uninterp spec fn lowercase(s: Seq<char>) -> Seq<char>;

/// Whether `c` is an ASCII character.
pub open spec fn is_ascii_char(c: char) -> bool {
    c <= '\u{7f}'
}

/// The ASCII lowercase of `c`: `A`–`Z` become `a`–`z`, every other
/// character is kept.
pub open spec fn ascii_lower(c: char) -> char {
    if 'A' <= c && c <= 'Z' {
        ((c as u32) + 32) as char
    } else {
        c
    }
}

/// Calls `str::to_lowercase`.  Claimed: the result is the lowercase mapping
/// that `lowercase` names, and, for a text that is all ASCII, that mapping
/// turns `A`–`Z` into `a`–`z` and keeps every other character (as the
/// documentation of `char::to_lowercase` and `to_ascii_lowercase` gives it).
/// Beyond ASCII nothing is stated.
#[verifier::external_body]
fn to_lowercase(s: &str) -> (res: String)
    ensures
        res@ == lowercase(s@),
        (forall|i: int| 0 <= i < s@.len() ==> is_ascii_char(#[trigger] s@[i])) ==> res@
            == s@.map_values(|c: char| ascii_lower(c)),
{
    s.to_lowercase()
}

/// The lowercased extension of the path `p`, or of `default` when `p` has no
/// extension.
pub open spec fn lower_extension_or(p: Seq<char>, default: Seq<char>) -> Seq<char> {
    match extension_of(p) {
        Some(e) => lowercase(e),
        None => lowercase(default),
    }
}

/// The lowercased extension of `p`, falling back to `default` (see
/// `lower_extension_or`).
pub fn lower_extension_or_default(p: &str, default: &str) -> (e: String)
    ensures
        e@ == lower_extension_or(p@, default@),
{
    match path_extension(p) {
        Some(x) => to_lowercase(x.as_str()),
        None => to_lowercase(default),
    }
}

/// The stem of a file name, by the rule `std::path::Path::file_stem`
/// documents: what precedes the last `.`, the whole name when there is no
/// `.` or when the only `.` starts the name.
pub open spec fn stem_of_name(name: Seq<char>) -> Seq<char> {
    match last_dot(name) {
        Some(i) => if i == 0 { name } else { name.take(i) },
        None => name,
    }
}

/// The stem of the path `p`: that of its file name, empty when it has none.
pub open spec fn stem_or_empty(p: Seq<char>) -> Seq<char> {
    match file_name_of(p) {
        Some(name) => stem_of_name(name),
        None => Seq::empty(),
    }
}

/// The stem of a file name (see `stem_of_name`).
pub fn name_stem(name: &str) -> (s: String)
    ensures
        s@ == stem_of_name(name@),
{
    let n = name.unicode_len();
    let mut i: usize = n;
    while i > 0 && name.get_char(i - 1) != '.'
        invariant
            i <= n,
            n == name@.len(),
            forall|j: int| i <= j < n ==> name@[j] != '.',
        decreases i,
    {
        i = i - 1;
    }
    proof {
        lemma_last_dot_bounds(name@);
        if i > 0 {
            let dot = (i - 1) as int;
            match last_dot(name@) {
                Some(k) => {
                    if k < dot {
                        assert(name@[dot] == '.');
                    } else if k > dot {
                        assert(name@[k] == '.');
                    }
                },
                None => {
                    assert(name@[dot] == '.');
                },
            }
        }
    }
    let mut out = String::new();
    if i <= 1 {
        out.append(name);
        proof {
            assert(out@ =~= stem_of_name(name@));
        }
    } else {
        let head = name.substring_char(0, i - 1);
        out.append(head);
        proof {
            assert(out@ =~= name@.take(i - 1));
        }
    }
    out
}

/// The stem of `p` (see `stem_or_empty`).
pub fn stem_text(p: &str) -> (s: String)
    ensures
        s@ == stem_or_empty(p@),
{
    match file_name(p) {
        Some(n) => name_stem(n.as_str()),
        None => String::new(),
    }
}

} // verus!
