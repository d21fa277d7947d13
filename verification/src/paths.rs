//! File-system paths, held as strings.
//!
//! Joining paths is left to `std::path`, whose result differs between
//! platforms (separator, drive prefixes, verbatim paths); the contracts
//! here state what holds on every platform.

use vstd::prelude::*;

use crate::text;
use crate::text::{chars_of, string_of};

verus! {

/// `c` is a path separator on some platform.
pub open spec fn is_sep(c: char) -> bool {
    c == '/' || c == '\\'
}

/// A relative path piece with no drive or root: non-empty, not starting
/// with a separator, and without `:`.
pub open spec fn relative_part(p: Seq<char>) -> bool {
    &&& p.len() > 0
    &&& !is_sep(p[0])
    &&& forall|i: int| 0 <= i < p.len() ==> p[i] != ':'
}

/// `b` starts like a Windows verbatim path (`\\?\`), which joining
/// normalises.
pub open spec fn verbatim_like(b: Seq<char>) -> bool {
    b.len() >= 3 && is_sep(b[0]) && is_sep(b[1]) && b[2] == '?'
}

/// `b` is a bare two-character drive such as `C:`, to which Windows joins
/// without a separator.
pub open spec fn drive_only(b: Seq<char>) -> bool {
    b.len() == 2 && b[1] == ':'
}

/// What holds of `r`, the result of joining `part` onto `base`, on every
/// platform: for a base that is not verbatim and a relative part, the part
/// is appended, after one separator where the base does not already end
/// with one; onto a bare drive such as `C:` it is appended with or without
/// a separator.
pub open spec fn join_shape(base: Seq<char>, part: Seq<char>, r: Seq<char>) -> bool {
    (!verbatim_like(base) && relative_part(part)) ==> {
        &&& base.len() == 0 ==> r == part
        &&& (base.len() > 0 && base.last() == '/') ==> r == base + part
        &&& (base.len() > 0 && base.last() == '\\') ==> (r == base + part || r == base.push('/')
            + part)
        &&& (base.len() > 0 && !is_sep(base.last()) && !drive_only(base)) ==> (r == base.push('/')
            + part || r == base.push('\\') + part)
        &&& drive_only(base) ==> (r == base + part || r == base.push('/') + part || r
            == base.push('\\') + part)
    }
}

/// Every character of `r` is a separator or occurs in `base` or in `part`.
pub open spec fn made_of(r: Seq<char>, base: Seq<char>, part: Seq<char>) -> bool {
    forall|i: int|
        0 <= i < r.len() ==> is_sep(#[trigger] r[i]) || base.contains(r[i]) || part.contains(r[i])
}

/// What is stated of `r`, the result of joining `part` onto `base`: it is
/// made of the inputs' characters and separators, with the shape given by
/// `join_shape`.
pub open spec fn joined(base: Seq<char>, part: Seq<char>, r: Seq<char>) -> bool {
    made_of(r, base, part) && join_shape(base, part, r)
}

/// Calls `std::path::Path::join` on `base` and `part` and returns the joined
/// path as a string. Stated on every input: the result is made of the
/// characters of the two inputs and separators (joining only keeps, drops
/// or normalises whole components and adds separators). For a base that is
/// not verbatim and a relative part, `join_shape` gives its exact shape up
/// to the separator. Which separator is added, whether one is added after a
/// bare drive, and which components survive for a verbatim base or an
/// absolute part depend on the platform and are left unsaid.
#[verifier::external_body]
pub(crate) fn path_join(base: &str, part: &str) -> (r: String)
    ensures
        made_of(r@, base@, part@),
        join_shape(base@, part@, r@),
{
    std::path::Path::new(base).join(part).to_string_lossy().into_owned()
}

/// Returns `std::path::MAIN_SEPARATOR`, the platform's preferred separator;
/// only that it is `/` or `\` is stated, not which.
#[verifier::external_body]
pub(crate) fn main_separator() -> (c: char)
    ensures
        is_sep(c),
{
    std::path::MAIN_SEPARATOR
}

/// `p` certainly has a parent on every platform: it is not empty; it does
/// not end with a separator or with `.` (a root followed only by `.`
/// components has none); it is not a bare drive such as `C:`; and it does
/// not start with two separators, as network and verbatim prefixes do. Its
/// last component is then an ordinary name.
pub open spec fn has_parent(p: Seq<char>) -> bool {
    &&& p.len() > 0
    &&& !is_sep(p.last())
    &&& p.last() != '.'
    &&& !drive_only(p)
    &&& !(p.len() >= 2 && is_sep(p[0]) && is_sep(p[1]))
}

/// `p` has a `/` followed, somewhere after it, by a character that is
/// neither a separator nor `.`: a named component comes after a root or an
/// earlier component, on every platform.
pub open spec fn has_inner_slash(p: Seq<char>) -> bool {
    exists|k: int, j: int|
        0 <= k < j < p.len() && #[trigger] p[k] == '/' && !is_sep(#[trigger] p[j]) && p[j]
            != '.'
}

/// `p` is a path whose components are separated by `/` alone and read the
/// same on every platform: it has a parent (`has_parent`), holds no `\`
/// and no `:` (so no drive or other prefix), and none of its components is
/// `.` (which `std` drops when it takes the parent).
pub open spec fn slash_path(p: Seq<char>) -> bool {
    &&& has_parent(p)
    &&& forall|i: int| 0 <= i < p.len() ==> #[trigger] p[i] != '\\' && p[i] != ':'
    &&& forall|i: int| 0 <= i < p.len() ==> !#[trigger] dot_component_at(p, i)
}

/// A component `.` starts at position `i` of `p`, with `/` as separator.
pub open spec fn dot_component_at(p: Seq<char>, i: int) -> bool {
    &&& p[i] == '.'
    &&& (i == 0 || p[i - 1] == '/')
    &&& (i + 1 == p.len() || p[i + 1] == '/')
}

/// `p` without its trailing characters other than `/`.
pub open spec fn drop_last_name(p: Seq<char>) -> Seq<char>
    decreases p.len(),
{
    if p.len() > 0 && p.last() != '/' {
        drop_last_name(p.drop_last())
    } else {
        p
    }
}

/// `p` without its trailing `/`, except a `/` that starts it (the root).
pub open spec fn drop_trailing_slashes(p: Seq<char>) -> Seq<char>
    decreases p.len(),
{
    if p.len() > 1 && p.last() == '/' {
        drop_trailing_slashes(p.drop_last())
    } else {
        p
    }
}

/// `p` without its last component, for a `slash_path`: the last name and
/// the `/` before it are dropped, but not a leading `/` (the root); empty
/// when `p` has no `/`.
pub open spec fn slash_parent(p: Seq<char>) -> Seq<char> {
    drop_trailing_slashes(drop_last_name(p))
}

/// Calls `std::path::Path::parent` on `p`. Stated: the parent is a strictly
/// shorter prefix of `p`; the empty path has none; a path whose last
/// component is an ordinary name has one (`Path::parent` answers `None`
/// only for an empty path or one that ends in a root or a prefix); and it
/// is not empty when a named component follows a `/`. For a path separated
/// by `/` alone (`slash_path`) it is exactly the path without its last
/// component (`slash_parent`), the same on every platform. For other paths
/// which prefix it is depends on the platform's separators and is left
/// unsaid.
#[verifier::external_body]
pub(crate) fn path_parent(p: &str) -> (r: Option<String>)
    ensures
        p@.len() == 0 ==> r is None,
        has_parent(p@) ==> r is Some,
        r matches Some(q) ==> q@.len() < p@.len() && text::starts_with(p@, q@),
        r matches Some(q) ==> (has_inner_slash(p@) ==> q@.len() > 0),
        r matches Some(q) ==> (slash_path(p@) ==> q@ == slash_parent(p@)),
{
    std::path::Path::new(p).parent().map(|q| q.to_string_lossy().into_owned())
}

/// `r` is `p` with a trailing separator: `p` itself when it already ends
/// with `/` or `\`, otherwise `p` and one separator.
pub open spec fn with_trailing_sep(p: Seq<char>, r: Seq<char>) -> bool {
    if p.len() > 0 && is_sep(p.last()) {
        r == p
    } else {
        r.len() == p.len() + 1 && r.drop_last() == p && is_sep(r.last())
    }
}

/// `p` followed by the platform separator unless it already ends with a
/// separator.
pub fn path_with_trailing_sep(p: &str) -> (r: String)
    ensures
        with_trailing_sep(p@, r@),
{
    let mut v = chars_of(p);
    let n = v.len();
    if n > 0 && (v[n - 1] == '\\' || v[n - 1] == '/') {
        return string_of(&v);
    }
    let sep = main_separator();
    v.push(sep);
    assert(v@.drop_last() == p@);
    string_of(&v)
}

/// Adding a trailing separator twice is the same as adding it once.
pub proof fn law_trailing_sep_idempotent(p: Seq<char>, r: Seq<char>, r2: Seq<char>)
    requires
        with_trailing_sep(p, r),
        with_trailing_sep(r, r2),
    ensures
        r2 == r,
{
}

/// `r` is a directory path for `part` under `base` with a trailing
/// separator: some join of the two (as `joined` states it), followed by a
/// separator.
pub open spec fn sub_dir(base: Seq<char>, part: Seq<char>, r: Seq<char>) -> bool {
    exists|j: Seq<char>|
        #![trigger with_trailing_sep(j, r)]
        joined(base, part, j) && with_trailing_sep(j, r)
}

/// `part` under `base`, with a trailing separator.
pub fn sub_dir_path(base: &str, part: &str) -> (r: String)
    ensures
        sub_dir(base@, part@, r@),
{
    let j = path_join(base, part);
    let r = path_with_trailing_sep(j.as_str());
    assert(joined(base@, part@, j@) && with_trailing_sep(j@, r@));
    r
}

/// A sub-directory path is not empty and ends with a separator.
pub proof fn law_sub_dir_ends_with_sep(base: Seq<char>, part: Seq<char>, r: Seq<char>)
    requires
        sub_dir(base, part, r),
    ensures
        r.len() > 0,
        is_sep(r.last()),
{
    let j = choose|j: Seq<char>|
        #![trigger with_trailing_sep(j, r)]
        joined(base, part, j) && with_trailing_sep(j, r);
}

/// A character that is no separator and occurs in neither `base` nor
/// `part` does not occur in a sub-directory path built from them.
pub proof fn law_sub_dir_adds_only_separators(
    base: Seq<char>,
    part: Seq<char>,
    r: Seq<char>,
    c: char,
)
    requires
        sub_dir(base, part, r),
        !is_sep(c),
        !base.contains(c),
        !part.contains(c),
    ensures
        !r.contains(c),
{
    let j = choose|j: Seq<char>|
        #![trigger with_trailing_sep(j, r)]
        joined(base, part, j) && with_trailing_sep(j, r);
    if r.contains(c) {
        let i = choose|i: int| 0 <= i < r.len() && r[i] == c;
        if !(j.len() > 0 && is_sep(j.last())) {
            assert(i < j.len()) by {
                if i == j.len() {
                    assert(r[i] == r.last());
                }
            }
            assert(r.drop_last()[i] == r[i]);
        }
        assert(j[i] == c);
    }
}

} // verus!
