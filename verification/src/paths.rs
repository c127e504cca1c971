//! The parts of a path, as the platform's path rules see them.

use std::path::Path;
use vstd::prelude::*;

verus! {

/// Whether `c` separates path components on some platform: `/` everywhere, `\` on Windows.
pub open spec fn is_separator(c: char) -> bool {
    c == '/' || c == '\\'
}

/// Whether `p` reads the same under every platform's path rules: it holds no `\` and no
/// `:`, and does not begin with two `/`, so it has no Windows prefix and `/` is its only
/// separator.
pub open spec fn portable_path(p: Seq<char>) -> bool {
    &&& forall|i: int| 0 <= i < p.len() ==> #[trigger] p[i] != '\\' && p[i] != ':'
    &&& !(p.len() >= 2 && p[0] == '/' && p[1] == '/')
}

/// Whether `p` is a single normal component: a portable, non-empty name without `/` that
/// is neither `.` nor `..`.
pub open spec fn single_name(p: Seq<char>) -> bool {
    &&& p.len() > 0
    &&& portable_path(p)
    &&& forall|i: int| 0 <= i < p.len() ==> #[trigger] p[i] != '/'
    &&& p != seq!['.']
    &&& p != seq!['.', '.']
}

/// The position of the last `c` in `s`, or -1 where there is none.
pub open spec fn last_index(s: Seq<char>, c: char) -> int
    decreases s.len(),
{
    if s.len() == 0 {
        -1
    } else if s.last() == c {
        s.len() - 1
    } else {
        last_index(s.drop_last(), c)
    }
}

/// The last position of `c` lies in `s`, before its end unless `s` ends with `c`.
pub proof fn lemma_last_index(s: Seq<char>, c: char)
    ensures
        -1 <= last_index(s, c) < s.len(),
        s.len() > 0 && s.last() != c ==> last_index(s, c) < s.len() - 1,
        0 <= last_index(s, c) ==> s[last_index(s, c)] == c,
        forall|i: int| last_index(s, c) < i < s.len() ==> #[trigger] s[i] != c,
    decreases s.len(),
{
    if s.len() > 0 && s.last() != c {
        lemma_last_index(s.drop_last(), c);
        assert forall|i: int| last_index(s, c) < i < s.len() implies #[trigger] s[i] != c by {
            if i < s.len() - 1 {
                assert(s.drop_last()[i] == s[i]);
            }
        }
    }
}

/// The name of the final component of a portable path `p`, as the path rules document it:
/// repeated and trailing separators are ignored, `.` components are dropped (a leading `.`
/// is a component of its own but no name), and a path that ends in `..`, a root or
/// nothing has no name.
pub open spec fn final_name(p: Seq<char>) -> Option<Seq<char>>
    decreases p.len(),
{
    if p.len() == 0 {
        None
    } else if p.last() == '/' {
        final_name(p.drop_last())
    } else {
        let k = last_index(p, '/');
        let seg = p.subrange(k + 1, p.len() as int);
        proof {
            lemma_last_index(p, '/');
        }
        if seg == seq!['.'] {
            final_name(p.take(k + 1))
        } else if seg == seq!['.', '.'] {
            None
        } else {
            Some(seg)
        }
    }
}

/// `q` without trailing separators and `.` components, as what remains of a path after its
/// final component reads: a root `/` and a leading `.` stay.
pub open spec fn trim_parent(q: Seq<char>) -> Seq<char>
    decreases q.len(),
{
    if q.len() == 0 {
        q
    } else if q.last() == '/' {
        if q.len() == 1 {
            q
        } else {
            trim_parent(q.drop_last())
        }
    } else {
        let k = last_index(q, '/');
        proof {
            lemma_last_index(q, '/');
        }
        if k >= 0 && q.subrange(k + 1, q.len() as int) == seq!['.'] {
            trim_parent(q.take(k + 1))
        } else {
            q
        }
    }
}

/// The parent of a portable path `p` whose final component is a name: the path without that
/// component, as the path rules document it (`None` where the final component is no name).
pub open spec fn name_parent(p: Seq<char>) -> Option<Seq<char>>
    decreases p.len(),
{
    if p.len() == 0 {
        None
    } else if p.last() == '/' {
        name_parent(p.drop_last())
    } else {
        let k = last_index(p, '/');
        let seg = p.subrange(k + 1, p.len() as int);
        proof {
            lemma_last_index(p, '/');
        }
        if seg == seq!['.'] {
            name_parent(p.take(k + 1))
        } else if seg == seq!['.', '.'] {
            None
        } else {
            Some(trim_parent(p.take(k + 1)))
        }
    }
}

/// The extension of the file name `n`, as the path rules document it: none without an
/// embedded `.` or where the only `.` begins the name, else the text after the last `.`.
pub open spec fn name_extension(n: Seq<char>) -> Option<Seq<char>> {
    let k = last_index(n, '.');
    if k <= 0 {
        None
    } else {
        Some(n.subrange(k + 1, n.len() as int))
    }
}

/// The extension of a portable path `p`: that of its final name.
pub open spec fn path_ext_spec(p: Seq<char>) -> Option<Seq<char>> {
    match final_name(p) {
        Some(n) => name_extension(n),
        None => None,
    }
}

/// Whether `c` is an ASCII letter, as a drive letter must be.
pub open spec fn ascii_letter(c: char) -> bool {
    ('a' <= c && c <= 'z') || ('A' <= c && c <= 'Z')
}

/// The position of the last separator of either kind in `p`, or -1 where there is none.
pub open spec fn last_sep(p: Seq<char>) -> int {
    let a = last_index(p, '/');
    let b = last_index(p, '\\');
    if a > b {
        a
    } else {
        b
    }
}

/// The text after the last separator of either kind: the final component where `\`
/// separates too.
pub open spec fn tail_name(p: Seq<char>) -> Seq<char> {
    p.subrange(last_sep(p) + 1, p.len() as int)
}

/// The text after the last separator holds no separator; in a plain path it holds no `:`
/// either, so it is a relative path with neither root nor prefix.
pub proof fn lemma_tail_name(p: Seq<char>)
    ensures
        forall|i: int| 0 <= i < tail_name(p).len() ==> !is_separator(#[trigger] tail_name(p)[i]),
        plain_path(p) ==> forall|i: int| 0 <= i < tail_name(p).len() ==> #[trigger] tail_name(p)[i] != ':',
        plain_path(p) ==> rel_ok(tail_name(p)),
{
    lemma_last_index(p, '/');
    lemma_last_index(p, '\\');
    let k = last_sep(p);
    let t = tail_name(p);
    assert forall|i: int| 0 <= i < t.len() implies !is_separator(#[trigger] t[i]) by {
        assert(t[i] == p[k + 1 + i]);
    }
    if plain_path(p) {
        assert forall|i: int| 0 <= i < t.len() implies #[trigger] t[i] != ':' by {
            assert(t[i] == p[k + 1 + i]);
            if p[k + 1 + i] == ':' {
                assert(k + 1 + i == 1);
                assert(is_separator(p[2]));
            }
        }
    }
}

/// Whether `p` ends in a name under both platforms' path rules: it does not begin with two
/// separators (no UNC, device or verbatim prefix), a `:` stands only after a drive letter
/// at the start and before a separator (`C:\`), and the text after the last separator is
/// a name, neither empty nor `.` nor `..`. Windows paths such as `C:\Users\a.txt` are
/// plain, and so is every portable path that ends in a name.
pub open spec fn plain_path(p: Seq<char>) -> bool {
    &&& !(p.len() >= 2 && is_separator(p[0]) && is_separator(p[1]))
    &&& forall|i: int|
        0 <= i < p.len() && #[trigger] p[i] == ':' ==> i == 1 && ascii_letter(p[0]) && p.len() > 2
            && is_separator(p[2])
    &&& tail_name(p).len() > 0
    &&& tail_name(p) != seq!['.']
    &&& tail_name(p) != seq!['.', '.']
}

/// Whether `q` is a root as Windows reads it: one separator, or a drive and a separator.
pub open spec fn win_root(q: Seq<char>) -> bool {
    ||| (q.len() == 1 && is_separator(q[0]))
    ||| (q.len() == 3 && ascii_letter(q[0]) && q[1] == ':' && is_separator(q[2]))
}

/// `q` without trailing separators and `.` components, as Windows reads what remains of a
/// path after its final component: a root and a leading `.` stay.
pub open spec fn trim_parent_win(q: Seq<char>) -> Seq<char>
    decreases q.len(),
{
    if q.len() == 0 {
        q
    } else if is_separator(q.last()) {
        if win_root(q) {
            q
        } else {
            trim_parent_win(q.drop_last())
        }
    } else {
        let k = last_sep(q);
        proof {
            lemma_last_index(q, '/');
            lemma_last_index(q, '\\');
        }
        if k >= 0 && q.subrange(k + 1, q.len() as int) == seq!['.'] {
            trim_parent_win(q.take(k + 1))
        } else {
            q
        }
    }
}

/// The text of an optional string.
pub open spec fn opt_text(s: Option<String>) -> Option<Seq<char>> {
    match s {
        Some(x) => Some(x@),
        None => None,
    }
}

/// What the path rules give as the extension `e` of `p`: for a portable path, the
/// documented one; for a plain path, that of the final component as either platform reads
/// it, which is the text after the last `.` of the text after the last separator wherever
/// that text has a `.` after its first character.
pub open spec fn ext_reading(p: Seq<char>, e: Option<Seq<char>>) -> bool {
    &&& portable_path(p) ==> e == path_ext_spec(p)
    &&& plain_path(p) ==> e == name_extension(tail_name(p)) || e == path_ext_spec(p)
    &&& plain_path(p) && last_index(tail_name(p), '.') > 0 ==> e == name_extension(tail_name(p))
}

/// What the path rules give as the file name `n` of `p`: for a portable path, the
/// documented one; for a plain path, a name, either the text after the last separator (the
/// Windows reading) or the final name with `/` as the only separator.
pub open spec fn name_reading(p: Seq<char>, n: Option<Seq<char>>) -> bool {
    &&& portable_path(p) ==> n == final_name(p)
    &&& plain_path(p) ==> n is Some && (n.unwrap() == tail_name(p) || n == final_name(p))
}

/// What the path rules give as the parent `d` of `p`: none for the empty path, the empty
/// path for a single name, the documented one for a portable path that ends in a name,
/// and for a plain path either that reading or the Windows one: the text up to the last
/// separator of either kind, trailing separators and `.` components dropped.
pub open spec fn parent_reading(p: Seq<char>, d: Option<Seq<char>>) -> bool {
    &&& p.len() == 0 ==> d is None
    &&& single_name(p) ==> d == Some(Seq::<char>::empty())
    &&& portable_path(p) && final_name(p) is Some ==> d == name_parent(p)
    &&& plain_path(p) ==> d is Some && (d == name_parent(p) || d.unwrap() == trim_parent_win(
        p.take(last_sep(p) + 1),
    ))
}

/// Whether `r` is `base` and `rel` with one separator between them.
pub open spec fn joined(base: Seq<char>, rel: Seq<char>, r: Seq<char>) -> bool {
    exists|s: char| #[trigger] is_separator(s) && r == base + seq![s] + rel
}

/// Whether `base` takes a relative path after one separator on every platform: it is not
/// empty, does not end in a separator, is not a bare drive (`C:`) and has no verbatim
/// prefix (`\\?\`), whose joins Windows normalises.
pub open spec fn join_base_ok(base: Seq<char>) -> bool {
    &&& base.len() > 0
    &&& !is_separator(base.last())
    &&& !(base.len() == 2 && base[1] == ':')
    &&& !(base.len() >= 4 && base[0] == '\\' && base[1] == '\\' && base[2] == '?' && base[3] == '\\')
}

/// Whether `rel` is a relative path on every platform but for a drive: it is not empty and
/// does not begin with a separator.
pub open spec fn rel_ok(rel: Seq<char>) -> bool {
    rel.len() > 0 && !is_separator(rel[0])
}

/// Whether joining `rel` onto `base` is the same on every platform but for the separator:
/// `base` takes a relative path (`join_base_ok`) and `rel` is relative with no `:`, so it
/// has neither root nor prefix anywhere.
pub open spec fn join_ok(base: Seq<char>, rel: Seq<char>) -> bool {
    &&& join_base_ok(base)
    &&& rel_ok(rel)
    &&& forall|i: int| 0 <= i < rel.len() ==> #[trigger] rel[i] != ':'
}

/// Whether `s`, split at `\`, has only components that are neither empty nor `.` nor `..`.
pub open spec fn plain_components(s: Seq<char>) -> bool {
    &&& s.len() > 0
    &&& s[0] != '\\'
    &&& s.last() != '\\'
    &&& forall|i: int| 0 <= i < s.len() - 1 && #[trigger] s[i] == '\\' ==> s[i + 1] != '\\'
    &&& forall|i: int|
        0 <= i < s.len() && #[trigger] s[i] == '.' && (i == 0 || s[i - 1] == '\\') ==> !(i + 1
            == s.len() || s[i + 1] == '\\') && !(i + 1 < s.len() && s[i + 1] == '.' && (i + 2
            == s.len() || s[i + 2] == '\\'))
}

/// Whether joining `rel` onto the verbatim `base` (`\\?\...`, as a shadow copy's device
/// path reads) puts one separator between them on every platform: `base` has no `/` and,
/// after its `\\?\`, no empty component; `rel` has no `/` or `:` and only components that
/// are neither empty nor `.` nor `..`, so Windows' normalisation of the join changes nothing.
pub open spec fn verbatim_join_ok(base: Seq<char>, rel: Seq<char>) -> bool {
    &&& base.len() > 4
    &&& base[0] == '\\' && base[1] == '\\' && base[2] == '?' && base[3] == '\\'
    &&& forall|i: int| 0 <= i < base.len() ==> #[trigger] base[i] != '/'
    &&& plain_components(base.skip(4))
    &&& forall|i: int| 0 <= i < rel.len() ==> #[trigger] rel[i] != '/' && rel[i] != ':'
    &&& plain_components(rel)
}

/// Calls `Path::extension` on `p` and converts the result to text. Claimed from the
/// documented rules (components, `file_name`, `extension`), and true on both platforms:
/// the extension that `ext_reading` describes for portable and plain paths.
#[verifier::external_body]
pub(crate) fn path_extension(p: &str) -> (r: Option<String>)
    ensures
        ext_reading(p@, opt_text(r)),
{
    match Path::new(p).extension() {
        Some(e) => Some(e.to_string_lossy().into_owned()),
        None => None,
    }
}

/// Calls `Path::file_name` on `p` and converts the result to text. Claimed from the
/// documented rules, and true on both platforms: the name that `name_reading` describes
/// for portable and plain paths.
#[verifier::external_body]
pub(crate) fn path_file_name(p: &str) -> (r: Option<String>)
    ensures
        name_reading(p@, opt_text(r)),
{
    match Path::new(p).file_name() {
        Some(n) => Some(n.to_string_lossy().into_owned()),
        None => None,
    }
}

/// Calls `Path::parent` on `p` and converts the result to text. Claimed from the
/// documented rules, and true on both platforms: the parent that `parent_reading`
/// describes for the empty path, single names, portable and plain paths. Other paths (UNC,
/// device and verbatim prefixes, drive-relative paths) are not claimed.
#[verifier::external_body]
pub(crate) fn path_parent(p: &str) -> (r: Option<String>)
    ensures
        parent_reading(p@, opt_text(r)),
{
    match Path::new(p).parent() {
        Some(d) => Some(d.to_string_lossy().into_owned()),
        None => None,
    }
}

/// Calls `Path::join` on `base` and `rel` and converts the result to text. Claimed, as
/// `PathBuf::push` documents it: where `base` takes a relative path (`join_base_ok`) and
/// `rel` begins with no separator, `rel` follows `base` after one separator, except that
/// on Windows a `rel` with a drive (`X:`) replaces `base`; where neither has a root or a
/// prefix on any platform (`join_ok`), and where a verbatim `base` meets a `rel` that the
/// normalisation of verbatim joins leaves alone (`verbatim_join_ok`), `rel` follows `base`
/// after one separator, the platform's own.
#[verifier::external_body]
pub(crate) fn path_join(base: &str, rel: &str) -> (r: String)
    ensures
        join_base_ok(base@) && rel_ok(rel@) ==> joined(base@, rel@, r@) || (rel@.len() >= 2
            && rel@[1] == ':' && r@ == rel@),
        join_ok(base@, rel@) ==> joined(base@, rel@, r@),
        verbatim_join_ok(base@, rel@) ==> joined(base@, rel@, r@),
{
    Path::new(base).join(rel).to_string_lossy().into_owned()
}

} // verus!
