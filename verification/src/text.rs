//! Character-sequence utilities: searching, replacing and case mapping.

use vstd::prelude::*;

verus! {

/// Collects `str::chars` of `s`: its characters, in order, which is what `s@` denotes.
#[verifier::external_body]
pub(crate) fn chars_of(s: &str) -> (r: Vec<char>)
    ensures
        r@ == s@,
{
    s.chars().collect()
}

/// Collects the characters of `v` into a `String`, which holds them in order.
#[verifier::external_body]
pub(crate) fn string_of(v: &[char]) -> (r: String)
    ensures
        r@ == v@,
{
    v.iter().collect()
}

/// True when `pat` occurs in `s` starting at position `i`.
pub open spec fn occurs_at(s: Seq<char>, pat: Seq<char>, i: int) -> bool {
    0 <= i && i + pat.len() <= s.len() && s.subrange(i, i + pat.len()) == pat
}

/// Whether `pat` occurs anywhere in `s`.
pub open spec fn seq_contains(s: Seq<char>, pat: Seq<char>) -> bool {
    exists|i: int| occurs_at(s, pat, i)
}

fn matches_at(s: &[char], pat: &[char], i: usize) -> (r: bool)
    requires
        i <= s@.len(),
    ensures
        r == occurs_at(s@, pat@, i as int),
{
    if pat.len() > s.len() - i {
        return false;
    }
    let n = s.len();
    let mut k: usize = 0;
    while k < pat.len()
        invariant
            n == s@.len(),
            i <= s@.len(),
            i + pat@.len() <= s@.len(),
            k <= pat@.len(),
            forall|j: int| 0 <= j < k ==> s@[i + j] == pat@[j],
        decreases pat@.len() - k,
    {
        if s[i + k] != pat[k] {
            assert(s@.subrange(i as int, i + pat@.len())[k as int] != pat@[k as int]);
            return false;
        }
        k = k + 1;
    }
    assert(s@.subrange(i as int, i + pat@.len()) =~= pat@);
    true
}

/// Whether `pat` occurs in `s`.
pub fn contains(s: &[char], pat: &[char]) -> (r: bool)
    ensures
        r == seq_contains(s@, pat@),
{
    if pat.len() > s.len() {
        return false;
    }
    let last = s.len() - pat.len();
    let mut i: usize = 0;
    loop
        invariant
            last == s@.len() - pat@.len(),
            i <= last,
            forall|j: int| 0 <= j < i ==> !occurs_at(s@, pat@, j),
        decreases last - i,
    {
        if matches_at(s, pat, i) {
            return true;
        }
        if i == last {
            assert forall|j: int| !occurs_at(s@, pat@, j) by {
                if 0 <= j && j <= i {
                }
            }
            return false;
        }
        i = i + 1;
    }
}


/// The first position at or after `i` where `pat` occurs in `s`.
pub open spec fn first_match_from(s: Seq<char>, pat: Seq<char>, i: int) -> Option<int>
    decreases s.len() - i,
{
    if i < 0 || i + pat.len() > s.len() {
        None
    } else if occurs_at(s, pat, i) {
        Some(i)
    } else if pat.len() == 0 {
        None
    } else {
        first_match_from(s, pat, i + 1)
    }
}

/// The first position where `pat` occurs in `s`.
pub open spec fn first_match(s: Seq<char>, pat: Seq<char>) -> Option<int> {
    first_match_from(s, pat, 0)
}

/// What a first match from `i` is: a match, with none between `i` and it.
pub proof fn lemma_first_match_from_props(s: Seq<char>, pat: Seq<char>, i: int)
    requires
        0 <= i,
    ensures
        match first_match_from(s, pat, i) {
            Some(k) => i <= k && occurs_at(s, pat, k) && forall|j: int|
                i <= j < k ==> !occurs_at(s, pat, j),
            None => forall|j: int| i <= j ==> !occurs_at(s, pat, j),
        },
    decreases s.len() - i,
{
    if i + pat.len() > s.len() {
    } else if occurs_at(s, pat, i) {
    } else if pat.len() == 0 {
        assert(s.subrange(i, i) =~= pat);
    } else {
        lemma_first_match_from_props(s, pat, i + 1);
    }
}

/// The first position where `pat` occurs in `s`, if any.
pub fn find(s: &[char], pat: &[char]) -> (r: Option<usize>)
    ensures
        match r {
            Some(k) => first_match(s@, pat@) == Some(k as int),
            None => first_match(s@, pat@) is None,
        },
{
    if pat.len() > s.len() {
        return None;
    }
    let last = s.len() - pat.len();
    let mut i: usize = 0;
    loop
        invariant
            last == s@.len() - pat@.len(),
            i <= last,
            first_match(s@, pat@) == first_match_from(s@, pat@, i as int),
        decreases last - i,
    {
        if matches_at(s, pat, i) {
            return Some(i);
        }
        if i == last {
            assert(first_match_from(s@, pat@, i + 1) is None);
            return None;
        }
        proof {
            if pat@.len() == 0 {
                assert(s@.subrange(i as int, i as int) =~= pat@);
            }
        }
        i = i + 1;
    }
}

/// The sequence `s` with every non-overlapping occurrence of `pat`, scanned from the left,
/// replaced by `rep`.
pub open spec fn replace_all(s: Seq<char>, pat: Seq<char>, rep: Seq<char>) -> Seq<char>
    decreases s.len(),
{
    if pat.len() == 0 || s.len() < pat.len() {
        s
    } else if s.subrange(0, pat.len() as int) == pat {
        rep + replace_all(s.skip(pat.len() as int), pat, rep)
    } else {
        seq![s[0]] + replace_all(s.skip(1), pat, rep)
    }
}

/// A pattern that occurs in `x` occurs in `p + x + q`.
pub proof fn lemma_contains_in_context(p: Seq<char>, x: Seq<char>, q: Seq<char>, pat: Seq<char>)
    requires
        seq_contains(x, pat),
    ensures
        seq_contains(p + x + q, pat),
{
    let i = choose|i: int| occurs_at(x, pat, i);
    let y = p + x + q;
    assert(y.subrange(p.len() + i, p.len() + i + pat.len()) =~= x.subrange(i, i + pat.len()));
    assert(occurs_at(y, pat, p.len() + i));
}

/// Replacing scans from the left: where the first occurrence of `pat` is at `st`, the text
/// before it stays, that occurrence becomes `rep`, and the rest is replaced after it.
pub proof fn lemma_replace_all_first(s: Seq<char>, pat: Seq<char>, rep: Seq<char>, st: int)
    requires
        pat.len() > 0,
        occurs_at(s, pat, st),
        forall|j: int| 0 <= j < st ==> !occurs_at(s, pat, j),
    ensures
        replace_all(s, pat, rep) == s.take(st) + rep + replace_all(s.skip(st + pat.len()), pat, rep),
    decreases st,
{
    if st == 0 {
        assert(s.take(0) =~= Seq::<char>::empty());
        assert(s.take(0) + rep =~= rep);
    } else {
        assert(!occurs_at(s, pat, 0));
        let t = s.skip(1);
        assert(t.subrange(st - 1, st - 1 + pat.len()) =~= s.subrange(st, st + pat.len()));
        assert forall|j: int| 0 <= j < st - 1 implies !occurs_at(t, pat, j) by {
            if occurs_at(t, pat, j) {
                assert(t.subrange(j, j + pat.len()) =~= s.subrange(j + 1, j + 1 + pat.len()));
                assert(occurs_at(s, pat, j + 1));
            }
        }
        lemma_replace_all_first(t, pat, rep, st - 1);
        assert(t.skip(st - 1 + pat.len()) =~= s.skip(st + pat.len()));
        assert(seq![s[0]] + t.take(st - 1) =~= s.take(st));
        assert(seq![s[0]] + (t.take(st - 1) + rep + replace_all(s.skip(st + pat.len()), pat, rep))
            =~= s.take(st) + rep + replace_all(s.skip(st + pat.len()), pat, rep));
    }
}

proof fn lemma_trim_start_within(s: Seq<char>)
    ensures
        forall|m: int| 0 <= m < trim_start_spec(s).len() ==> s.contains(#[trigger] trim_start_spec(s)[m]),
    decreases s.len(),
{
    if s.len() > 0 && is_space(s[0]) {
        lemma_trim_start_within(s.skip(1));
        assert forall|m: int| 0 <= m < trim_start_spec(s).len() implies s.contains(#[trigger] trim_start_spec(s)[m]) by {
            let x = trim_start_spec(s)[m];
            assert(trim_start_spec(s) == trim_start_spec(s.skip(1)));
            assert(s.skip(1).contains(trim_start_spec(s.skip(1))[m]));
            let w = choose|w: int| 0 <= w < s.skip(1).len() && s.skip(1)[w] == x;
            assert(s[w + 1] == x);
        }
    } else {
        assert forall|m: int| 0 <= m < trim_start_spec(s).len() implies s.contains(#[trigger] trim_start_spec(s)[m]) by {
            assert(s[m] == trim_start_spec(s)[m]);
        }
    }
}

proof fn lemma_trim_end_within(s: Seq<char>)
    ensures
        forall|m: int| 0 <= m < trim_end_spec(s).len() ==> s.contains(#[trigger] trim_end_spec(s)[m]),
    decreases s.len(),
{
    if s.len() > 0 && is_space(s.last()) {
        lemma_trim_end_within(s.drop_last());
        assert forall|m: int| 0 <= m < trim_end_spec(s).len() implies s.contains(#[trigger] trim_end_spec(s)[m]) by {
            let x = trim_end_spec(s)[m];
            assert(trim_end_spec(s) == trim_end_spec(s.drop_last()));
            assert(s.drop_last().contains(trim_end_spec(s.drop_last())[m]));
            let w = choose|w: int| 0 <= w < s.drop_last().len() && s.drop_last()[w] == x;
            assert(s[w] == x);
        }
    } else {
        assert forall|m: int| 0 <= m < trim_end_spec(s).len() implies s.contains(#[trigger] trim_end_spec(s)[m]) by {
            assert(s[m] == trim_end_spec(s)[m]);
        }
    }
}

/// Trimming keeps only characters of the text: every character of the trimmed text is one
/// of the original's.
pub proof fn lemma_trim_within(s: Seq<char>)
    ensures
        forall|m: int| 0 <= m < trim_spec(s).len() ==> s.contains(#[trigger] trim_spec(s)[m]),
{
    lemma_trim_start_within(s);
    lemma_trim_end_within(trim_start_spec(s));
    let a = trim_start_spec(s);
    assert forall|m: int| 0 <= m < trim_spec(s).len() implies s.contains(#[trigger] trim_spec(s)[m]) by {
        let x = trim_spec(s)[m];
        assert(a.contains(x));
        let w = choose|w: int| 0 <= w < a.len() && a[w] == x;
        assert(s.contains(a[w]));
    }
}

/// Replacing a pattern that does not occur changes nothing, and it has no first match.
pub proof fn lemma_absent_pattern(s: Seq<char>, pat: Seq<char>, rep: Seq<char>)
    requires
        !seq_contains(s, pat),
    ensures
        replace_all(s, pat, rep) == s,
        first_match(s, pat) is None,
    decreases s.len(),
{
    lemma_first_match_from_props(s, pat, 0);
    if pat.len() == 0 || s.len() < pat.len() {
    } else {
        assert(!occurs_at(s, pat, 0));
        assert forall|i: int| !occurs_at(s.skip(1), pat, i) by {
            if occurs_at(s.skip(1), pat, i) {
                assert(s.subrange(i + 1, i + 1 + pat.len()) =~= s.skip(1).subrange(i, i + pat.len()));
                assert(occurs_at(s, pat, i + 1));
            }
        }
        lemma_absent_pattern(s.skip(1), pat, rep);
        assert(seq![s[0]] + s.skip(1) =~= s);
    }
}

/// A text without `{{` holds no pattern that begins with `{{`.
pub proof fn lemma_no_braces(s: Seq<char>, pat: Seq<char>)
    requires
        !seq_contains(s, "{{"@),
        pat.len() >= 2,
        pat[0] == '{',
        pat[1] == '{',
    ensures
        !seq_contains(s, pat),
{
    reveal_strlit("{{");
    assert forall|i: int| !occurs_at(s, pat, i) by {
        if occurs_at(s, pat, i) {
            assert(s[i] == s.subrange(i, i + pat.len())[0]);
            assert(s[i + 1] == s.subrange(i, i + pat.len())[1]);
            assert(s.subrange(i, i + 2) =~= "{{"@);
            assert(occurs_at(s, "{{"@, i));
        }
    }
}

/// Every non-overlapping occurrence of the non-empty `pat` in `s`, scanned from the left,
/// replaced by `rep`.
pub fn replace(s: &[char], pat: &[char], rep: &[char]) -> (r: Vec<char>)
    requires
        pat@.len() > 0,
    ensures
        r@ == replace_all(s@, pat@, rep@),
{
    let n = s.len();
    let mut out: Vec<char> = Vec::new();
    let mut i: usize = 0;
    assert(s@.skip(0) =~= s@);
    assert(out@ + replace_all(s@, pat@, rep@) =~= replace_all(s@, pat@, rep@));
    while i < n
        invariant
            n == s@.len(),
            pat@.len() > 0,
            i <= n,
            out@ + replace_all(s@.skip(i as int), pat@, rep@) == replace_all(s@, pat@, rep@),
        decreases n - i,
    {
        let ghost rest = s@.skip(i as int);
        if matches_at(s, pat, i) {
            assert(rest.subrange(0, pat@.len() as int) =~= s@.subrange(i as int, i + pat@.len()));
            assert(rest.skip(pat@.len() as int) =~= s@.skip(i + pat@.len()));
            let mut k: usize = 0;
            let ghost before = out@;
            while k < rep.len()
                invariant
                    k <= rep@.len(),
                    out@ == before + rep@.subrange(0, k as int),
                decreases rep@.len() - k,
            {
                out.push(rep[k]);
                k = k + 1;
                assert(out@ =~= before + rep@.subrange(0, k as int));
            }
            assert(rep@.subrange(0, rep@.len() as int) =~= rep@);
            assert(out@ + replace_all(s@.skip(i + pat@.len()), pat@, rep@) =~= before + (rep@
                + replace_all(rest.skip(pat@.len() as int), pat@, rep@)));
            i = i + pat.len();
        } else {
            proof {
                if rest.len() >= pat@.len() {
                    assert(rest.subrange(0, pat@.len() as int) =~= s@.subrange(i as int, i + pat@.len()));
                }
                assert(rest.skip(1) =~= s@.skip(i + 1));
            }
            let ghost before = out@;
            out.push(s[i]);
            proof {
                if rest.len() < pat@.len() {
                    assert(replace_all(rest, pat@, rep@) == rest);
                    assert(rest =~= seq![s@[i as int]] + rest.skip(1));
                    assert(replace_all(rest.skip(1), pat@, rep@) == rest.skip(1));
                }
            }
            assert(out@ + replace_all(s@.skip(i + 1), pat@, rep@) =~= before + replace_all(rest, pat@, rep@));
            i = i + 1;
        }
    }
    assert(s@.skip(n as int) =~= Seq::<char>::empty());
    assert(out@ =~= out@ + replace_all(s@.skip(n as int), pat@, rep@));
    out
}


/// Unicode lowercase mapping of a character sequence, as `str::to_lowercase` computes it.
pub uninterp spec fn str_lowercase(s: Seq<char>) -> Seq<char>;

/// Unicode uppercase mapping of a character sequence, as `str::to_uppercase` computes it.
pub uninterp spec fn str_uppercase(s: Seq<char>) -> Seq<char>;

/// Whether every character of `s` is ASCII.
pub open spec fn is_ascii_text(s: Seq<char>) -> bool {
    forall|i: int| 0 <= i < s.len() ==> #[trigger] s[i] <= '\u{7F}'
}

/// `c` with `A` to `Z` mapped to `a` to `z`.
pub open spec fn ascii_lower_char(c: char) -> char {
    if 'A' <= c && c <= 'Z' {
        (c as int + 32) as char
    } else {
        c
    }
}

/// `c` with `a` to `z` mapped to `A` to `Z`.
pub open spec fn ascii_upper_char(c: char) -> char {
    if 'a' <= c && c <= 'z' {
        (c as int - 32) as char
    } else {
        c
    }
}

/// `s` with each ASCII letter in lowercase.
pub open spec fn ascii_lower(s: Seq<char>) -> Seq<char> {
    s.map_values(|c: char| ascii_lower_char(c))
}

/// `s` with each ASCII letter in uppercase.
pub open spec fn ascii_upper(s: Seq<char>) -> Seq<char> {
    s.map_values(|c: char| ascii_upper_char(c))
}

/// Calls `str::to_lowercase`. Claimed: the result is a function of the characters of `s`
/// alone, named `str_lowercase`, and for ASCII text it maps `A` to `Z` to `a` to `z` and
/// keeps every other character, as the Unicode case mapping of ASCII characters does;
/// nothing more is said of the Unicode case tables.
#[verifier::external_body]
pub(crate) fn to_lowercase(s: &str) -> (r: String)
    ensures
        r@ == str_lowercase(s@),
        is_ascii_text(s@) ==> r@ == ascii_lower(s@),
{
    s.to_lowercase()
}

/// Calls `str::to_uppercase`. Claimed: the result is a function of the characters of `s`
/// alone, named `str_uppercase`, and for ASCII text it maps `a` to `z` to `A` to `Z` and
/// keeps every other character; nothing more is said of the Unicode case tables.
#[verifier::external_body]
pub(crate) fn to_uppercase(s: &str) -> (r: String)
    ensures
        r@ == str_uppercase(s@),
        is_ascii_text(s@) ==> r@ == ascii_upper(s@),
{
    s.to_uppercase()
}

/// Characters with the Unicode `White_Space` property (what `char::is_whitespace` accepts).
pub open spec fn is_space(c: char) -> bool {
    ||| ('\u{9}' <= c && c <= '\u{D}')
    ||| c == ' '
    ||| c == '\u{85}'
    ||| c == '\u{A0}'
    ||| c == '\u{1680}'
    ||| ('\u{2000}' <= c && c <= '\u{200A}')
    ||| c == '\u{2028}'
    ||| c == '\u{2029}'
    ||| c == '\u{202F}'
    ||| c == '\u{205F}'
    ||| c == '\u{3000}'
}

/// Whether `c` has the Unicode `White_Space` property.
pub fn is_space_char(c: char) -> (r: bool)
    ensures
        r == is_space(c),
{
    ('\u{9}' <= c && c <= '\u{D}') || c == ' ' || c == '\u{85}' || c == '\u{A0}' || c
        == '\u{1680}' || ('\u{2000}' <= c && c <= '\u{200A}') || c == '\u{2028}' || c
        == '\u{2029}' || c == '\u{202F}' || c == '\u{205F}' || c == '\u{3000}'
}

/// `s` without its leading characters that satisfy `is_space`.
pub open spec fn trim_start_spec(s: Seq<char>) -> Seq<char>
    decreases s.len(),
{
    if s.len() > 0 && is_space(s[0]) {
        trim_start_spec(s.skip(1))
    } else {
        s
    }
}

/// `s` without its trailing characters that satisfy `is_space`.
pub open spec fn trim_end_spec(s: Seq<char>) -> Seq<char>
    decreases s.len(),
{
    if s.len() > 0 && is_space(s.last()) {
        trim_end_spec(s.drop_last())
    } else {
        s
    }
}

/// `s` without leading and trailing white space, as `str::trim` gives it.
pub open spec fn trim_spec(s: Seq<char>) -> Seq<char> {
    trim_end_spec(trim_start_spec(s))
}

proof fn lemma_trim_start_skip(s: Seq<char>, i: int)
    requires
        0 <= i <= s.len(),
        forall|j: int| 0 <= j < i ==> is_space(s[j]),
    ensures
        trim_start_spec(s) == trim_start_spec(s.skip(i)),
    decreases i,
{
    if i > 0 {
        assert(s.skip(1).skip(i - 1) =~= s.skip(i));
        lemma_trim_start_skip(s.skip(1), i - 1);
    } else {
        assert(s.skip(0) =~= s);
    }
}

proof fn lemma_trim_end_take(s: Seq<char>, k: int)
    requires
        0 <= k <= s.len(),
        forall|j: int| k <= j < s.len() ==> is_space(s[j]),
    ensures
        trim_end_spec(s) == trim_end_spec(s.take(k)),
    decreases s.len() - k,
{
    if k < s.len() {
        assert(s.drop_last().take(k) =~= s.take(k));
        lemma_trim_end_take(s.drop_last(), k);
    } else {
        assert(s.take(k) =~= s);
    }
}

/// `s` without leading and trailing white space.
pub fn trim(s: &[char]) -> (r: Vec<char>)
    ensures
        r@ == trim_spec(s@),
{
    let n = s.len();
    let mut a: usize = 0;
    while a < n && is_space_char(s[a])
        invariant
            n == s@.len(),
            a <= n,
            forall|j: int| 0 <= j < a ==> is_space(s@[j]),
        decreases n - a,
    {
        a = a + 1;
    }
    proof {
        lemma_trim_start_skip(s@, a as int);
    }
    let ghost mid = s@.skip(a as int);
    let mut b: usize = n;
    while b > a && is_space_char(s[b - 1])
        invariant
            n == s@.len(),
            a <= b <= n,
            forall|j: int| b <= j < n ==> is_space(s@[j]),
        decreases b,
    {
        b = b - 1;
    }
    proof {
        assert forall|j: int| (b - a) <= j < mid.len() implies is_space(mid[j]) by {
            assert(mid[j] == s@[a + j]);
        }
        lemma_trim_end_take(mid, (b - a) as int);
        if a < n {
            assert(!is_space(mid[0]));
        }
    }
    let r = slice_range(s, a, b);
    assert(r@ =~= mid.take((b - a) as int));
    r
}

/// The characters of `s` from position `a` up to, not including, `b`.
pub fn slice_range(s: &[char], a: usize, b: usize) -> (r: Vec<char>)
    requires
        a <= b <= s@.len(),
    ensures
        r@ == s@.subrange(a as int, b as int),
{
    let mut r: Vec<char> = Vec::new();
    let mut i = a;
    while i < b
        invariant
            a <= i <= b,
            b <= s@.len(),
            r@ == s@.subrange(a as int, i as int),
        decreases b - i,
    {
        r.push(s[i]);
        i = i + 1;
        assert(r@ =~= s@.subrange(a as int, i as int));
    }
    r
}

/// Whether `s` begins with `p`.
pub fn starts_with(s: &[char], p: &[char]) -> (r: bool)
    ensures
        r == occurs_at(s@, p@, 0),
{
    matches_at(s, p, 0)
}

/// `s` without the prefix `p`, when `s` begins with it.
pub fn strip_prefix(s: &[char], p: &[char]) -> (r: Option<Vec<char>>)
    ensures
        match r {
            Some(rest) => occurs_at(s@, p@, 0) && rest@ == s@.skip(p@.len() as int),
            None => !occurs_at(s@, p@, 0),
        },
{
    if matches_at(s, p, 0) {
        let r = slice_range(s, p.len(), s.len());
        assert(r@ =~= s@.skip(p@.len() as int));
        Some(r)
    } else {
        None
    }
}

/// `s` without all of its leading copies of `c`.
pub open spec fn trim_start_char_spec(s: Seq<char>, c: char) -> Seq<char>
    decreases s.len(),
{
    if s.len() > 0 && s[0] == c {
        trim_start_char_spec(s.skip(1), c)
    } else {
        s
    }
}

/// `s` without all of its trailing copies of `c`.
pub open spec fn trim_end_char_spec(s: Seq<char>, c: char) -> Seq<char>
    decreases s.len(),
{
    if s.len() > 0 && s.last() == c {
        trim_end_char_spec(s.drop_last(), c)
    } else {
        s
    }
}

/// `s` without all of its leading copies of `c`, as `str::trim_start_matches(c)` gives it.
pub fn trim_start_char(s: &[char], c: char) -> (r: Vec<char>)
    ensures
        r@ == trim_start_char_spec(s@, c),
{
    let n = s.len();
    let mut a: usize = 0;
    assert(s@.skip(0) =~= s@);
    while a < n && s[a] == c
        invariant
            n == s@.len(),
            a <= n,
            trim_start_char_spec(s@, c) == trim_start_char_spec(s@.skip(a as int), c),
        decreases n - a,
    {
        assert(s@.skip(a as int).skip(1) =~= s@.skip(a + 1));
        a = a + 1;
    }
    let r = slice_range(s, a, n);
    assert(r@ =~= s@.skip(a as int));
    r
}

/// `s` without all of its trailing copies of `c`, as `str::trim_end_matches(c)` gives it.
pub fn trim_end_char(s: &[char], c: char) -> (r: Vec<char>)
    ensures
        r@ == trim_end_char_spec(s@, c),
{
    let n = s.len();
    let mut b: usize = n;
    assert(s@.take(n as int) =~= s@);
    while b > 0 && s[b - 1] == c
        invariant
            n == s@.len(),
            b <= n,
            trim_end_char_spec(s@, c) == trim_end_char_spec(s@.take(b as int), c),
        decreases b,
    {
        assert(s@.take(b as int).drop_last() =~= s@.take(b - 1));
        b = b - 1;
    }
    let r = slice_range(s, 0, b);
    assert(r@ =~= s@.take(b as int));
    r
}

/// The lines of `s`, as `str::lines` splits them: at each `\n`, with one `\r` just before
/// it dropped, and no empty line after a final `\n`.
pub open spec fn lines_spec(s: Seq<char>) -> Seq<Seq<char>>
    decreases s.len(),
{
    if s.len() == 0 {
        Seq::empty()
    } else {
        match first_match(s, seq!['\n']) {
            None => seq![s],
            Some(k) => {
                proof {
                    lemma_first_match_bound(s, seq!['\n']);
                }
                seq![strip_cr(s.take(k))] + lines_spec(s.skip(k + 1))
            },
        }
    }
}

/// `s` without one final `\r`.
pub open spec fn strip_cr(s: Seq<char>) -> Seq<char> {
    if s.len() > 0 && s.last() == '\r' {
        s.drop_last()
    } else {
        s
    }
}

/// A first match lies inside the sequence.
pub proof fn lemma_first_match_bound(s: Seq<char>, pat: Seq<char>)
    ensures
        first_match(s, pat) matches Some(k) ==> 0 <= k && k + pat.len() <= s.len(),
{
    lemma_first_match_from_props(s, pat, 0);
}


/// The views of a list of character vectors.
pub open spec fn views(v: Seq<Vec<char>>) -> Seq<Seq<char>> {
    v.map_values(|x: Vec<char>| x@)
}

fn strip_cr_vec(v: Vec<char>) -> (r: Vec<char>)
    ensures
        r@ == strip_cr(v@),
{
    let mut v = v;
    if v.len() > 0 && v[v.len() - 1] == '\r' {
        v.pop();
    }
    v
}

/// The lines of `s`, split as `str::lines` splits them.
pub fn split_lines(s: &[char]) -> (r: Vec<Vec<char>>)
    ensures
        views(r@) == lines_spec(s@),
{
    let n = s.len();
    let mut out: Vec<Vec<char>> = Vec::new();
    let mut i: usize = 0;
    assert(s@.skip(0) =~= s@);
    assert(views(out@) + lines_spec(s@) =~= lines_spec(s@));
    while i < n
        invariant
            n == s@.len(),
            i <= n,
            views(out@) + lines_spec(s@.skip(i as int)) == lines_spec(s@),
        decreases n - i,
    {
        let rest = slice_range(s, i, n);
        assert(rest@ =~= s@.skip(i as int));
        let nl = ['\n'];
        assert(nl@ =~= seq!['\n']);
        let ghost before = views(out@);
        match find(rest.as_slice(), &nl) {
            None => {
                out.push(rest);
                assert(views(out@) =~= before + seq![s@.skip(i as int)]);
                assert(s@.skip(n as int) =~= Seq::<char>::empty());
                assert(views(out@) + lines_spec(s@.skip(n as int)) =~= views(out@));
                i = n;
            },
            Some(k) => {
                proof {
                    lemma_first_match_bound(rest@, seq!['\n']);
                }
                let line = strip_cr_vec(slice_range(rest.as_slice(), 0, k));
                assert(rest@.subrange(0, k as int) =~= rest@.take(k as int));
                out.push(line);
                assert(views(out@) =~= before + seq![strip_cr(rest@.take(k as int))]);
                assert(rest@.skip(k + 1) =~= s@.skip(i + k + 1));
                assert(views(out@) + lines_spec(s@.skip(i + k + 1)) =~= before + lines_spec(rest@));
                i = i + k + 1;
            },
        }
    }
    assert(s@.skip(n as int) =~= Seq::<char>::empty());
    assert(views(out@) =~= views(out@) + lines_spec(s@.skip(n as int)));
    out
}


/// Whether `a` and `b` hold the same characters.
pub fn same_chars(a: &[char], b: &[char]) -> (r: bool)
    ensures
        r == (a@ == b@),
{
    if a.len() != b.len() {
        return false;
    }
    let r = matches_at(a, b, 0);
    assert(a@.subrange(0, b@.len() as int) =~= a@);
    r
}

/// Whether the strings `a` and `b` hold the same characters.
pub fn same_str(a: &str, b: &str) -> (r: bool)
    ensures
        r == (a@ == b@),
{
    let x = chars_of(a);
    let y = chars_of(b);
    same_chars(x.as_slice(), y.as_slice())
}


/// Replacing a pattern by something no longer never lengthens a sequence.
pub proof fn lemma_replace_all_len_le(s: Seq<char>, pat: Seq<char>, rep: Seq<char>)
    requires
        rep.len() <= pat.len(),
    ensures
        replace_all(s, pat, rep).len() <= s.len(),
    decreases s.len(),
{
    if pat.len() == 0 || s.len() < pat.len() {
    } else if s.subrange(0, pat.len() as int) == pat {
        lemma_replace_all_len_le(s.skip(pat.len() as int), pat, rep);
    } else {
        lemma_replace_all_len_le(s.skip(1), pat, rep);
    }
}

/// Replacing a pattern that occurs by something shorter shortens a sequence.
pub proof fn lemma_replace_all_len_lt(s: Seq<char>, pat: Seq<char>, rep: Seq<char>, i: int)
    requires
        rep.len() < pat.len(),
        occurs_at(s, pat, i),
    ensures
        replace_all(s, pat, rep).len() < s.len(),
    decreases s.len(),
{
    if s.subrange(0, pat.len() as int) == pat {
        lemma_replace_all_len_le(s.skip(pat.len() as int), pat, rep);
    } else {
        if i == 0 {
            assert(false);
        }
        assert(s.skip(1).subrange(i - 1, i - 1 + pat.len()) =~= s.subrange(i, i + pat.len()));
        lemma_replace_all_len_lt(s.skip(1), pat, rep, i - 1);
    }
}

/// The concatenation of `a` and `b`.
pub fn concat_chars(a: &[char], b: &[char]) -> (r: Vec<char>)
    ensures
        r@ == a@ + b@,
{
    let mut r = slice_range(a, 0, a.len());
    assert(r@ =~= a@);
    let mut i: usize = 0;
    while i < b.len()
        invariant
            i <= b@.len(),
            r@ == a@ + b@.subrange(0, i as int),
        decreases b@.len() - i,
    {
        r.push(b[i]);
        i = i + 1;
        assert(r@ =~= a@ + b@.subrange(0, i as int));
    }
    assert(b@.subrange(0, b@.len() as int) =~= b@);
    r
}


/// Append the characters of `s` to `out`.
pub fn push_str(out: &mut Vec<char>, s: &str)
    ensures
        final(out)@ == old(out)@ + s@,
{
    let c = chars_of(s);
    push_chars(out, c.as_slice());
}

/// Append `s` to `out`.
pub fn push_chars(out: &mut Vec<char>, s: &[char])
    ensures
        final(out)@ == old(out)@ + s@,
{
    let ghost start = out@;
    let mut i: usize = 0;
    while i < s.len()
        invariant
            i <= s@.len(),
            out@ == start + s@.subrange(0, i as int),
        decreases s@.len() - i,
    {
        out.push(s[i]);
        i = i + 1;
        assert(out@ =~= start + s@.subrange(0, i as int));
    }
    assert(s@.subrange(0, s@.len() as int) =~= s@);
}

/// The parts joined with line feeds between them, as `join("\n")` joins them.
pub open spec fn join_lines(parts: Seq<Seq<char>>) -> Seq<char>
    decreases parts.len(),
{
    if parts.len() == 0 {
        Seq::empty()
    } else if parts.len() == 1 {
        parts[0]
    } else {
        join_lines(parts.drop_last()) + seq!['\n'] + parts.last()
    }
}

/// The parts joined with line feeds between them.
pub fn join_with_newlines(parts: &Vec<Vec<char>>) -> (r: Vec<char>)
    ensures
        r@ == join_lines(views(parts@)),
{
    let mut out: Vec<char> = Vec::new();
    let mut i: usize = 0;
    assert(views(parts@.take(0)) =~= Seq::<Seq<char>>::empty());
    while i < parts.len()
        invariant
            i <= parts@.len(),
            out@ == join_lines(views(parts@.take(i as int))),
        decreases parts@.len() - i,
    {
        let ghost prev = views(parts@.take(i as int));
        assert(views(parts@.take(i + 1)).drop_last() =~= prev);
        assert(views(parts@.take(i + 1)).last() == parts@[i as int]@);
        let ghost before = out@;
        if i > 0 {
            out.push('\n');
        }
        push_chars(&mut out, parts[i].as_slice());
        proof {
            if i == 0 {
                assert(out@ =~= parts@[0]@);
                assert(views(parts@.take(1))[0] == parts@[0]@);
            } else {
                assert(out@ =~= before + seq!['\n'] + parts@[i as int]@);
            }
        }
        i = i + 1;
    }
    assert(parts@.take(parts@.len() as int) =~= parts@);
    out
}

} // verus!
