//! Low-level recognizers shared by the higher parsers: character classes,
//! maximal runs of a class, literal tags, and the dotted version token.
use vstd::prelude::*;
use vstd::string::*;
use vstd::std_specs::iter::IteratorSpec;

verus! {

/// The character classes the grammars are built from.
#[derive(Clone, Copy, PartialEq, Eq, Debug)]
pub enum CharClass {
    /// `0-9`
    Digit,
    /// `0-9a-zA-Z`
    Alnum,
    /// `0-9a-zA-Z_`
    Word,
    /// `.` or `-`
    VersionSep,
    /// `0-9a-f`
    LowerHex,
    /// anything but a space or a slash
    NameChar,
}

pub open spec fn is_digit(c: char) -> bool {
    '0' <= c && c <= '9'
}

pub open spec fn is_alnum(c: char) -> bool {
    is_digit(c) || ('a' <= c && c <= 'z') || ('A' <= c && c <= 'Z')
}

pub open spec fn in_class(cls: CharClass, c: char) -> bool {
    match cls {
        CharClass::Digit => is_digit(c),
        CharClass::Alnum => is_alnum(c),
        CharClass::Word => is_alnum(c) || c == '_',
        CharClass::VersionSep => c == '.' || c == '-',
        CharClass::LowerHex => is_digit(c) || ('a' <= c && c <= 'f'),
        CharClass::NameChar => c != ' ' && c != '/',
    }
}

pub fn class_contains(cls: CharClass, c: char) -> (r: bool)
    ensures
        r == in_class(cls, c),
{
    match cls {
        CharClass::Digit => '0' <= c && c <= '9',
        CharClass::Alnum => ('0' <= c && c <= '9') || ('a' <= c && c <= 'z') || ('A' <= c
            && c <= 'Z'),
        CharClass::Word => ('0' <= c && c <= '9') || ('a' <= c && c <= 'z') || ('A' <= c && c
            <= 'Z') || c == '_',
        CharClass::VersionSep => c == '.' || c == '-',
        CharClass::LowerHex => ('0' <= c && c <= '9') || ('a' <= c && c <= 'f'),
        CharClass::NameChar => c != ' ' && c != '/',
    }
}

/// End of the longest run of `cls` characters that starts at `i`
/// (`i` itself when the run is empty).
pub open spec fn run_end(s: Seq<char>, i: int, cls: CharClass) -> int
    decreases s.len() - i,
{
    if 0 <= i < s.len() && in_class(cls, s[i]) {
        run_end(s, i + 1, cls)
    } else {
        i
    }
}

pub proof fn lemma_run_end_bounds(s: Seq<char>, i: int, cls: CharClass)
    requires
        0 <= i <= s.len(),
    ensures
        i <= run_end(s, i, cls) <= s.len(),
        forall|k: int| i <= k < run_end(s, i, cls) ==> in_class(cls, #[trigger] s[k]),
        run_end(s, i, cls) < s.len() ==> !in_class(cls, s[run_end(s, i, cls)]),
    decreases s.len() - i,
{
    if i < s.len() && in_class(cls, s[i]) {
        lemma_run_end_bounds(s, i + 1, cls);
    }
}

pub fn scan_run(s: &Vec<char>, i: usize, cls: CharClass) -> (r: usize)
    requires
        i <= s@.len(),
    ensures
        r == run_end(s@, i as int, cls),
        i <= r <= s@.len(),
{
    proof {
        lemma_run_end_bounds(s@, i as int, cls);
    }
    let mut j = i;
    while j < s.len() && class_contains(cls, s[j])
        invariant
            i <= j <= s@.len(),
            run_end(s@, j as int, cls) == run_end(s@, i as int, cls),
        decreases s@.len() - j,
    {
        j = j + 1;
    }
    j
}

/// An executable position agrees with a spec one.
pub open spec fn same_index(r: Option<usize>, o: Option<int>) -> bool {
    match r {
        Some(k) => o == Some(k as int),
        None => o is None,
    }
}

/// `t` occurs in `s` at position `i`.
pub open spec fn has_tag_at(s: Seq<char>, i: int, t: Seq<char>) -> bool {
    0 <= i && i + t.len() <= s.len() && s.subrange(i, i + t.len()) == t
}

pub fn tag_at(s: &Vec<char>, i: usize, t: &str) -> (r: bool)
    ensures
        r == has_tag_at(s@, i as int, t@),
{
    let n = t.unicode_len();
    if n > s.len() || i > s.len() - n {
        return false;
    }
    let mut k: usize = 0;
    while k < n
        invariant
            k <= n,
            n == t@.len(),
            i + n <= s.len(),
            forall|m: int| 0 <= m < k ==> s@[i + m] == t@[m],
        decreases n - k,
    {
        if s[i + k] != t.get_char(k) {
            return false;
        }
        k = k + 1;
    }
    assert(s@.subrange(i as int, i + n) =~= t@);
    true
}

/// First position at or after `i` where `c` occurs.
pub open spec fn find_char(s: Seq<char>, i: int, c: char) -> Option<int>
    decreases s.len() - i,
{
    if i < 0 || i >= s.len() {
        None
    } else if s[i] == c {
        Some(i)
    } else {
        find_char(s, i + 1, c)
    }
}

pub proof fn lemma_find_char(s: Seq<char>, i: int, c: char)
    requires
        0 <= i,
    ensures
        match find_char(s, i, c) {
            Some(k) => i <= k < s.len() && s[k] == c && forall|m: int|
                i <= m < k ==> s[m] != c,
            None => forall|m: int| i <= m < s.len() ==> s[m] != c,
        },
    decreases s.len() - i,
{
    if i < s.len() && s[i] != c {
        lemma_find_char(s, i + 1, c);
    }
}

pub fn scan_char(s: &Vec<char>, i: usize, c: char) -> (r: Option<usize>)
    ensures
        same_index(r, find_char(s@, i as int, c)),
{
    let mut j = i;
    while j < s.len()
        invariant
            i <= j,
            find_char(s@, j as int, c) == find_char(s@, i as int, c),
        decreases s@.len() - j,
    {
        if s[j] == c {
            return Some(j);
        }
        j = j + 1;
    }
    None
}

/// The dotted version token starting at `i`: one or more digits, then
/// optionally `.` and a list of alphanumeric segments separated by runs of
/// `.` and `-`. Returns where the longest such token ends.
pub open spec fn version_end(s: Seq<char>, i: int) -> Option<int> {
    let d = run_end(s, i, CharClass::Digit);
    if d == i {
        None
    } else if d < s.len() && s[d] == '.' && run_end(s, d + 1, CharClass::Alnum) > d + 1 {
        Some(version_segments_end(s, run_end(s, d + 1, CharClass::Alnum)))
    } else {
        Some(d)
    }
}

/// Extends a version past further `[.-]+ alnum+` segments.
pub open spec fn version_segments_end(s: Seq<char>, p: int) -> int
    decreases s.len() - p,
{
    if p < 0 || p >= s.len() {
        p
    } else {
        let q = run_end(s, p, CharClass::VersionSep);
        let e = run_end(s, q, CharClass::Alnum);
        if q > p && e > q && e <= s.len() {
            version_segments_end(s, e)
        } else {
            p
        }
    }
}

pub proof fn lemma_version_segments_end_bounds(s: Seq<char>, p: int)
    requires
        0 <= p <= s.len(),
    ensures
        p <= version_segments_end(s, p) <= s.len(),
    decreases s.len() - p,
{
    if p < s.len() {
        let q = run_end(s, p, CharClass::VersionSep);
        lemma_run_end_bounds(s, p, CharClass::VersionSep);
        lemma_run_end_bounds(s, q, CharClass::Alnum);
        let e = run_end(s, q, CharClass::Alnum);
        if q > p && e > q && e <= s.len() {
            lemma_version_segments_end_bounds(s, e);
        }
    }
}

pub proof fn lemma_version_end_bounds(s: Seq<char>, i: int)
    requires
        0 <= i <= s.len(),
    ensures
        version_end(s, i) matches Some(e) ==> i < e <= s.len(),
{
    lemma_run_end_bounds(s, i, CharClass::Digit);
    let d = run_end(s, i, CharClass::Digit);
    if d != i && d < s.len() && s[d] == '.' {
        lemma_run_end_bounds(s, d + 1, CharClass::Alnum);
        let a = run_end(s, d + 1, CharClass::Alnum);
        if a > d + 1 {
            lemma_version_segments_end_bounds(s, a);
        }
    }
}

pub fn scan_version(s: &Vec<char>, i: usize) -> (r: Option<usize>)
    requires
        i <= s@.len(),
    ensures
        same_index(r, version_end(s@, i as int)),
        r matches Some(e) ==> i < e <= s@.len(),
{
    proof {
        lemma_version_end_bounds(s@, i as int);
    }
    let d = scan_run(s, i, CharClass::Digit);
    if d == i {
        return None;
    }
    if d < s.len() && s[d] == '.' {
        let a = scan_run(s, d + 1, CharClass::Alnum);
        if a > d + 1 {
            let mut p = a;
            proof {
                lemma_version_segments_end_bounds(s@, p as int);
            }
            loop
                invariant
                    i < a <= p <= s@.len(),
                    version_segments_end(s@, p as int) == version_segments_end(s@, a as int),
                    version_end(s@, i as int) == Some(version_segments_end(s@, a as int)),
                decreases s@.len() - p,
            {
                if p >= s.len() {
                    return Some(p);
                }
                let q = scan_run(s, p, CharClass::VersionSep);
                let e = scan_run(s, q, CharClass::Alnum);
                if q > p && e > q {
                    p = e;
                } else {
                    return Some(p);
                }
            }
        }
    }
    Some(d)
}

/// The characters of `s`, for the char-indexed scanners above.
pub fn chars_of(s: &str) -> (r: Vec<char>)
    ensures
        r@ == s@,
{
    let mut out: Vec<char> = Vec::new();
    fill_chars(&mut out, s);
    out
}

/// Replaces the contents of `buf` by the characters of `a`.
pub fn fill_chars(buf: &mut Vec<char>, a: &str)
    ensures
        final(buf)@ == a@,
{
    broadcast use vstd::string::group_string_axioms;

    buf.clear();
    let mut it = a.chars();
    loop
        invariant
            buf@ + it.remaining() == a@,
            it.decrease() is Some,
        decreases it.decrease()->0,
    {
        match it.next() {
            Some(c) => {
                buf.push(c);
            },
            None => {
                return;
            },
        }
    }
}

/// Where `t` ends when it occurs at `k`.
pub fn expect_tag(s: &Vec<char>, k: usize, t: &str) -> (r: Option<usize>)
    ensures
        match r {
            Some(e) => has_tag_at(s@, k as int, t@) && e == k + t@.len() && e <= s@.len(),
            None => !has_tag_at(s@, k as int, t@),
        },
{
    let len = s.len();
    let n = t.unicode_len();
    if tag_at(s, k, t) {
        assert(k + n <= len);
        Some(k + n)
    } else {
        None
    }
}

/// The `sep`-separated pieces of `s` as index ranges, scanning from `i`
/// with the current piece starting at `start`.
pub open spec fn sep_ranges_from(s: Seq<char>, sep: char, start: int, i: int) -> Seq<(int, int)>
    decreases s.len() - i,
{
    if i >= s.len() {
        seq![(start, s.len() as int)]
    } else if s[i] == sep {
        seq![(start, i)] + sep_ranges_from(s, sep, i + 1, i + 1)
    } else {
        sep_ranges_from(s, sep, start, i + 1)
    }
}

pub open spec fn sep_ranges(s: Seq<char>, sep: char) -> Seq<(int, int)> {
    sep_ranges_from(s, sep, 0, 0)
}

pub open spec fn pos_ranges(r: Seq<(usize, usize)>) -> Seq<(int, int)> {
    r.map_values(|x: (usize, usize)| (x.0 as int, x.1 as int))
}

pub open spec fn ranges_in(r: Seq<(usize, usize)>, n: int) -> bool {
    forall|k: int| 0 <= k < r.len() ==> #[trigger] r[k].0 <= r[k].1 <= n
}

pub fn split_ranges(c: &Vec<char>, sep: char) -> (r: Vec<(usize, usize)>)
    ensures
        pos_ranges(r@) == sep_ranges(c@, sep),
        ranges_in(r@, c@.len() as int),
{
    let n = c.len();
    let mut ranges: Vec<(usize, usize)> = Vec::new();
    let mut start: usize = 0;
    let mut i: usize = 0;
    while i < n
        invariant
            n == c@.len(),
            start <= i <= n,
            pos_ranges(ranges@) + sep_ranges_from(c@, sep, start as int, i as int) == sep_ranges(c@, sep),
            ranges_in(ranges@, n as int),
        decreases n - i,
    {
        if c[i] == sep {
            let ghost old_ranges = ranges@;
            ranges.push((start, i));
            assert(pos_ranges(ranges@) =~= pos_ranges(old_ranges).push((start as int, i as int)));
            assert(pos_ranges(ranges@) + sep_ranges_from(c@, sep, i + 1, i + 1) =~= pos_ranges(
                old_ranges,
            ) + sep_ranges_from(c@, sep, start as int, i as int));
            start = i + 1;
        }
        i = i + 1;
    }
    let ghost before = ranges@;
    ranges.push((start, n));
    assert(pos_ranges(ranges@) =~= pos_ranges(before) + sep_ranges_from(c@, sep, start as int, i as int));
    ranges
}

/// Recognizes a dotted version at the start of `s`: the rest of `s` and the
/// version, or `None` when `s` does not start with a digit.
pub fn version(s: &str) -> (r: Option<(String, String)>)
    ensures
        match version_end(s@, 0) {
            Some(e) => r matches Some(p) && p.0@ == s@.subrange(e, s@.len() as int) && p.1@
                == s@.subrange(0, e),
            None => r is None,
        },
{
    let c = chars_of(s);
    match scan_version(&c, 0) {
        Some(e) => Some((s.substring_char(e, c.len()).to_owned(), s.substring_char(0, e).to_owned())),
        None => None,
    }
}

} // verus!
