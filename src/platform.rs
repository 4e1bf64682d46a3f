//! Decomposition of dash-joined platform identifiers such as
//! `x86_64-linux-gnu` into cpu, operating system and os version.
use vstd::prelude::*;
use vstd::string::*;
use crate::grammar::{
    CharClass,
    chars_of,
    has_tag_at,
    same_index,
    in_class,
    is_digit,
    lemma_run_end_bounds,
    run_end,
    scan_run,
    tag_at,
};

verus! {

#[derive(Debug, Clone, Copy, PartialEq, Eq)]
pub enum PlatformArgumentError {
    MissingCPU,
}

/// A decomposed platform: `os` is always present and is `unknown` when no
/// operating-system family was recognized.
#[derive(Debug)]
pub struct Platform {
    pub cpu: Option<String>,
    pub os: String,
    pub version: Option<String>,
}

pub struct PlatformView {
    pub cpu: Option<Seq<char>>,
    pub os: Seq<char>,
    pub version: Option<Seq<char>>,
}

pub open spec fn opt_view(o: Option<String>) -> Option<Seq<char>> {
    match o {
        Some(s) => Some(s@),
        None => None,
    }
}

impl View for Platform {
    type V = PlatformView;

    open spec fn view(&self) -> PlatformView {
        PlatformView { cpu: opt_view(self.cpu), os: self.os@, version: opt_view(self.version) }
    }
}

fn opt_string_eq(a: &Option<String>, b: &Option<String>) -> (r: bool)
    ensures
        r == (opt_view(*a) == opt_view(*b)),
{
    match (a, b) {
        (Some(x), Some(y)) => *x == *y,
        (None, None) => true,
        _ => false,
    }
}

impl PartialEq for Platform {
    fn eq(&self, other: &Platform) -> (r: bool)
        ensures
            r == (self@ == other@),
    {
        opt_string_eq(&self.cpu, &other.cpu) && self.os == other.os && opt_string_eq(
            &self.version,
            &other.version,
        )
    }
}

impl vstd::std_specs::cmp::PartialEqSpecImpl for Platform {
    open spec fn obeys_eq_spec() -> bool {
        true
    }

    open spec fn eq_spec(&self, other: &Platform) -> bool {
        self@ == other@
    }
}

// ---------------------------------------------------------------------
// Splitting on dashes
// ---------------------------------------------------------------------
/// The `-`-separated segments of `s` as index ranges, scanning from `i`
/// with the current segment starting at `start`.
pub open spec fn dash_ranges_from(s: Seq<char>, start: int, i: int) -> Seq<(int, int)>
    decreases s.len() - i,
{
    if i >= s.len() {
        seq![(start, s.len() as int)]
    } else if s[i] == '-' {
        seq![(start, i)] + dash_ranges_from(s, i + 1, i + 1)
    } else {
        dash_ranges_from(s, start, i + 1)
    }
}

pub open spec fn dash_ranges(s: Seq<char>) -> Seq<(int, int)> {
    dash_ranges_from(s, 0, 0)
}

/// Drops empty segments from the end (a trailing separator).
pub open spec fn drop_trailing_empty(r: Seq<(int, int)>) -> Seq<(int, int)>
    decreases r.len(),
{
    if r.len() > 0 && r.last().0 == r.last().1 {
        drop_trailing_empty(r.drop_last())
    } else {
        r
    }
}

/// `^\d+(?:\.\d+)?$`: digits, optionally a dot and more digits.
pub open spec fn is_dotted(t: Seq<char>) -> bool {
    let d = run_end(t, 0, CharClass::Digit);
    d > 0 && (d == t.len() || (t[d] == '.' && d + 1 < t.len() && run_end(t, d + 1, CharClass::Digit)
        == t.len()))
}

/// When more than two segments remain and the last is not a dotted number,
/// the last two are one segment that itself held a dash.
pub open spec fn fuse_last(s: Seq<char>, r: Seq<(int, int)>) -> Seq<(int, int)> {
    if r.len() > 2 && !is_dotted(s.subrange(r.last().0, r.last().1)) {
        r.take(r.len() - 2).push((r[r.len() - 2].0, r.last().1))
    } else {
        r
    }
}

pub open spec fn segments(s: Seq<char>) -> Seq<(int, int)> {
    fuse_last(s, drop_trailing_empty(dash_ranges(s)))
}

// ---------------------------------------------------------------------
// Substring searches used by the os-family rules
// ---------------------------------------------------------------------
/// First position at or after `i` where `t` occurs in `s`.
pub open spec fn find_tag(s: Seq<char>, i: int, t: Seq<char>) -> Option<int>
    decreases s.len() - i,
{
    if i < 0 || i >= s.len() {
        None
    } else if has_tag_at(s, i, t) {
        Some(i)
    } else {
        find_tag(s, i + 1, t)
    }
}

pub open spec fn contains(s: Seq<char>, t: Seq<char>) -> bool {
    find_tag(s, 0, t) is Some
}

/// `i\d86` occurs at `i`.
pub open spec fn i86_at(s: Seq<char>, i: int) -> bool {
    0 <= i && i + 4 <= s.len() && s[i] == 'i' && is_digit(s[i + 1]) && s[i + 2] == '8' && s[i + 3]
        == '6'
}

pub open spec fn has_i86_from(s: Seq<char>, i: int) -> bool
    decreases s.len() - i,
{
    if i < 0 || i >= s.len() {
        false
    } else {
        i86_at(s, i) || has_i86_from(s, i + 1)
    }
}

/// The first `mswin` that is followed by a digit.
pub open spec fn find_mswin(s: Seq<char>, i: int) -> Option<int>
    decreases s.len() - i,
{
    if i < 0 || i >= s.len() {
        None
    } else if has_tag_at(s, i, "mswin"@) && i + 5 < s.len() && is_digit(s[i + 5]) {
        Some(i)
    } else {
        find_mswin(s, i + 1)
    }
}

/// `(\d+)?` at `p`: the digits there, if any.
pub open spec fn opt_digits(s: Seq<char>, p: int) -> Option<Seq<char>> {
    let e = run_end(s, p, CharClass::Digit);
    if e > p {
        Some(s.subrange(p, e))
    } else {
        None
    }
}

/// `\d+(?:\.\d+)*` at `p`: where the longest such run ends.
pub open spec fn dotted_digits_end(s: Seq<char>, p: int) -> Option<int> {
    let d = run_end(s, p, CharClass::Digit);
    if d > p {
        Some(more_dotted_digits(s, d))
    } else {
        None
    }
}

pub open spec fn more_dotted_digits(s: Seq<char>, p: int) -> int
    decreases s.len() - p,
{
    let e = run_end(s, p + 1, CharClass::Digit);
    if 0 <= p && p + 1 < s.len() && s[p] == '.' && is_digit(s[p + 1]) && p < e <= s.len() {
        more_dotted_digits(s, e)
    } else {
        p
    }
}

/// `-?(\w+)?` at `p`: the word after an optional dash, if any.
pub open spec fn opt_dash_word(s: Seq<char>, p: int) -> Option<Seq<char>> {
    let q = if 0 <= p < s.len() && s[p] == '-' {
        p + 1
    } else {
        p
    };
    let e = run_end(s, q, CharClass::Word);
    if e > q {
        Some(s.subrange(q, e))
    } else {
        None
    }
}

/// `(\d+\.\d+)?` at `p`.
pub open spec fn opt_two_part(s: Seq<char>, p: int) -> Option<Seq<char>> {
    let d = run_end(s, p, CharClass::Digit);
    if d > p && d + 1 < s.len() && s[d] == '.' && is_digit(s[d + 1]) {
        Some(s.subrange(p, run_end(s, d + 1, CharClass::Digit)))
    } else {
        None
    }
}

/// `(?:_(\d+))?` at `p`.
pub open spec fn opt_underscore_digits(s: Seq<char>, p: int) -> Option<Seq<char>> {
    if 0 <= p && p + 1 < s.len() && s[p] == '_' && is_digit(s[p + 1]) {
        Some(s.subrange(p + 1, run_end(s, p + 1, CharClass::Digit)))
    } else {
        None
    }
}

/// What the os-family rules make of an os segment: the os name, its version,
/// and whether a missing cpu is to be taken as `x86`.
pub struct OsRule {
    pub os: Seq<char>,
    pub version: Option<Seq<char>>,
    pub x86_without_cpu: bool,
}

pub open spec fn rule(os: Seq<char>, version: Option<Seq<char>>) -> OsRule {
    OsRule { os, version, x86_without_cpu: false }
}

/// The os-family rules, in priority order; the first that matches wins.
pub open spec fn os_rule(t: Seq<char>) -> OsRule {
    if contains(t, "aix"@) {
        rule("aix"@, opt_digits(t, find_tag(t, 0, "aix"@)->0 + 3))
    } else if contains(t, "cygwin"@) {
        rule("cygwin"@, None)
    } else if contains(t, "darwin"@) {
        rule("darwin"@, opt_digits(t, find_tag(t, 0, "darwin"@)->0 + 6))
    } else if t == "macruby"@ {
        rule("macruby"@, None)
    } else if contains(t, "freebsd"@) {
        rule("freebsd"@, opt_digits(t, find_tag(t, 0, "freebsd"@)->0 + 7))
    } else if t == "java"@ || t == "jruby"@ {
        rule("java"@, None)
    } else if has_tag_at(t, 0, "java"@) {
        rule(
            "java"@,
            match dotted_digits_end(t, 4) {
                Some(e) => Some(t.subrange(4, e)),
                None => None,
            },
        )
    } else if has_tag_at(t, 0, "dalvik"@) && run_end(t, 6, CharClass::Digit) == t.len() {
        rule("dalvik"@, opt_digits(t, 6))
    } else if t == "dotnet"@ {
        rule("dotnet"@, None)
    } else if has_tag_at(t, 0, "dotnet"@) && dotted_digits_end(t, 6) is Some {
        rule("dotnet"@, Some(t.subrange(6, dotted_digits_end(t, 6)->0)))
    } else if contains(t, "linux"@) {
        rule("linux"@, opt_dash_word(t, find_tag(t, 0, "linux"@)->0 + 5))
    } else if contains(t, "mingw32"@) {
        rule("mingw32"@, None)
    } else if contains(t, "mingw"@) {
        rule("mingw"@, opt_dash_word(t, find_tag(t, 0, "mingw"@)->0 + 5))
    } else if find_mswin(t, 0) is Some {
        let k = find_mswin(t, 0)->0;
        let e = run_end(t, k + 5, CharClass::Digit);
        let name = t.subrange(k, e);
        OsRule {
            os: name,
            version: opt_underscore_digits(t, e),
            x86_without_cpu: name.len() >= 2 && name[name.len() - 2] == '3' && name.last()
                == '2',
        }
    } else if contains(t, "netbsdelf"@) {
        rule("netbsdelf"@, None)
    } else if contains(t, "openbsd"@) {
        rule("openbsd"@, opt_two_part(t, find_tag(t, 0, "openbsd"@)->0 + 7))
    } else if contains(t, "solaris"@) {
        rule("solaris"@, opt_two_part(t, find_tag(t, 0, "solaris"@)->0 + 7))
    } else if contains(t, "wasi"@) {
        rule("wasi"@, None)
    } else {
        rule("unknown"@, None)
    }
}

/// Applies the os-family rules to `os`, given the cpu found before it.
pub open spec fn classify(cpu: Option<Seq<char>>, os: Seq<char>) -> PlatformView {
    let r = os_rule(os);
    PlatformView {
        cpu: if cpu is None && r.x86_without_cpu {
            Some("x86"@)
        } else {
            cpu
        },
        os: r.os,
        version: r.version,
    }
}

pub open spec fn range_of(s: Seq<char>, r: (int, int)) -> Seq<char> {
    s.subrange(r.0, r.1)
}

/// The platform that `s` names, or `MissingCPU` when its first segment is
/// empty.
pub open spec fn parse_platform(s: Seq<char>) -> Result<PlatformView, PlatformArgumentError> {
    let p = segments(s);
    if p.len() == 0 || p[0].0 == p[0].1 {
        Err(PlatformArgumentError::MissingCPU)
    } else {
        let first = range_of(s, p[0]);
        let cpu = if has_i86_from(first, 0) {
            "x86"@
        } else {
            first
        };
        if p.len() == 3 && is_dotted(range_of(s, p[2])) {
            Ok(
                PlatformView {
                    cpu: Some(cpu),
                    os: range_of(s, p[1]),
                    version: Some(range_of(s, p[2])),
                },
            )
        } else if p.len() == 1 {
            Ok(classify(None, cpu))
        } else {
            Ok(classify(Some(cpu), range_of(s, p[1])))
        }
    }
}

/// The canonical spelling of a platform: `os` and `version` run together
/// when there is no cpu (`java1.8`), else `cpu-os-version` without the
/// absent parts.
pub open spec fn canonical(p: PlatformView) -> Seq<char> {
    match (p.cpu, p.version) {
        (None, Some(v)) => p.os + v,
        (Some(c), Some(v)) => c + "-"@ + p.os + "-"@ + v,
        (Some(c), None) => c + "-"@ + p.os,
        (None, None) => p.os,
    }
}

// ---------------------------------------------------------------------
// Executable scanners
// ---------------------------------------------------------------------
fn scan_tag(s: &Vec<char>, i: usize, t: &str) -> (r: Option<usize>)
    ensures
        same_index(r, find_tag(s@, i as int, t@)),
        r matches Some(k) ==> i <= k < s@.len(),
{
    let mut j = i;
    while j < s.len()
        invariant
            i <= j,
            find_tag(s@, j as int, t@) == find_tag(s@, i as int, t@),
        decreases s@.len() - j,
    {
        if tag_at(s, j, t) {
            return Some(j);
        }
        j = j + 1;
    }
    None
}

fn scan_i86(s: &Vec<char>) -> (r: bool)
    ensures
        r == has_i86_from(s@, 0),
{
    let mut j: usize = 0;
    while j < s.len()
        invariant
            has_i86_from(s@, j as int) == has_i86_from(s@, 0),
        decreases s@.len() - j,
    {
        if s.len() - j >= 4 && s[j] == 'i' && class_contains_digit(s[j + 1]) && s[j + 2] == '8'
            && s[j + 3] == '6' {
            return true;
        }
        j = j + 1;
    }
    false
}

fn class_contains_digit(c: char) -> (r: bool)
    ensures
        r == is_digit(c),
{
    '0' <= c && c <= '9'
}

fn scan_mswin(s: &Vec<char>) -> (r: Option<usize>)
    ensures
        same_index(r, find_mswin(s@, 0)),
        r matches Some(k) ==> k + 5 < s@.len(),
{
    let mut j: usize = 0;
    while j < s.len()
        invariant
            find_mswin(s@, j as int) == find_mswin(s@, 0),
        decreases s@.len() - j,
    {
        if tag_at(s, j, "mswin") && s.len() - j > 5 && class_contains_digit(s[j + 5]) {
            return Some(j);
        }
        j = j + 1;
    }
    None
}

/// Owned copy of the characters `from..to` of `t`.
pub(crate) fn piece(t: &str, from: usize, to: usize) -> (r: String)
    requires
        from <= to <= t@.len(),
    ensures
        r@ == t@.subrange(from as int, to as int),
{
    t.substring_char(from, to).to_owned()
}

pub(crate) fn literal(t: &str) -> (r: String)
    ensures
        r@ == t@,
{
    t.to_owned()
}

fn exec_opt_digits(t: &str, c: &Vec<char>, p: usize) -> (r: Option<String>)
    requires
        c@ == t@,
        p <= c@.len(),
    ensures
        opt_view(r) == opt_digits(c@, p as int),
{
    let e = scan_run(c, p, CharClass::Digit);
    if e > p {
        Some(piece(t, p, e))
    } else {
        None
    }
}

fn exec_dotted_digits_end(c: &Vec<char>, p: usize) -> (r: Option<usize>)
    requires
        p <= c@.len(),
    ensures
        same_index(r, dotted_digits_end(c@, p as int)),
        r matches Some(e) ==> p < e <= c@.len(),
{
    let d = scan_run(c, p, CharClass::Digit);
    if d == p {
        return None;
    }
    let mut q = d;
    loop
        invariant
            p < q <= c@.len(),
            more_dotted_digits(c@, q as int) == more_dotted_digits(c@, d as int),
            dotted_digits_end(c@, p as int) == Some(more_dotted_digits(c@, d as int)),
        decreases c@.len() - q,
    {
        if q < c.len() && c.len() - q > 1 && c[q] == '.' && class_contains_digit(c[q + 1]) {
            let e = scan_run(c, q + 1, CharClass::Digit);
            q = e;
        } else {
            return Some(q);
        }
    }
}

fn exec_opt_dash_word(t: &str, c: &Vec<char>, p: usize) -> (r: Option<String>)
    requires
        c@ == t@,
        p <= c@.len(),
    ensures
        opt_view(r) == opt_dash_word(c@, p as int),
{
    let q = if p < c.len() && c[p] == '-' {
        p + 1
    } else {
        p
    };
    let e = scan_run(c, q, CharClass::Word);
    if e > q {
        Some(piece(t, q, e))
    } else {
        None
    }
}

fn exec_opt_two_part(t: &str, c: &Vec<char>, p: usize) -> (r: Option<String>)
    requires
        c@ == t@,
        p <= c@.len(),
    ensures
        opt_view(r) == opt_two_part(c@, p as int),
{
    let d = scan_run(c, p, CharClass::Digit);
    if d > p && d < c.len() && c.len() - d > 1 && c[d] == '.' && class_contains_digit(c[d + 1]) {
        let e = scan_run(c, d + 1, CharClass::Digit);
        Some(piece(t, p, e))
    } else {
        None
    }
}

/// Applies the os-family rules to one os segment.
fn exec_os_rule(t: &str) -> (r: (String, Option<String>, bool))
    ensures
        r.0@ == os_rule(t@).os,
        opt_view(r.1) == os_rule(t@).version,
        r.2 == os_rule(t@).x86_without_cpu,
{
    let c = chars_of(t);
    let n = c.len();
    if let Some(k) = scan_tag(&c, 0, "aix") {
        proof {
            lemma_tag_fits(c@, k as int, "aix"@);
            reveal_strlit("aix");
        }
        return (literal("aix"), exec_opt_digits(t, &c, k + 3), false);
    }
    if scan_tag(&c, 0, "cygwin").is_some() {
        return (literal("cygwin"), None, false);
    }
    if let Some(k) = scan_tag(&c, 0, "darwin") {
        proof {
            lemma_tag_fits(c@, k as int, "darwin"@);
            reveal_strlit("darwin");
        }
        return (literal("darwin"), exec_opt_digits(t, &c, k + 6), false);
    }
    if str_eq(t, "macruby") {
        return (literal("macruby"), None, false);
    }
    if let Some(k) = scan_tag(&c, 0, "freebsd") {
        proof {
            lemma_tag_fits(c@, k as int, "freebsd"@);
            reveal_strlit("freebsd");
        }
        return (literal("freebsd"), exec_opt_digits(t, &c, k + 7), false);
    }
    if str_eq(t, "java") || str_eq(t, "jruby") {
        return (literal("java"), None, false);
    }
    if tag_at(&c, 0, "java") {
        proof { reveal_strlit("java"); }
        let v = match exec_dotted_digits_end(&c, 4) {
            Some(e) => Some(piece(t, 4, e)),
            None => None,
        };
        return (literal("java"), v, false);
    }
    if tag_at(&c, 0, "dalvik") {
        proof { reveal_strlit("dalvik"); }
        if scan_run(&c, 6, CharClass::Digit) == n {
            return (literal("dalvik"), exec_opt_digits(t, &c, 6), false);
        }
    }
    if str_eq(t, "dotnet") {
        return (literal("dotnet"), None, false);
    }
    if tag_at(&c, 0, "dotnet") {
        proof { reveal_strlit("dotnet"); }
        if let Some(e) = exec_dotted_digits_end(&c, 6) {
            return (literal("dotnet"), Some(piece(t, 6, e)), false);
        }
    }
    if let Some(k) = scan_tag(&c, 0, "linux") {
        proof {
            lemma_tag_fits(c@, k as int, "linux"@);
            reveal_strlit("linux");
        }
        return (literal("linux"), exec_opt_dash_word(t, &c, k + 5), false);
    }
    if scan_tag(&c, 0, "mingw32").is_some() {
        return (literal("mingw32"), None, false);
    }
    if let Some(k) = scan_tag(&c, 0, "mingw") {
        proof {
            lemma_tag_fits(c@, k as int, "mingw"@);
            reveal_strlit("mingw");
        }
        return (literal("mingw"), exec_opt_dash_word(t, &c, k + 5), false);
    }
    if let Some(k) = scan_mswin(&c) {
        let e = scan_run(&c, k + 5, CharClass::Digit);
        let v = if e < n && n - e > 1 && c[e] == '_' && class_contains_digit(c[e + 1]) {
            let f = scan_run(&c, e + 1, CharClass::Digit);
            Some(piece(t, e + 1, f))
        } else {
            None
        };
        let x86 = e - k >= 2 && c[e - 2] == '3' && c[e - 1] == '2';
        let name = piece(t, k, e);
        return (name, v, x86);
    }
    if scan_tag(&c, 0, "netbsdelf").is_some() {
        return (literal("netbsdelf"), None, false);
    }
    if let Some(k) = scan_tag(&c, 0, "openbsd") {
        proof {
            lemma_tag_fits(c@, k as int, "openbsd"@);
            reveal_strlit("openbsd");
        }
        return (literal("openbsd"), exec_opt_two_part(t, &c, k + 7), false);
    }
    if let Some(k) = scan_tag(&c, 0, "solaris") {
        proof {
            lemma_tag_fits(c@, k as int, "solaris"@);
            reveal_strlit("solaris");
        }
        return (literal("solaris"), exec_opt_two_part(t, &c, k + 7), false);
    }
    if scan_tag(&c, 0, "wasi").is_some() {
        return (literal("wasi"), None, false);
    }
    (literal("unknown"), None, false)
}

proof fn lemma_tag_fits(s: Seq<char>, k: int, t: Seq<char>)
    requires
        find_tag(s, 0, t) == Some(k),
    ensures
        0 <= k && k + t.len() <= s.len(),
{
    lemma_find_tag(s, 0, t);
}

proof fn lemma_find_tag(s: Seq<char>, i: int, t: Seq<char>)
    ensures
        find_tag(s, i, t) matches Some(k) ==> i <= k && has_tag_at(s, k, t),
    decreases s.len() - i,
{
    if 0 <= i < s.len() && !has_tag_at(s, i, t) {
        lemma_find_tag(s, i + 1, t);
    }
}

pub(crate) fn str_eq(a: &str, b: &str) -> (r: bool)
    ensures
        r == (a@ == b@),
{
    let x = chars_of(a);
    let y = chars_of(b);
    if x.len() != y.len() {
        return false;
    }
    let mut k: usize = 0;
    while k < x.len()
        invariant
            x@ == a@,
            y@ == b@,
            x@.len() == y@.len(),
            k <= x@.len(),
            forall|m: int| 0 <= m < k ==> x@[m] == y@[m],
        decreases x@.len() - k,
    {
        if x[k] != y[k] {
            return false;
        }
        k = k + 1;
    }
    assert(a@ =~= b@);
    true
}

pub open spec fn ranges_view(r: Seq<(usize, usize)>) -> Seq<(int, int)> {
    r.map_values(|x: (usize, usize)| (x.0 as int, x.1 as int))
}

pub open spec fn ranges_within(r: Seq<(usize, usize)>, n: int) -> bool {
    &&& forall|k: int| 0 <= k < r.len() ==> #[trigger] r[k].0 <= r[k].1 <= n
    &&& forall|j: int, k: int| 0 <= j < k < r.len() ==> #[trigger] r[j].1 <= #[trigger] r[k].0
}

/// The dash-separated pieces of `c`.
pub(crate) fn exec_dash_ranges(c: &Vec<char>) -> (r: Vec<(usize, usize)>)
    ensures
        ranges_view(r@) == dash_ranges(c@),
        ranges_within(r@, c@.len() as int),
{
    let n = c.len();
    let mut ranges: Vec<(usize, usize)> = Vec::new();
    let mut start: usize = 0;
    let mut i: usize = 0;
    while i < n
        invariant
            n == c@.len(),
            start <= i <= n,
            forall|k: int| 0 <= k < ranges@.len() ==> #[trigger] ranges@[k].1 <= start,
            ranges_view(ranges@) + dash_ranges_from(c@, start as int, i as int) == dash_ranges(c@),
            ranges_within(ranges@, n as int),
        decreases n - i,
    {
        if c[i] == '-' {
            let ghost old_ranges = ranges@;
            ranges.push((start, i));
            assert(ranges_view(ranges@) =~= ranges_view(old_ranges).push((start as int, i as int)));
            assert(ranges_view(ranges@) + dash_ranges_from(c@, i + 1, i + 1) =~= ranges_view(
                old_ranges,
            ) + dash_ranges_from(c@, start as int, i as int));
            start = i + 1;
        }
        i = i + 1;
    }
    let ghost before = ranges@;
    ranges.push((start, n));
    assert(ranges_view(ranges@) =~= ranges_view(before) + dash_ranges_from(c@, start as int, i as int));
    ranges
}

/// The segments of `c`, split on dashes, with trailing empty ones dropped
/// and the last two fused when the last is not a dotted number.
fn exec_segments(c: &Vec<char>) -> (r: Vec<(usize, usize)>)
    ensures
        ranges_view(r@) == segments(c@),
        ranges_within(r@, c@.len() as int),
{
    let n = c.len();
    let mut ranges = exec_dash_ranges(c);
    while ranges.len() > 0 && ranges[ranges.len() - 1].0 == ranges[ranges.len() - 1].1
        invariant
            drop_trailing_empty(ranges_view(ranges@)) == drop_trailing_empty(dash_ranges(c@)),
            ranges_within(ranges@, n as int),
            n == c@.len(),
        decreases ranges@.len(),
    {
        let ghost old_ranges = ranges@;
        ranges.pop();
        assert(ranges_view(ranges@) =~= ranges_view(old_ranges).drop_last());
    }
    proof {
        let rv = ranges_view(ranges@);
        if rv.len() > 0 {
            assert(rv.last() == (ranges@.last().0 as int, ranges@.last().1 as int));
        }
        assert(drop_trailing_empty(rv) == rv);
    }
    let len = ranges.len();
    if len > 2 {
        let (a, b) = ranges[len - 1];
        let last = slice_chars(c, a, b);
        proof {
            let rv = ranges_view(ranges@);
            assert(rv.last() == (a as int, b as int));
            assert(rv[len - 2] == (ranges@[len - 2].0 as int, ranges@[len - 2].1 as int));
        }
        if !exec_is_dotted(&last) {
            let ghost old_ranges = ranges@;
            ranges.pop();
            let (a2, _b2) = ranges[len - 2];
            ranges.pop();
            ranges.push((a2, b));
            assert(ranges_view(ranges@) =~= ranges_view(old_ranges).take(len - 2).push(
                (a2 as int, b as int),
            ));
        }
    }
    ranges
}

/// Owned copy of the characters `from..to` of `c`.
fn slice_chars(c: &Vec<char>, from: usize, to: usize) -> (r: Vec<char>)
    requires
        from <= to <= c@.len(),
    ensures
        r@ == c@.subrange(from as int, to as int),
{
    let mut out: Vec<char> = Vec::new();
    let mut k = from;
    while k < to
        invariant
            from <= k <= to <= c@.len(),
            out@ == c@.subrange(from as int, k as int),
        decreases to - k,
    {
        out.push(c[k]);
        k = k + 1;
    }
    out
}

fn exec_is_dotted(t: &Vec<char>) -> (r: bool)
    ensures
        r == is_dotted(t@),
{
    let n = t.len();
    let d = scan_run(t, 0, CharClass::Digit);
    if d == 0 {
        return false;
    }
    if d == n {
        return true;
    }
    t[d] == '.' && n - d > 1 && scan_run(t, d + 1, CharClass::Digit) == n
}

/// Parses platform identifiers; it holds no state of its own.
pub struct PlatformParser {}

impl PlatformParser {
    pub fn new() -> Self {
        PlatformParser {}
    }

    /// Splits `value` into cpu, os and os version (see `parse_platform`).
    pub fn parse(&self, value: &str) -> (r: Result<Platform, PlatformArgumentError>)
        ensures
            match r {
                Ok(p) => parse_platform(value@) == Ok::<PlatformView, PlatformArgumentError>(p@),
                Err(e) => parse_platform(value@) == Err::<PlatformView, PlatformArgumentError>(e),
            },
    {
        let c = chars_of(value);
        let p = exec_segments(&c);
        proof {
            assert(ranges_view(p@).len() == p@.len());
        }
        if p.len() == 0 || p[0].0 == p[0].1 {
            return Err(PlatformArgumentError::MissingCPU);
        }
        let (a0, b0) = p[0];
        let first = slice_chars(&c, a0, b0);
        let cpu = if scan_i86(&first) {
            literal("x86")
        } else {
            piece(value, a0, b0)
        };
        if p.len() == 3 {
            let (a2, b2) = p[2];
            let last = slice_chars(&c, a2, b2);
            if exec_is_dotted(&last) {
                let (a1, b1) = p[1];
                return Ok(
                    Platform {
                        cpu: Some(cpu),
                        os: piece(value, a1, b1),
                        version: Some(piece(value, a2, b2)),
                    },
                );
            }
        }
        if p.len() == 1 {
            let (os, version, x86) = exec_os_rule(cpu.as_str());
            let cpu = if x86 {
                Some(literal("x86"))
            } else {
                None
            };
            Ok(Platform { cpu, os, version })
        } else {
            let (a1, b1) = p[1];
            let segment = piece(value, a1, b1);
            let (os, version, _x86) = exec_os_rule(segment.as_str());
            Ok(Platform { cpu: Some(cpu), os, version })
        }
    }
}

impl Platform {
    /// The canonical spelling of this platform (see `canonical`).
    pub fn to_string(&self) -> (r: String)
        ensures
            r@ == canonical(self@),
    {
        match (&self.cpu, &self.version) {
            (None, Some(v)) => {
                let mut out = self.os.clone();
                out.append(v.as_str());
                out
            },
            (Some(c), Some(v)) => {
                let mut out = c.clone();
                out.append("-");
                out.append(self.os.as_str());
                out.append("-");
                out.append(v.as_str());
                out
            },
            (Some(c), None) => {
                let mut out = c.clone();
                out.append("-");
                out.append(self.os.as_str());
                out
            },
            (None, None) => self.os.clone(),
        }
    }
}

// ---------------------------------------------------------------------
// Round trip
// ---------------------------------------------------------------------
pub open spec fn no_dash(s: Seq<char>, a: int, b: int) -> bool {
    forall|k: int| a <= k < b ==> s[k] != '-'
}

proof fn lemma_dash_ranges_skip(s: Seq<char>, start: int, i: int, j: int)
    requires
        0 <= i <= j <= s.len(),
        no_dash(s, i, j),
    ensures
        dash_ranges_from(s, start, i) == dash_ranges_from(s, start, j),
    decreases j - i,
{
    if i < j {
        lemma_dash_ranges_skip(s, start, i + 1, j);
    }
}

pub open spec fn pieces_ok(s: Seq<char>, r: Seq<(int, int)>) -> bool {
    &&& forall|k: int| 0 <= k < r.len() ==> {
        let x = #[trigger] r[k];
        0 <= x.0 <= x.1 <= s.len() && no_dash(s, x.0, x.1)
    }
    &&& forall|k: int| 0 <= k < r.len() - 1 ==> {
        let x = #[trigger] r[k];
        x.1 < s.len() && s[x.1] == '-' && r[k + 1].0 == x.1 + 1
    }
}

proof fn lemma_dash_ranges_pieces(s: Seq<char>, start: int, i: int)
    requires
        0 <= start <= i <= s.len(),
        no_dash(s, start, i),
    ensures
        pieces_ok(s, dash_ranges_from(s, start, i)),
        dash_ranges_from(s, start, i).len() > 0,
        dash_ranges_from(s, start, i)[0].0 == start,
    decreases s.len() - i,
{
    let r = dash_ranges_from(s, start, i);
    if i < s.len() {
        if s[i] == '-' {
            lemma_dash_ranges_pieces(s, i + 1, i + 1);
            let rest = dash_ranges_from(s, i + 1, i + 1);
            assert(r == seq![(start, i)] + rest);
            assert forall|k: int| 0 <= k < r.len() implies {
                let x = #[trigger] r[k];
                0 <= x.0 <= x.1 <= s.len() && no_dash(s, x.0, x.1)
            } by {
                if k > 0 {
                    assert(r[k] == rest[k - 1]);
                }
            }
            assert forall|k: int| 0 <= k < r.len() - 1 implies {
                let x = #[trigger] r[k];
                x.1 < s.len() && s[x.1] == '-' && r[k + 1].0 == x.1 + 1
            } by {
                if k > 0 {
                    assert(r[k] == rest[k - 1]);
                    assert(r[k + 1] == rest[k]);
                } else {
                    assert(r[1] == rest[0]);
                }
            }
        } else {
            lemma_dash_ranges_pieces(s, start, i + 1);
        }
    } else {
        assert(r == seq![(start, s.len() as int)]);
    }
}

proof fn lemma_drop_trailing_prefix(r: Seq<(int, int)>)
    ensures
        drop_trailing_empty(r).len() <= r.len(),
        forall|k: int| 0 <= k < drop_trailing_empty(r).len() ==> #[trigger] drop_trailing_empty(r)[k] == r[k],
    decreases r.len(),
{
    if r.len() > 0 && r.last().0 == r.last().1 {
        lemma_drop_trailing_prefix(r.drop_last());
    }
}

/// The segments lie within `s`; the first, and with three segments and a
/// dotted last one all three, hold no dash.
proof fn lemma_segments_dash_free(s: Seq<char>)
    ensures
        forall|k: int| 0 <= k < segments(s).len() ==> {
            let r = #[trigger] segments(s)[k];
            0 <= r.0 <= r.1 <= s.len()
        },
        segments(s).len() > 0 ==> no_dash(s, segments(s)[0].0, segments(s)[0].1),
        segments(s).len() == 3 && is_dotted(s.subrange(segments(s)[2].0, segments(s)[2].1)) ==> no_dash(
            s,
            segments(s)[1].0,
            segments(s)[1].1,
        ),
{
    let d = dash_ranges(s);
    lemma_dash_ranges_pieces(s, 0, 0);
    let t = drop_trailing_empty(d);
    lemma_drop_trailing_prefix(d);
    assert forall|k: int| 0 <= k < t.len() implies {
        let r = #[trigger] t[k];
        0 <= r.0 <= r.1 <= s.len() && no_dash(s, r.0, r.1)
    } by {
        assert(t[k] == d[k]);
    }
    let f = segments(s);
    if t.len() > 2 && !is_dotted(s.subrange(t.last().0, t.last().1)) {
        let n = t.len();
        assert(t[n - 2] == d[n - 2]);
        assert(t[n - 1] == d[n - 1]);
        assert(d[n - 1].0 == d[n - 2].1 + 1);
        assert(f.len() == n - 1);
        assert forall|k: int| 0 <= k < f.len() implies {
            let r = #[trigger] f[k];
            0 <= r.0 <= r.1 <= s.len()
        } by {
            if k < f.len() - 1 {
                assert(f[k] == t[k]);
            }
        }
        assert(f[0] == t[0]);
        if f.len() == 3 {
            assert(f[1] == t[1]);
            lemma_fused_not_dotted(s, t[n - 2], t[n - 1]);
        }
    }
}

/// Two segments fused across their dash are no dotted number.
proof fn lemma_fused_not_dotted(s: Seq<char>, a: (int, int), b: (int, int))
    requires
        0 <= a.0 <= a.1 <= s.len(),
        0 <= b.0 <= b.1 <= s.len(),
        a.1 < b.0,
        s[a.1] == '-',
    ensures
        !is_dotted(s.subrange(a.0, b.1)),
{
    let t = s.subrange(a.0, b.1);
    let k = a.1 - a.0;
    assert(t[k] == '-');
    if is_dotted(t) {
        lemma_dotted_dash_free(t);
    }
}

proof fn lemma_dotted_dash_free(v: Seq<char>)
    requires
        is_dotted(v),
    ensures
        v.len() > 0,
        no_dash(v, 0, v.len() as int),
{
    lemma_run_end_bounds(v, 0, CharClass::Digit);
    let d = run_end(v, 0, CharClass::Digit);
    if d < v.len() {
        lemma_run_end_bounds(v, d + 1, CharClass::Digit);
    }
    assert forall|k: int| 0 <= k < v.len() implies v[k] != '-' by {
        if k < d {
            assert(in_class(CharClass::Digit, v[k]));
        } else if k > d {
            assert(in_class(CharClass::Digit, v[k]));
        }
    }
}

proof fn lemma_os_rule_dash_free(t: Seq<char>)
    ensures
        no_dash(os_rule(t).os, 0, os_rule(t).os.len() as int),
{
    assert(no_dash("aix"@, 0, "aix"@.len() as int)) by {
        reveal_strlit("aix");
        assert("aix"@ =~= seq!['a', 'i', 'x']);
    }
    assert(no_dash("cygwin"@, 0, "cygwin"@.len() as int)) by {
        reveal_strlit("cygwin");
        assert("cygwin"@ =~= seq!['c', 'y', 'g', 'w', 'i', 'n']);
    }
    assert(no_dash("darwin"@, 0, "darwin"@.len() as int)) by {
        reveal_strlit("darwin");
        assert("darwin"@ =~= seq!['d', 'a', 'r', 'w', 'i', 'n']);
    }
    assert(no_dash("macruby"@, 0, "macruby"@.len() as int)) by {
        reveal_strlit("macruby");
        assert("macruby"@ =~= seq!['m', 'a', 'c', 'r', 'u', 'b', 'y']);
    }
    assert(no_dash("freebsd"@, 0, "freebsd"@.len() as int)) by {
        reveal_strlit("freebsd");
        assert("freebsd"@ =~= seq!['f', 'r', 'e', 'e', 'b', 's', 'd']);
    }
    assert(no_dash("java"@, 0, "java"@.len() as int)) by {
        reveal_strlit("java");
        assert("java"@ =~= seq!['j', 'a', 'v', 'a']);
    }
    assert(no_dash("dalvik"@, 0, "dalvik"@.len() as int)) by {
        reveal_strlit("dalvik");
        assert("dalvik"@ =~= seq!['d', 'a', 'l', 'v', 'i', 'k']);
    }
    assert(no_dash("dotnet"@, 0, "dotnet"@.len() as int)) by {
        reveal_strlit("dotnet");
        assert("dotnet"@ =~= seq!['d', 'o', 't', 'n', 'e', 't']);
    }
    assert(no_dash("linux"@, 0, "linux"@.len() as int)) by {
        reveal_strlit("linux");
        assert("linux"@ =~= seq!['l', 'i', 'n', 'u', 'x']);
    }
    assert(no_dash("mingw32"@, 0, "mingw32"@.len() as int)) by {
        reveal_strlit("mingw32");
        assert("mingw32"@ =~= seq!['m', 'i', 'n', 'g', 'w', '3', '2']);
    }
    assert(no_dash("mingw"@, 0, "mingw"@.len() as int)) by {
        reveal_strlit("mingw");
        assert("mingw"@ =~= seq!['m', 'i', 'n', 'g', 'w']);
    }
    assert(no_dash("netbsdelf"@, 0, "netbsdelf"@.len() as int)) by {
        reveal_strlit("netbsdelf");
        assert("netbsdelf"@ =~= seq!['n', 'e', 't', 'b', 's', 'd', 'e', 'l', 'f']);
    }
    assert(no_dash("openbsd"@, 0, "openbsd"@.len() as int)) by {
        reveal_strlit("openbsd");
        assert("openbsd"@ =~= seq!['o', 'p', 'e', 'n', 'b', 's', 'd']);
    }
    assert(no_dash("solaris"@, 0, "solaris"@.len() as int)) by {
        reveal_strlit("solaris");
        assert("solaris"@ =~= seq!['s', 'o', 'l', 'a', 'r', 'i', 's']);
    }
    assert(no_dash("wasi"@, 0, "wasi"@.len() as int)) by {
        reveal_strlit("wasi");
        assert("wasi"@ =~= seq!['w', 'a', 's', 'i']);
    }
    assert(no_dash("unknown"@, 0, "unknown"@.len() as int)) by {
        reveal_strlit("unknown");
        assert("unknown"@ =~= seq!['u', 'n', 'k', 'n', 'o', 'w', 'n']);
    }
    let o = os_rule(t).os;
    if !(o == "aix"@ || o == "cygwin"@ || o == "darwin"@ || o == "macruby"@ || o == "freebsd"@ || o == "java"@ || o == "dalvik"@ || o == "dotnet"@ || o == "linux"@ || o == "mingw32"@ || o == "mingw"@ || o == "netbsdelf"@ || o == "openbsd"@ || o == "solaris"@ || o == "wasi"@ || o == "unknown"@) {
        assert(find_mswin(t, 0) is Some);
        let k = find_mswin(t, 0)->0;
        lemma_find_mswin(t, 0);
        lemma_run_end_bounds(t, k + 5, CharClass::Digit);
        let e = run_end(t, k + 5, CharClass::Digit);
        let name = t.subrange(k, e);
        reveal_strlit("mswin");
        assert(t.subrange(k, k + 5) == "mswin"@);
        assert forall|m: int| 0 <= m < name.len() implies name[m] != '-' by {
            if m < 5 {
                assert(name[m] == t.subrange(k, k + 5)[m]);
            } else {
                assert(in_class(CharClass::Digit, t[k + m]));
            }
        }
        assert(o == name);
    }
}

proof fn lemma_find_mswin(s: Seq<char>, i: int)
    ensures
        find_mswin(s, i) matches Some(k) ==> i <= k && has_tag_at(s, k, "mswin"@) && k + 5 < s.len()
            && is_digit(s[k + 5]),
    decreases s.len() - i,
{
    if 0 <= i < s.len() && !(has_tag_at(s, i, "mswin"@) && i + 5 < s.len() && is_digit(s[i + 5])) {
        lemma_find_mswin(s, i + 1);
    }
}

/// `cpu-os-version` with a dash-free cpu and os and a dotted version
/// parses back to those three parts.
#[verifier::rlimit(50)]
proof fn lemma_reparse_dotted(c: Seq<char>, o: Seq<char>, v: Seq<char>)
    requires
        c.len() > 0,
        no_dash(c, 0, c.len() as int),
        no_dash(o, 0, o.len() as int),
        is_dotted(v),
        has_i86_from(c, 0) ==> c == "x86"@,
    ensures
        parse_platform(c + "-"@ + o + "-"@ + v) == Ok::<PlatformView, PlatformArgumentError>(
            PlatformView { cpu: Some(c), os: o, version: Some(v) },
        ),
{
    reveal_strlit("-");
    lemma_dotted_dash_free(v);
    let t = c + "-"@ + o + "-"@ + v;
    let lc = c.len() as int;
    let lo = o.len() as int;
    let n = t.len() as int;
    assert(t[lc] == '-');
    assert(t[lc + 1 + lo] == '-');
    assert(no_dash(t, 0, lc)) by {
        assert forall|k: int| 0 <= k < lc implies t[k] != '-' by {
            assert(t[k] == c[k]);
        }
    }
    assert(no_dash(t, lc + 1, lc + 1 + lo)) by {
        assert forall|k: int| lc + 1 <= k < lc + 1 + lo implies t[k] != '-' by {
            assert(t[k] == o[k - lc - 1]);
        }
    }
    assert(no_dash(t, lc + lo + 2, n)) by {
        assert forall|k: int| lc + lo + 2 <= k < n implies t[k] != '-' by {
            assert(t[k] == v[k - lc - lo - 2]);
        }
    }
    lemma_dash_ranges_skip(t, 0, 0, lc);
    lemma_dash_ranges_skip(t, lc + 1, lc + 1, lc + 1 + lo);
    lemma_dash_ranges_skip(t, lc + lo + 2, lc + lo + 2, n);
    let d = dash_ranges(t);
    let d3 = dash_ranges_from(t, lc + lo + 2, n);
    assert(d3 == seq![(lc + lo + 2, n)]);
    let d2 = dash_ranges_from(t, lc + 1, lc + 1 + lo);
    assert(d2 == seq![(lc + 1, lc + 1 + lo)] + d3);
    let d1 = dash_ranges_from(t, 0, lc);
    assert(d1 == seq![(0, lc)] + d2);
    assert(d =~= seq![(0, lc), (lc + 1, lc + 1 + lo), (lc + lo + 2, n)]);
    assert(drop_trailing_empty(d) == d);
    assert(t.subrange(lc + lo + 2, n) =~= v);
    assert(t.subrange(0, lc) =~= c);
    assert(t.subrange(lc + 1, lc + 1 + lo) =~= o);
    assert(segments(t) == d);
}

/// The round trip for the platforms that have a cpu and a dotted os
/// version.
#[verifier::rlimit(100)]
proof fn lemma_platform_round_trip_dotted(s: Seq<char>)
    requires
        parse_platform(s) is Ok,
        parse_platform(s)->Ok_0.cpu is Some,
        parse_platform(s)->Ok_0.version matches Some(v) && is_dotted(v),
    ensures
        parse_platform(canonical(parse_platform(s)->Ok_0)) == parse_platform(s),
{
    let p = parse_platform(s)->Ok_0;
    let seg = segments(s);
    lemma_segments_dash_free(s);
    reveal_strlit("x86");
    assert(no_dash("x86"@, 0, "x86"@.len() as int)) by {
        assert("x86"@ =~= seq!['x', '8', '6']);
    }
    assert(!has_i86_from("x86"@, 0)) by {
        assert("x86"@ =~= seq!['x', '8', '6']);
        assert(!has_i86_from("x86"@, 3));
        assert(!has_i86_from("x86"@, 2));
        assert(!has_i86_from("x86"@, 1));
    }
    let first = range_of(s, seg[0]);
    let cpu = if has_i86_from(first, 0) {
        "x86"@
    } else {
        first
    };
    assert(no_dash(first, 0, first.len() as int)) by {
        assert forall|k: int| 0 <= k < first.len() implies first[k] != '-' by {
            assert(first[k] == s[seg[0].0 + k]);
        }
    }
    assert(cpu.len() > 0 && no_dash(cpu, 0, cpu.len() as int) && (has_i86_from(cpu, 0) ==> cpu == "x86"@));
    let c = p.cpu->0;
    let v = p.version->0;
    if seg.len() == 3 && is_dotted(range_of(s, seg[2])) {
        let o = range_of(s, seg[1]);
        assert(no_dash(o, 0, o.len() as int)) by {
            assert forall|k: int| 0 <= k < o.len() implies o[k] != '-' by {
                assert(o[k] == s[seg[1].0 + k]);
            }
        }
        lemma_reparse_dotted(cpu, o, v);
    } else if seg.len() == 1 {
        lemma_os_rule_dash_free(cpu);
        lemma_reparse_dotted(c, p.os, v);
    } else {
        lemma_os_rule_dash_free(range_of(s, seg[1]));
        lemma_reparse_dotted(c, p.os, v);
    }
}

// ---------------------------------------------------------------------
// The os names the rules produce are fixed points of the rules
// ---------------------------------------------------------------------
proof fn lemma_os_names()
    ensures
        "aix"@ == seq!['a', 'i', 'x'],
        "cygwin"@ == seq!['c', 'y', 'g', 'w', 'i', 'n'],
        "darwin"@ == seq!['d', 'a', 'r', 'w', 'i', 'n'],
        "macruby"@ == seq!['m', 'a', 'c', 'r', 'u', 'b', 'y'],
        "freebsd"@ == seq!['f', 'r', 'e', 'e', 'b', 's', 'd'],
        "java"@ == seq!['j', 'a', 'v', 'a'],
        "jruby"@ == seq!['j', 'r', 'u', 'b', 'y'],
        "dalvik"@ == seq!['d', 'a', 'l', 'v', 'i', 'k'],
        "dotnet"@ == seq!['d', 'o', 't', 'n', 'e', 't'],
        "linux"@ == seq!['l', 'i', 'n', 'u', 'x'],
        "mingw32"@ == seq!['m', 'i', 'n', 'g', 'w', '3', '2'],
        "mingw"@ == seq!['m', 'i', 'n', 'g', 'w'],
        "mswin"@ == seq!['m', 's', 'w', 'i', 'n'],
        "netbsdelf"@ == seq!['n', 'e', 't', 'b', 's', 'd', 'e', 'l', 'f'],
        "openbsd"@ == seq!['o', 'p', 'e', 'n', 'b', 's', 'd'],
        "solaris"@ == seq!['s', 'o', 'l', 'a', 'r', 'i', 's'],
        "wasi"@ == seq!['w', 'a', 's', 'i'],
        "unknown"@ == seq!['u', 'n', 'k', 'n', 'o', 'w', 'n'],
        "x86"@ == seq!['x', '8', '6'],
{
    reveal_strlit("aix");
    reveal_strlit("cygwin");
    reveal_strlit("darwin");
    reveal_strlit("macruby");
    reveal_strlit("freebsd");
    reveal_strlit("java");
    reveal_strlit("jruby");
    reveal_strlit("dalvik");
    reveal_strlit("dotnet");
    reveal_strlit("linux");
    reveal_strlit("mingw32");
    reveal_strlit("mingw");
    reveal_strlit("mswin");
    reveal_strlit("netbsdelf");
    reveal_strlit("openbsd");
    reveal_strlit("solaris");
    reveal_strlit("wasi");
    reveal_strlit("unknown");
    reveal_strlit("x86");
    assert("aix"@ =~= seq!['a', 'i', 'x']);
    assert("cygwin"@ =~= seq!['c', 'y', 'g', 'w', 'i', 'n']);
    assert("darwin"@ =~= seq!['d', 'a', 'r', 'w', 'i', 'n']);
    assert("macruby"@ =~= seq!['m', 'a', 'c', 'r', 'u', 'b', 'y']);
    assert("freebsd"@ =~= seq!['f', 'r', 'e', 'e', 'b', 's', 'd']);
    assert("java"@ =~= seq!['j', 'a', 'v', 'a']);
    assert("jruby"@ =~= seq!['j', 'r', 'u', 'b', 'y']);
    assert("dalvik"@ =~= seq!['d', 'a', 'l', 'v', 'i', 'k']);
    assert("dotnet"@ =~= seq!['d', 'o', 't', 'n', 'e', 't']);
    assert("linux"@ =~= seq!['l', 'i', 'n', 'u', 'x']);
    assert("mingw32"@ =~= seq!['m', 'i', 'n', 'g', 'w', '3', '2']);
    assert("mingw"@ =~= seq!['m', 'i', 'n', 'g', 'w']);
    assert("mswin"@ =~= seq!['m', 's', 'w', 'i', 'n']);
    assert("netbsdelf"@ =~= seq!['n', 'e', 't', 'b', 's', 'd', 'e', 'l', 'f']);
    assert("openbsd"@ =~= seq!['o', 'p', 'e', 'n', 'b', 's', 'd']);
    assert("solaris"@ =~= seq!['s', 'o', 'l', 'a', 'r', 'i', 's']);
    assert("wasi"@ =~= seq!['w', 'a', 's', 'i']);
    assert("unknown"@ =~= seq!['u', 'n', 'k', 'n', 'o', 'w', 'n']);
    assert("x86"@ =~= seq!['x', '8', '6']);
}

proof fn lemma_find_tag_absent(s: Seq<char>, i: int, t: Seq<char>)
    requires
        t.len() > 0,
        forall|k: int|
            i <= k < s.len() ==> #[trigger] s[k] != t[0] || k + t.len() > s.len() || (t.len() > 1
                && k + 1 < s.len() && s[k + 1] != t[1]) || (t.len() > 2 && k + 2 < s.len() && s[k
                + 2] != t[2]),
    ensures
        find_tag(s, i, t) is None,
    decreases s.len() - i,
{
    if 0 <= i < s.len() {
        if has_tag_at(s, i, t) {
            assert(s.subrange(i, i + t.len())[0] == t[0]);
            if t.len() > 1 {
                assert(s.subrange(i, i + t.len())[1] == t[1]);
            }
            if t.len() > 2 {
                assert(s.subrange(i, i + t.len())[2] == t[2]);
            }
        }
        lemma_find_tag_absent(s, i + 1, t);
    }
}

proof fn lemma_find_mswin_absent(s: Seq<char>, i: int)
    requires
        forall|k: int|
            i <= k < s.len() ==> #[trigger] s[k] != 'm' || k + 5 > s.len() || (k + 1 < s.len() && s[k
                + 1] != 's'),
    ensures
        find_mswin(s, i) is None,
    decreases s.len() - i,
{
    reveal_strlit("mswin");
    assert("mswin"@ =~= seq!['m', 's', 'w', 'i', 'n']);
    if 0 <= i < s.len() {
        if has_tag_at(s, i, "mswin"@) {
            assert(s.subrange(i, i + 5)[0] == 'm');
            assert(s.subrange(i, i + 5)[1] == 's');
        }
        lemma_find_mswin_absent(s, i + 1);
    }
}

proof fn lemma_os_rule_keeps_aix()
    ensures
        os_rule("aix"@) == rule("aix"@, None),
{
    lemma_os_names();
    let t = "aix"@;
    assert(t.subrange(0, t.len() as int) =~= t);
}

proof fn lemma_os_rule_keeps_cygwin()
    ensures
        os_rule("cygwin"@) == rule("cygwin"@, None),
{
    lemma_os_names();
    let t = "cygwin"@;
    lemma_find_tag_absent(t, 0, "aix"@);
    assert(t.subrange(0, t.len() as int) =~= t);
}

proof fn lemma_os_rule_keeps_darwin()
    ensures
        os_rule("darwin"@) == rule("darwin"@, None),
{
    lemma_os_names();
    let t = "darwin"@;
    lemma_find_tag_absent(t, 0, "aix"@);
    lemma_find_tag_absent(t, 0, "cygwin"@);
    assert(t.subrange(0, t.len() as int) =~= t);
}

proof fn lemma_os_rule_keeps_macruby()
    ensures
        os_rule("macruby"@) == rule("macruby"@, None),
{
    lemma_os_names();
    let t = "macruby"@;
    lemma_find_tag_absent(t, 0, "aix"@);
    lemma_find_tag_absent(t, 0, "cygwin"@);
    lemma_find_tag_absent(t, 0, "darwin"@);
}

proof fn lemma_os_rule_keeps_freebsd()
    ensures
        os_rule("freebsd"@) == rule("freebsd"@, None),
{
    lemma_os_names();
    let t = "freebsd"@;
    lemma_find_tag_absent(t, 0, "aix"@);
    lemma_find_tag_absent(t, 0, "cygwin"@);
    lemma_find_tag_absent(t, 0, "darwin"@);
    assert(t.subrange(0, t.len() as int) =~= t);
}

proof fn lemma_os_rule_keeps_java()
    ensures
        os_rule("java"@) == rule("java"@, None),
{
    lemma_os_names();
    let t = "java"@;
    lemma_find_tag_absent(t, 0, "aix"@);
    lemma_find_tag_absent(t, 0, "cygwin"@);
    lemma_find_tag_absent(t, 0, "darwin"@);
    lemma_find_tag_absent(t, 0, "freebsd"@);
}

proof fn lemma_os_rule_keeps_dalvik()
    ensures
        os_rule("dalvik"@) == rule("dalvik"@, None),
{
    lemma_os_names();
    let t = "dalvik"@;
    lemma_find_tag_absent(t, 0, "aix"@);
    lemma_find_tag_absent(t, 0, "cygwin"@);
    lemma_find_tag_absent(t, 0, "darwin"@);
    lemma_find_tag_absent(t, 0, "freebsd"@);
    assert(t.subrange(0, t.len() as int) =~= t);
    if has_tag_at(t, 0, "java"@) {
        assert(t.subrange(0, 4)[0] == 'j');
    }
}

proof fn lemma_os_rule_keeps_dotnet()
    ensures
        os_rule("dotnet"@) == rule("dotnet"@, None),
{
    lemma_os_names();
    let t = "dotnet"@;
    lemma_find_tag_absent(t, 0, "aix"@);
    lemma_find_tag_absent(t, 0, "cygwin"@);
    lemma_find_tag_absent(t, 0, "darwin"@);
    lemma_find_tag_absent(t, 0, "freebsd"@);
}

proof fn lemma_os_rule_keeps_linux()
    ensures
        os_rule("linux"@) == rule("linux"@, None),
{
    lemma_os_names();
    let t = "linux"@;
    lemma_find_tag_absent(t, 0, "aix"@);
    lemma_find_tag_absent(t, 0, "cygwin"@);
    lemma_find_tag_absent(t, 0, "darwin"@);
    lemma_find_tag_absent(t, 0, "freebsd"@);
    assert(t.subrange(0, t.len() as int) =~= t);
}

proof fn lemma_os_rule_keeps_mingw32()
    ensures
        os_rule("mingw32"@) == rule("mingw32"@, None),
{
    lemma_os_names();
    let t = "mingw32"@;
    lemma_find_tag_absent(t, 0, "aix"@);
    lemma_find_tag_absent(t, 0, "cygwin"@);
    lemma_find_tag_absent(t, 0, "darwin"@);
    lemma_find_tag_absent(t, 0, "freebsd"@);
    lemma_find_tag_absent(t, 0, "linux"@);
    assert(t.subrange(0, t.len() as int) =~= t);
}

proof fn lemma_os_rule_keeps_mingw()
    ensures
        os_rule("mingw"@) == rule("mingw"@, None),
{
    lemma_os_names();
    let t = "mingw"@;
    lemma_find_tag_absent(t, 0, "aix"@);
    lemma_find_tag_absent(t, 0, "cygwin"@);
    lemma_find_tag_absent(t, 0, "darwin"@);
    lemma_find_tag_absent(t, 0, "freebsd"@);
    lemma_find_tag_absent(t, 0, "linux"@);
    lemma_find_tag_absent(t, 0, "mingw32"@);
    assert(t.subrange(0, t.len() as int) =~= t);
}

proof fn lemma_os_rule_keeps_netbsdelf()
    ensures
        os_rule("netbsdelf"@) == rule("netbsdelf"@, None),
{
    lemma_os_names();
    let t = "netbsdelf"@;
    lemma_find_tag_absent(t, 0, "aix"@);
    lemma_find_tag_absent(t, 0, "cygwin"@);
    lemma_find_tag_absent(t, 0, "darwin"@);
    lemma_find_tag_absent(t, 0, "freebsd"@);
    lemma_find_tag_absent(t, 0, "linux"@);
    lemma_find_tag_absent(t, 0, "mingw32"@);
    lemma_find_tag_absent(t, 0, "mingw"@);
    lemma_find_mswin_absent(t, 0);
    assert(t.subrange(0, t.len() as int) =~= t);
}

proof fn lemma_os_rule_keeps_openbsd()
    ensures
        os_rule("openbsd"@) == rule("openbsd"@, None),
{
    lemma_os_names();
    let t = "openbsd"@;
    lemma_find_tag_absent(t, 0, "aix"@);
    lemma_find_tag_absent(t, 0, "cygwin"@);
    lemma_find_tag_absent(t, 0, "darwin"@);
    lemma_find_tag_absent(t, 0, "freebsd"@);
    lemma_find_tag_absent(t, 0, "linux"@);
    lemma_find_tag_absent(t, 0, "mingw32"@);
    lemma_find_tag_absent(t, 0, "mingw"@);
    lemma_find_mswin_absent(t, 0);
    lemma_find_tag_absent(t, 0, "netbsdelf"@);
    assert(t.subrange(0, t.len() as int) =~= t);
}

proof fn lemma_os_rule_keeps_solaris()
    ensures
        os_rule("solaris"@) == rule("solaris"@, None),
{
    lemma_os_names();
    let t = "solaris"@;
    lemma_find_tag_absent(t, 0, "aix"@);
    lemma_find_tag_absent(t, 0, "cygwin"@);
    lemma_find_tag_absent(t, 0, "darwin"@);
    lemma_find_tag_absent(t, 0, "freebsd"@);
    lemma_find_tag_absent(t, 0, "linux"@);
    lemma_find_tag_absent(t, 0, "mingw32"@);
    lemma_find_tag_absent(t, 0, "mingw"@);
    lemma_find_mswin_absent(t, 0);
    lemma_find_tag_absent(t, 0, "netbsdelf"@);
    lemma_find_tag_absent(t, 0, "openbsd"@);
    assert(t.subrange(0, t.len() as int) =~= t);
}

proof fn lemma_os_rule_keeps_wasi()
    ensures
        os_rule("wasi"@) == rule("wasi"@, None),
{
    lemma_os_names();
    let t = "wasi"@;
    lemma_find_tag_absent(t, 0, "aix"@);
    lemma_find_tag_absent(t, 0, "cygwin"@);
    lemma_find_tag_absent(t, 0, "darwin"@);
    lemma_find_tag_absent(t, 0, "freebsd"@);
    lemma_find_tag_absent(t, 0, "linux"@);
    lemma_find_tag_absent(t, 0, "mingw32"@);
    lemma_find_tag_absent(t, 0, "mingw"@);
    lemma_find_mswin_absent(t, 0);
    lemma_find_tag_absent(t, 0, "netbsdelf"@);
    lemma_find_tag_absent(t, 0, "openbsd"@);
    lemma_find_tag_absent(t, 0, "solaris"@);
    assert(t.subrange(0, t.len() as int) =~= t);
}

proof fn lemma_os_rule_keeps_unknown()
    ensures
        os_rule("unknown"@) == rule("unknown"@, None),
{
    lemma_os_names();
    let t = "unknown"@;
    lemma_find_tag_absent(t, 0, "aix"@);
    lemma_find_tag_absent(t, 0, "cygwin"@);
    lemma_find_tag_absent(t, 0, "darwin"@);
    lemma_find_tag_absent(t, 0, "freebsd"@);
    lemma_find_tag_absent(t, 0, "linux"@);
    lemma_find_tag_absent(t, 0, "mingw32"@);
    lemma_find_tag_absent(t, 0, "mingw"@);
    lemma_find_mswin_absent(t, 0);
    lemma_find_tag_absent(t, 0, "netbsdelf"@);
    lemma_find_tag_absent(t, 0, "openbsd"@);
    lemma_find_tag_absent(t, 0, "solaris"@);
    lemma_find_tag_absent(t, 0, "wasi"@);
}

/// One of the os names the rules give literally.
pub open spec fn is_os_literal(o: Seq<char>) -> bool {
    o == "aix"@ || o == "cygwin"@ || o == "darwin"@ || o == "macruby"@ || o == "freebsd"@ || o == "java"@ || o == "dalvik"@ || o == "dotnet"@ || o == "linux"@ || o == "mingw32"@ || o == "mingw"@ || o == "netbsdelf"@ || o == "openbsd"@ || o == "solaris"@ || o == "wasi"@ || o == "unknown"@
}

/// `mswin` followed by one or more digits.
pub open spec fn is_mswin_name(n: Seq<char>) -> bool {
    has_tag_at(n, 0, "mswin"@) && n.len() > 5 && forall|k: int| 5 <= k < n.len() ==> is_digit(#[trigger] n[k])
}

pub open spec fn ends_32(n: Seq<char>) -> bool {
    n.len() >= 2 && n[n.len() - 2] == '3' && n.last() == '2'
}

proof fn lemma_os_rule_keeps_mswin(n: Seq<char>)
    requires
        is_mswin_name(n),
    ensures
        os_rule(n) == (OsRule { os: n, version: None, x86_without_cpu: ends_32(n) }),
{
    lemma_os_names();
    assert(n.subrange(0, 5) == "mswin"@);
    assert(n[0] == 'm' && n[1] == 's' && n[2] == 'w' && n[3] == 'i' && n[4] == 'n') by {
        assert(n.subrange(0, 5)[0] == n[0]);
        assert(n.subrange(0, 5)[1] == n[1]);
        assert(n.subrange(0, 5)[2] == n[2]);
        assert(n.subrange(0, 5)[3] == n[3]);
        assert(n.subrange(0, 5)[4] == n[4]);
    }
    assert forall|k: int| 5 <= k < n.len() implies '0' <= #[trigger] n[k] <= '9' by {
        assert(is_digit(n[k]));
    }
    lemma_find_tag_absent(n, 0, "aix"@);
    lemma_find_tag_absent(n, 0, "cygwin"@);
    lemma_find_tag_absent(n, 0, "darwin"@);
    lemma_find_tag_absent(n, 0, "freebsd"@);
    lemma_find_tag_absent(n, 0, "linux"@);
    lemma_find_tag_absent(n, 0, "mingw32"@);
    lemma_find_tag_absent(n, 0, "mingw"@);
    if has_tag_at(n, 0, "java"@) {
        assert(n.subrange(0, 4)[0] == 'j');
    }
    if has_tag_at(n, 0, "dalvik"@) {
        assert(n.subrange(0, 6)[0] == 'd');
    }
    if has_tag_at(n, 0, "dotnet"@) {
        assert(n.subrange(0, 6)[0] == 'd');
    }
    assert(n != "macruby"@) by {
        if n == "macruby"@ {
            assert(n[1] == 'a');
        }
    }
    assert(find_mswin(n, 0) == Some(0int));
    lemma_run_end_bounds(n, 5, CharClass::Digit);
    let e = run_end(n, 5, CharClass::Digit);
    if e < n.len() {
        assert(is_digit(n[e]));
    }
    assert(e == n.len());
    assert(n.subrange(0, e) =~= n);
}

pub open spec fn no_i86(s: Seq<char>) -> bool {
    forall|k: int| 0 <= k < s.len() ==> #[trigger] s[k] != 'i' || k + 1 >= s.len() || !is_digit(s[k + 1])
}

proof fn lemma_no_i86(s: Seq<char>, i: int)
    requires
        no_i86(s),
        0 <= i,
    ensures
        !has_i86_from(s, i),
    decreases s.len() - i,
{
    if i < s.len() {
        lemma_no_i86(s, i + 1);
    }
}

/// The os name the rules give is non-empty and dash-free, holds no
/// `i\d86`, and the rules give it back unchanged, without a version.
proof fn lemma_os_name_facts(t: Seq<char>)
    ensures
        ({
            let o = os_rule(t).os;
            &&& o.len() > 0
            &&& no_dash(o, 0, o.len() as int)
            &&& !has_i86_from(o, 0)
            &&& os_rule(o) == (OsRule { os: o, version: None, x86_without_cpu: os_rule(t).x86_without_cpu })
            &&& is_os_literal(o) || is_mswin_name(o)
        }),
{
    lemma_os_names();
    lemma_os_rule_dash_free(t);
    let o = os_rule(t).os;
    if os_rule(t).x86_without_cpu || !(o == "aix"@ || o == "cygwin"@ || o == "darwin"@ || o == "macruby"@ || o == "freebsd"@ || o == "java"@ || o == "dalvik"@ || o == "dotnet"@ || o == "linux"@ || o == "mingw32"@ || o == "mingw"@ || o == "netbsdelf"@ || o == "openbsd"@ || o == "solaris"@ || o == "wasi"@ || o == "unknown"@) {
        assert(find_mswin(t, 0) is Some);
        let k = find_mswin(t, 0)->0;
        lemma_find_mswin(t, 0);
        lemma_run_end_bounds(t, k + 5, CharClass::Digit);
        let e = run_end(t, k + 5, CharClass::Digit);
        assert(o == t.subrange(k, e));
        assert(t.subrange(k, k + 5) == "mswin"@);
        assert(o.subrange(0, 5) =~= t.subrange(k, k + 5));
        assert forall|m: int| 5 <= m < o.len() implies is_digit(#[trigger] o[m]) by {
            assert(o[m] == t[k + m]);
        }
        assert(is_mswin_name(o));
        lemma_os_rule_keeps_mswin(o);
        assert(o[0] == 'm' && o[1] == 's' && o[2] == 'w' && o[3] == 'i' && o[4] == 'n') by {
            assert(o.subrange(0, 5)[0] == o[0]);
            assert(o.subrange(0, 5)[1] == o[1]);
            assert(o.subrange(0, 5)[2] == o[2]);
            assert(o.subrange(0, 5)[3] == o[3]);
            assert(o.subrange(0, 5)[4] == o[4]);
        }
        assert(no_i86(o));
    } else {
        if o == "aix"@ {
            lemma_os_rule_keeps_aix();
        }
        if o == "cygwin"@ {
            lemma_os_rule_keeps_cygwin();
        }
        if o == "darwin"@ {
            lemma_os_rule_keeps_darwin();
        }
        if o == "macruby"@ {
            lemma_os_rule_keeps_macruby();
        }
        if o == "freebsd"@ {
            lemma_os_rule_keeps_freebsd();
        }
        if o == "java"@ {
            lemma_os_rule_keeps_java();
        }
        if o == "dalvik"@ {
            lemma_os_rule_keeps_dalvik();
        }
        if o == "dotnet"@ {
            lemma_os_rule_keeps_dotnet();
        }
        if o == "linux"@ {
            lemma_os_rule_keeps_linux();
        }
        if o == "mingw32"@ {
            lemma_os_rule_keeps_mingw32();
        }
        if o == "mingw"@ {
            lemma_os_rule_keeps_mingw();
        }
        if o == "netbsdelf"@ {
            lemma_os_rule_keeps_netbsdelf();
        }
        if o == "openbsd"@ {
            lemma_os_rule_keeps_openbsd();
        }
        if o == "solaris"@ {
            lemma_os_rule_keeps_solaris();
        }
        if o == "wasi"@ {
            lemma_os_rule_keeps_wasi();
        }
        if o == "unknown"@ {
            lemma_os_rule_keeps_unknown();
        }
        assert(no_i86(o));
    }
    lemma_no_i86(o, 0);
}

proof fn lemma_x86_facts()
    ensures
        "x86"@.len() == 3,
        no_dash("x86"@, 0, 3),
        !has_i86_from("x86"@, 0),
{
    reveal_strlit("x86");
    assert("x86"@ =~= seq!['x', '8', '6']);
    assert(!has_i86_from("x86"@, 3));
    assert(!has_i86_from("x86"@, 2));
    assert(!has_i86_from("x86"@, 1));
}

/// `cpu-os` with a dash-free cpu and an os name the rules keep parses back
/// to those two parts.
#[verifier::rlimit(50)]
proof fn lemma_reparse_pair(c: Seq<char>, o: Seq<char>)
    requires
        c.len() > 0,
        no_dash(c, 0, c.len() as int),
        has_i86_from(c, 0) ==> c == "x86"@,
        o.len() > 0,
        no_dash(o, 0, o.len() as int),
        os_rule(o).os == o,
        os_rule(o).version is None,
    ensures
        parse_platform(c + "-"@ + o) == Ok::<PlatformView, PlatformArgumentError>(
            PlatformView { cpu: Some(c), os: o, version: None },
        ),
{
    reveal_strlit("-");
    let t = c + "-"@ + o;
    let lc = c.len() as int;
    let n = t.len() as int;
    assert(t[lc] == '-');
    assert(no_dash(t, 0, lc)) by {
        assert forall|k: int| 0 <= k < lc implies t[k] != '-' by {
            assert(t[k] == c[k]);
        }
    }
    assert(no_dash(t, lc + 1, n)) by {
        assert forall|k: int| lc + 1 <= k < n implies t[k] != '-' by {
            assert(t[k] == o[k - lc - 1]);
        }
    }
    lemma_dash_ranges_skip(t, 0, 0, lc);
    lemma_dash_ranges_skip(t, lc + 1, lc + 1, n);
    let d = dash_ranges(t);
    let d2 = dash_ranges_from(t, lc + 1, n);
    assert(d2 == seq![(lc + 1, n)]);
    let d1 = dash_ranges_from(t, 0, lc);
    assert(d1 == seq![(0, lc)] + d2);
    assert(d =~= seq![(0, lc), (lc + 1, n)]);
    assert(drop_trailing_empty(d) == d);
    assert(segments(t) == d);
    assert(t.subrange(0, lc) =~= c);
    assert(t.subrange(lc + 1, n) =~= o);
}

/// An os name alone, that the rules keep and that asks for no cpu, parses
/// back to itself.
proof fn lemma_reparse_single(o: Seq<char>)
    requires
        o.len() > 0,
        no_dash(o, 0, o.len() as int),
        !has_i86_from(o, 0),
        os_rule(o).os == o,
        os_rule(o).version is None,
        !os_rule(o).x86_without_cpu,
    ensures
        parse_platform(o) == Ok::<PlatformView, PlatformArgumentError>(
            PlatformView { cpu: None, os: o, version: None },
        ),
{
    let n = o.len() as int;
    lemma_dash_ranges_skip(o, 0, 0, n);
    let d = dash_ranges(o);
    assert(d =~= seq![(0, n)]);
    assert(drop_trailing_empty(d) == d);
    assert(segments(o) == d);
    assert(o.subrange(0, n) =~= o);
}

// ---------------------------------------------------------------------
// Round trip of `cpu-linux-word` and `cpu-mingw-word`
// ---------------------------------------------------------------------
proof fn lemma_find_tag_none_all(s: Seq<char>, i: int, t: Seq<char>)
    requires
        0 <= i,
        find_tag(s, i, t) is None,
    ensures
        forall|k: int| i <= k < s.len() ==> !has_tag_at(s, k, t),
    decreases s.len() - i,
{
    if i < s.len() {
        lemma_find_tag_none_all(s, i + 1, t);
    }
}

/// A tag that does not occur in `o` occurs in `p + v` only where it starts
/// inside `p`, when `v` is a piece of `o`.
proof fn lemma_find_tag_none_concat(p: Seq<char>, v: Seq<char>, t: Seq<char>, o: Seq<char>, q: int)
    requires
        find_tag(o, 0, t) is None,
        0 <= q,
        q + v.len() <= o.len(),
        o.subrange(q, q + v.len()) == v,
        t.len() > 0,
        forall|k: int| 0 <= k < p.len() ==> !has_tag_at(p + v, k, t),
    ensures
        find_tag(p + v, 0, t) is None,
{
    let w = p + v;
    lemma_find_tag_none_all(o, 0, t);
    assert forall|k: int| 0 <= k < w.len() implies !has_tag_at(w, k, t) by {
        if k >= p.len() && has_tag_at(w, k, t) {
            let j = k - p.len();
            assert(o.subrange(q + j, q + j + t.len()) =~= w.subrange(k, k + t.len())) by {
                assert forall|m: int| 0 <= m < t.len() implies #[trigger] o.subrange(q + j, q + j + t.len())[m]
                    == w.subrange(k, k + t.len())[m] by {
                    assert(w[k + m] == v[j + m]);
                    assert(v[j + m] == o.subrange(q, q + v.len())[j + m]);
                }
            }
            assert(has_tag_at(o, q + j, t));
        }
    }
    lemma_find_tag_absent_all(w, 0, t);
}

proof fn lemma_find_tag_absent_all(s: Seq<char>, i: int, t: Seq<char>)
    requires
        0 <= i,
        forall|k: int| 0 <= k < s.len() ==> !has_tag_at(s, k, t),
    ensures
        find_tag(s, i, t) is None,
    decreases s.len() - i,
{
    if i < s.len() {
        lemma_find_tag_absent_all(s, i + 1, t);
    }
}

proof fn lemma_run_end_all(s: Seq<char>, i: int, cls: CharClass)
    requires
        0 <= i <= s.len(),
        forall|k: int| i <= k < s.len() ==> in_class(cls, #[trigger] s[k]),
    ensures
        run_end(s, i, cls) == s.len(),
    decreases s.len() - i,
{
    if i < s.len() {
        lemma_run_end_all(s, i + 1, cls);
    }
}

/// No tag that starts with none of `p`'s characters starts inside `p`.
proof fn lemma_tag_not_in_prefix(p: Seq<char>, v: Seq<char>, t: Seq<char>)
    requires
        t.len() > 0,
        forall|k: int| 0 <= k < p.len() ==> #[trigger] p[k] != t[0],
    ensures
        forall|k: int| 0 <= k < p.len() ==> !has_tag_at(p + v, k, t),
{
    assert forall|k: int| 0 <= k < p.len() implies !has_tag_at(p + v, k, t) by {
        if has_tag_at(p + v, k, t) {
            assert((p + v).subrange(k, k + t.len())[0] == (p + v)[k]);
        }
    }
}

/// When the rules give `linux` or `mingw` with a version, that version is
/// a word, and the rules give the same back for `os-version`.
#[verifier::rlimit(100)]
proof fn lemma_os_rule_word(o: Seq<char>)
    requires
        os_rule(o).os == "linux"@ || os_rule(o).os == "mingw"@,
        os_rule(o).version is Some,
    ensures
        ({
            let l = os_rule(o).os;
            let v = os_rule(o).version->0;
            &&& v.len() > 0
            &&& no_dash(v, 0, v.len() as int)
            &&& os_rule(l + "-"@ + v) == rule(l, Some(v))
        }),
{
    lemma_os_names();
    reveal_strlit("-");
    assert("-"@ =~= seq!['-']);
    let l = os_rule(o).os;
    let v = os_rule(o).version->0;
    let tag = l;
    if find_mswin(o, 0) is Some {
        let k2 = find_mswin(o, 0)->0;
        lemma_find_mswin(o, 0);
        lemma_run_end_bounds(o, k2 + 5, CharClass::Digit);
        let e2 = run_end(o, k2 + 5, CharClass::Digit);
        let name = o.subrange(k2, e2);
        assert(o.subrange(k2, k2 + 5) == "mswin"@);
        assert(name[1] == o.subrange(k2, k2 + 5)[1]);
        assert(name != l);
    }
    assert(contains(o, tag));
    let k = find_tag(o, 0, tag)->0;
    lemma_find_tag(o, 0, tag);
    let q = if 0 <= k + 5 < o.len() && o[k + 5] == '-' {
        k + 6
    } else {
        k + 5
    };
    lemma_run_end_bounds(o, q, CharClass::Word);
    let e = run_end(o, q, CharClass::Word);
    assert(v == o.subrange(q, e));
    assert forall|m: int| 0 <= m < v.len() implies in_class(CharClass::Word, #[trigger] v[m]) by {
        assert(v[m] == o[q + m]);
    }
    let p = l + "-"@;
    let w = p + v;
    assert(w == l + "-"@ + v);
    assert(o.subrange(q, q + v.len()) == v);
    lemma_tag_not_in_prefix(p, v, "aix"@);
    lemma_tag_not_in_prefix(p, v, "cygwin"@);
    lemma_tag_not_in_prefix(p, v, "darwin"@);
    lemma_tag_not_in_prefix(p, v, "freebsd"@);
    lemma_find_tag_none_concat(p, v, "aix"@, o, q);
    lemma_find_tag_none_concat(p, v, "cygwin"@, o, q);
    lemma_find_tag_none_concat(p, v, "darwin"@, o, q);
    lemma_find_tag_none_concat(p, v, "freebsd"@, o, q);
    if has_tag_at(w, 0, "java"@) {
        assert(w.subrange(0, 4)[0] == w[0]);
    }
    if has_tag_at(w, 0, "dalvik"@) {
        assert(w.subrange(0, 6)[0] == w[0]);
    }
    if has_tag_at(w, 0, "dotnet"@) {
        assert(w.subrange(0, 6)[0] == w[0]);
    }
    assert(w != "macruby"@ && w != "java"@ && w != "jruby"@ && w != "dotnet"@) by {
        if w == "macruby"@ || w == "java"@ || w == "jruby"@ || w == "dotnet"@ {
            assert(w[0] == l[0]);
        }
    }
    assert(w.subrange(0, 5) =~= l);
    assert(w[5] == '-');
    lemma_run_end_all(w, 6, CharClass::Word);
    assert(w.subrange(6, w.len() as int) =~= v);
    if l == "mingw"@ {
        lemma_tag_not_in_prefix(p, v, "linux"@);
        lemma_find_tag_none_concat(p, v, "linux"@, o, q);
        assert forall|j: int| 0 <= j < p.len() implies !has_tag_at(w, j, "mingw32"@) by {
            if has_tag_at(w, j, "mingw32"@) {
                assert(w.subrange(j, j + 7)[0] == w[j]);
                if j == 0 {
                    assert(w.subrange(0, 7)[5] == w[5]);
                }
            }
        }
        lemma_find_tag_none_concat(p, v, "mingw32"@, o, q);
    }
}

/// `cpu-os-word` with `os` being `linux` or `mingw` parses back to those
/// three parts (the last two segments fuse into `os-word`).
#[verifier::rlimit(100)]
proof fn lemma_reparse_fused(c: Seq<char>, l: Seq<char>, v: Seq<char>)
    requires
        c.len() > 0,
        no_dash(c, 0, c.len() as int),
        has_i86_from(c, 0) ==> c == "x86"@,
        l == "linux"@ || l == "mingw"@,
        v.len() > 0,
        no_dash(v, 0, v.len() as int),
        !is_dotted(v),
        os_rule(l + "-"@ + v) == rule(l, Some(v)),
    ensures
        parse_platform(c + "-"@ + l + "-"@ + v) == Ok::<PlatformView, PlatformArgumentError>(
            PlatformView { cpu: Some(c), os: l, version: Some(v) },
        ),
{
    reveal_strlit("linux");
    reveal_strlit("mingw");
    assert("linux"@ =~= seq!['l', 'i', 'n', 'u', 'x']);
    assert("mingw"@ =~= seq!['m', 'i', 'n', 'g', 'w']);
    reveal_strlit("-");
    let t = c + "-"@ + l + "-"@ + v;
    let lc = c.len() as int;
    let lo = l.len() as int;
    let n = t.len() as int;
    assert(no_dash(l, 0, lo));
    assert(t[lc] == '-');
    assert(t[lc + 1 + lo] == '-');
    assert(no_dash(t, 0, lc)) by {
        assert forall|k: int| 0 <= k < lc implies t[k] != '-' by {
            assert(t[k] == c[k]);
        }
    }
    assert(no_dash(t, lc + 1, lc + 1 + lo)) by {
        assert forall|k: int| lc + 1 <= k < lc + 1 + lo implies t[k] != '-' by {
            assert(t[k] == l[k - lc - 1]);
        }
    }
    assert(no_dash(t, lc + lo + 2, n)) by {
        assert forall|k: int| lc + lo + 2 <= k < n implies t[k] != '-' by {
            assert(t[k] == v[k - lc - lo - 2]);
        }
    }
    lemma_dash_ranges_skip(t, 0, 0, lc);
    lemma_dash_ranges_skip(t, lc + 1, lc + 1, lc + 1 + lo);
    lemma_dash_ranges_skip(t, lc + lo + 2, lc + lo + 2, n);
    let d = dash_ranges(t);
    let d3 = dash_ranges_from(t, lc + lo + 2, n);
    assert(d3 == seq![(lc + lo + 2, n)]);
    let d2 = dash_ranges_from(t, lc + 1, lc + 1 + lo);
    assert(d2 == seq![(lc + 1, lc + 1 + lo)] + d3);
    let d1 = dash_ranges_from(t, 0, lc);
    assert(d1 == seq![(0, lc)] + d2);
    assert(d =~= seq![(0, lc), (lc + 1, lc + 1 + lo), (lc + lo + 2, n)]);
    assert(drop_trailing_empty(d) == d);
    assert(t.subrange(lc + lo + 2, n) =~= v);
    assert(segments(t) =~= seq![(0, lc), (lc + 1, n)]);
    assert(t.subrange(0, lc) =~= c);
    assert(t.subrange(lc + 1, n) =~= l + "-"@ + v);
}

proof fn lemma_flag_mswin(t: Seq<char>)
    ensures
        os_rule(t).x86_without_cpu ==> os_rule(t).os.len() > 5 && os_rule(t).os[1] == 's',
{
    if os_rule(t).x86_without_cpu {
        let k = find_mswin(t, 0)->0;
        lemma_find_mswin(t, 0);
        lemma_run_end_bounds(t, k + 5, CharClass::Digit);
        let e = run_end(t, k + 5, CharClass::Digit);
        reveal_strlit("mswin");
        assert(t.subrange(k, k + 5) == "mswin"@);
        assert(t.subrange(k, e)[1] == t.subrange(k, k + 5)[1]);
    }
}

/// The round trip for the platforms with a cpu, `linux` or `mingw`, and a
/// word that is no dotted number as os version.
#[verifier::rlimit(100)]
proof fn lemma_round_trip_word(s: Seq<char>)
    requires
        parse_platform(s) is Ok,
        ({
            let p = parse_platform(s)->Ok_0;
            p.cpu is Some && p.version is Some && !is_dotted(p.version->0) && (p.os == "linux"@
                || p.os == "mingw"@)
        }),
    ensures
        parse_platform(canonical(parse_platform(s)->Ok_0)) == parse_platform(s),
{
    lemma_os_names();
    let p = parse_platform(s)->Ok_0;
    let seg = segments(s);
    lemma_segments_dash_free(s);
    lemma_x86_facts();
    let first = range_of(s, seg[0]);
    let cpu = if has_i86_from(first, 0) {
        "x86"@
    } else {
        first
    };
    assert(no_dash(first, 0, first.len() as int)) by {
        assert forall|k: int| 0 <= k < first.len() implies first[k] != '-' by {
            assert(first[k] == s[seg[0].0 + k]);
        }
    }
    if seg.len() == 1 {
        lemma_flag_mswin(cpu);
    } else {
        let o = range_of(s, seg[1]);
        lemma_os_rule_word(o);
        lemma_reparse_fused(cpu, p.os, p.version->0);
    }
}

/// The round trip for the platforms without an os version.
#[verifier::rlimit(100)]
proof fn lemma_round_trip_versionless(s: Seq<char>)
    requires
        parse_platform(s) is Ok,
        ({
            let p = parse_platform(s)->Ok_0;
            p.version is None
        }),
    ensures
        parse_platform(canonical(parse_platform(s)->Ok_0)) == parse_platform(s),
{
    let p = parse_platform(s)->Ok_0;
    let seg = segments(s);
    lemma_segments_dash_free(s);
    lemma_x86_facts();
    let first = range_of(s, seg[0]);
    let cpu = if has_i86_from(first, 0) {
        "x86"@
    } else {
        first
    };
    assert(no_dash(first, 0, first.len() as int)) by {
        assert forall|k: int| 0 <= k < first.len() implies first[k] != '-' by {
            assert(first[k] == s[seg[0].0 + k]);
        }
    }
    assert(cpu.len() > 0 && no_dash(cpu, 0, cpu.len() as int) && (has_i86_from(cpu, 0) ==> cpu
        == "x86"@));
    if seg.len() == 1 {
        lemma_os_name_facts(cpu);
        let r = os_rule(cpu);
        if r.x86_without_cpu {
            lemma_reparse_pair("x86"@, r.os);
        } else {
            lemma_reparse_single(r.os);
        }
    } else {
        lemma_os_name_facts(range_of(s, seg[1]));
        lemma_reparse_pair(cpu, p.os);
    }
}

// ---------------------------------------------------------------------
// Round trip of cpu-less platforms with a version (`java1.8`)
// ---------------------------------------------------------------------
proof fn lemma_run_end_prefix(s: Seq<char>, n: int, i: int, cls: CharClass)
    requires
        0 <= i <= n <= s.len(),
        run_end(s, i, cls) <= n,
    ensures
        run_end(s.subrange(0, n), i, cls) == run_end(s, i, cls),
    decreases n - i,
{
    let t = s.subrange(0, n);
    lemma_run_end_bounds(s, i, cls);
    if i < n && in_class(cls, s[i]) {
        assert(t[i] == s[i]);
        lemma_run_end_prefix(s, n, i + 1, cls);
    } else if i < n {
        assert(t[i] == s[i]);
    }
}

proof fn lemma_more_dotted_digits_mono(s: Seq<char>, p: int)
    ensures
        p <= more_dotted_digits(s, p),
    decreases s.len() - p,
{
    let e1 = run_end(s, p + 1, CharClass::Digit);
    if 0 <= p && p + 1 < s.len() && s[p] == '.' && is_digit(s[p + 1]) && p < e1 <= s.len() {
        lemma_more_dotted_digits_mono(s, e1);
    }
}

/// Cutting `s` where the dotted run from `p` ends does not change the run.
proof fn lemma_more_dotted_digits_shrink(s: Seq<char>, e: int, p: int)
    requires
        0 <= p <= e <= s.len(),
        more_dotted_digits(s, p) == e,
    ensures
        more_dotted_digits(s.subrange(0, e), p) == e,
    decreases e - p,
{
    let t = s.subrange(0, e);
    let e1 = run_end(s, p + 1, CharClass::Digit);
    if 0 <= p && p + 1 < s.len() && s[p] == '.' && is_digit(s[p + 1]) && p < e1 <= s.len() {
        lemma_more_dotted_digits_mono(s, e1);
        lemma_run_end_bounds(s, p + 2, CharClass::Digit);
        assert(e1 == run_end(s, p + 2, CharClass::Digit));
        assert(p + 2 <= e1 <= e);
        lemma_run_end_prefix(s, e, p + 1, CharClass::Digit);
        assert(t[p] == s[p]);
        assert(t[p + 1] == s[p + 1]);
        lemma_more_dotted_digits_shrink(s, e, e1);
    }
}

proof fn lemma_run_end_window(s: Seq<char>, a: int, n: int, i: int, cls: CharClass)
    requires
        0 <= a,
        0 <= i,
        a + i <= n <= s.len(),
        run_end(s, a + i, cls) <= n,
    ensures
        run_end(s.subrange(a, n), i, cls) == run_end(s, a + i, cls) - a,
    decreases n - a - i,
{
    let t = s.subrange(a, n);
    lemma_run_end_bounds(s, a + i, cls);
    if a + i < n {
        assert(t[i] == s[a + i]);
        if in_class(cls, s[a + i]) {
            lemma_run_end_window(s, a, n, i + 1, cls);
        }
    }
}

proof fn lemma_i86_witness(s: Seq<char>, i: int)
    requires
        0 <= i,
        has_i86_from(s, i),
    ensures
        exists|j: int| i <= j && i86_at(s, j),
    decreases s.len() - i,
{
    if !i86_at(s, i) {
        lemma_i86_witness(s, i + 1);
    }
}

proof fn lemma_i86_found(s: Seq<char>, i: int, j: int)
    requires
        0 <= i <= j,
        i86_at(s, j),
    ensures
        has_i86_from(s, i),
    decreases j - i,
{
    if i < j {
        lemma_i86_found(s, i + 1, j);
    }
}

/// A piece of a string without `i\d86` has none either.
proof fn lemma_no_i86_piece(o: Seq<char>, a: int, b: int)
    requires
        0 <= a <= b <= o.len(),
        !has_i86_from(o, 0),
    ensures
        !has_i86_from(o.subrange(a, b), 0),
{
    let g = o.subrange(a, b);
    if has_i86_from(g, 0) {
        lemma_i86_witness(g, 0);
        let j = choose|j: int| 0 <= j && i86_at(g, j);
        assert(g[j] == o[a + j] && g[j + 1] == o[a + j + 1] && g[j + 2] == o[a + j + 2] && g[j + 3]
            == o[a + j + 3]);
        lemma_i86_found(o, 0, a + j);
    }
}

/// A tag absent from `o` is absent from every piece of `o`.
proof fn lemma_find_tag_none_piece(o: Seq<char>, a: int, b: int, t: Seq<char>)
    requires
        0 <= a <= b <= o.len(),
        find_tag(o, 0, t) is None,
        t.len() > 0,
    ensures
        find_tag(o.subrange(a, b), 0, t) is None,
{
    let g = o.subrange(a, b);
    assert(Seq::<char>::empty() + g =~= g);
    assert(o.subrange(a, a + g.len()) =~= g);
    lemma_find_tag_none_concat(Seq::<char>::empty(), g, t, o, a);
}

proof fn lemma_find_mswin_none_piece(o: Seq<char>, a: int, b: int)
    requires
        0 <= a <= b <= o.len(),
        find_mswin(o, 0) is None,
    ensures
        find_mswin(o.subrange(a, b), 0) is None,
{
    let g = o.subrange(a, b);
    lemma_find_mswin_none_all(o, 0);
    assert forall|j: int| 0 <= j < g.len() implies !(has_tag_at(g, j, "mswin"@) && j + 5 < g.len()
        && is_digit(#[trigger] g[j + 5])) by {
        if has_tag_at(g, j, "mswin"@) && j + 5 < g.len() && is_digit(g[j + 5]) {
            assert(o.subrange(a + j, a + j + "mswin"@.len()) =~= g.subrange(j, j + "mswin"@.len()));
            assert(g[j + 5] == o[a + j + 5]);
            assert(has_tag_at(o, a + j, "mswin"@));
        }
    }
    lemma_find_mswin_absent_all(g, 0);
}

proof fn lemma_find_mswin_none_all(s: Seq<char>, i: int)
    requires
        0 <= i,
        find_mswin(s, i) is None,
    ensures
        forall|j: int| i <= j < s.len() ==> !(has_tag_at(s, j, "mswin"@) && j + 5 < s.len() && is_digit(
            #[trigger] s[j + 5],
        )),
    decreases s.len() - i,
{
    if i < s.len() {
        lemma_find_mswin_none_all(s, i + 1);
    }
}

proof fn lemma_find_mswin_absent_all(s: Seq<char>, i: int)
    requires
        0 <= i,
        forall|j: int| 0 <= j < s.len() ==> !(has_tag_at(s, j, "mswin"@) && j + 5 < s.len() && is_digit(
            #[trigger] s[j + 5],
        )),
    ensures
        find_mswin(s, i) is None,
    decreases s.len() - i,
{
    if i < s.len() {
        lemma_find_mswin_absent_all(s, i + 1);
    }
}

/// `aix`, `darwin` or `freebsd` followed by its digits, cut out of `o`,
/// gets the same name and version from the rules.
#[verifier::rlimit(100)]
proof fn lemma_glued_digits(o: Seq<char>, l: Seq<char>)
    requires
        no_dash(o, 0, o.len() as int),
        !has_i86_from(o, 0),
        os_rule(o).os == l,
        os_rule(o).version is Some,
        l == "aix"@ || l == "darwin"@ || l == "freebsd"@,
    ensures
        ({
            let g = l + os_rule(o).version->0;
            &&& g.len() > 0
            &&& no_dash(g, 0, g.len() as int)
            &&& !has_i86_from(g, 0)
            &&& os_rule(g) == rule(l, os_rule(o).version)
        }),
{
    lemma_os_names();
    let ln = l.len() as int;
    if find_mswin(o, 0) is Some {
        let k2 = find_mswin(o, 0)->0;
        lemma_find_mswin(o, 0);
        lemma_run_end_bounds(o, k2 + 5, CharClass::Digit);
        let e2 = run_end(o, k2 + 5, CharClass::Digit);
        let name = o.subrange(k2, e2);
        assert(o.subrange(k2, k2 + 5) == "mswin"@);
        assert(name[0] == o.subrange(k2, k2 + 5)[0]);
        assert(name[1] == o.subrange(k2, k2 + 5)[1]);
        assert(name != l);
    }
    assert(contains(o, l));
    let a = find_tag(o, 0, l)->0;
    lemma_find_tag(o, 0, l);
    lemma_run_end_bounds(o, a + ln, CharClass::Digit);
    let e = run_end(o, a + ln, CharClass::Digit);
    let v = os_rule(o).version->0;
    assert(v == o.subrange(a + ln, e));
    let g = o.subrange(a, e);
    assert(o.subrange(a, a + ln) == l);
    assert(g =~= l + v);

    if l == "freebsd"@ {
        lemma_find_tag_none_piece(o, a, e, "darwin"@);
        assert(g != "macruby"@) by {
            assert(g[0] == l[0]);
        }
    }
    if l == "darwin"@ || l == "freebsd"@ {
        lemma_find_tag_none_piece(o, a, e, "cygwin"@);
        lemma_find_tag_none_piece(o, a, e, "aix"@);
    }
    assert(g.subrange(0, ln) =~= l);
    lemma_run_end_window(o, a, e, ln, CharClass::Digit);
    assert(g.subrange(ln, g.len() as int) =~= v);
    assert forall|m: int| 0 <= m < g.len() implies g[m] != '-' by {
        assert(g[m] == o[a + m]);
    }
    lemma_no_i86_piece(o, a, e);
}

/// `linux` or `mingw` followed by its word, cut out of a dash-free `o`,
/// gets the same name and version from the rules.
#[verifier::rlimit(100)]
proof fn lemma_glued_word(o: Seq<char>, l: Seq<char>)
    requires
        no_dash(o, 0, o.len() as int),
        !has_i86_from(o, 0),
        os_rule(o).os == l,
        os_rule(o).version is Some,
        l == "linux"@ || l == "mingw"@,
    ensures
        ({
            let g = l + os_rule(o).version->0;
            &&& g.len() > 0
            &&& no_dash(g, 0, g.len() as int)
            &&& !has_i86_from(g, 0)
            &&& os_rule(g) == rule(l, os_rule(o).version)
        }),
{
    lemma_os_names();
    let ln = l.len() as int;
    if find_mswin(o, 0) is Some {
        let k2 = find_mswin(o, 0)->0;
        lemma_find_mswin(o, 0);
        lemma_run_end_bounds(o, k2 + 5, CharClass::Digit);
        let e2 = run_end(o, k2 + 5, CharClass::Digit);
        let name = o.subrange(k2, e2);
        assert(o.subrange(k2, k2 + 5) == "mswin"@);
        assert(name[0] == o.subrange(k2, k2 + 5)[0]);
        assert(name[1] == o.subrange(k2, k2 + 5)[1]);
        assert(name != l);
    }
    assert(contains(o, l));
    let a = find_tag(o, 0, l)->0;
    lemma_find_tag(o, 0, l);
    lemma_run_end_bounds(o, a + 5, CharClass::Word);
    let e = run_end(o, a + 5, CharClass::Word);
    let v = os_rule(o).version->0;
    assert(v == o.subrange(a + 5, e));
    let g = o.subrange(a, e);
    assert(o.subrange(a, a + ln) == l);
    assert(g =~= l + v);
    lemma_find_tag_none_piece(o, a, e, "aix"@);
    lemma_find_tag_none_piece(o, a, e, "cygwin"@);
    lemma_find_tag_none_piece(o, a, e, "darwin"@);
    lemma_find_tag_none_piece(o, a, e, "freebsd"@);
    if l == "mingw"@ {
        lemma_find_tag_none_piece(o, a, e, "linux"@);
        lemma_find_tag_none_piece(o, a, e, "mingw32"@);
    }
    if has_tag_at(g, 0, "java"@) {
        assert(g.subrange(0, 4)[0] == g[0]);
    }
    if has_tag_at(g, 0, "dalvik"@) {
        assert(g.subrange(0, 6)[0] == g[0]);
    }
    if has_tag_at(g, 0, "dotnet"@) {
        assert(g.subrange(0, 6)[0] == g[0]);
    }
    assert(g != "macruby"@ && g != "java"@ && g != "jruby"@ && g != "dotnet"@) by {
        assert(g[0] == l[0]);
        assert(g[1] == l[1]);
    }
    assert(g.subrange(0, ln) =~= l);
    assert(g[5] == o[a + 5]);
    lemma_run_end_window(o, a, e, 5, CharClass::Word);
    assert(g.subrange(5, g.len() as int) =~= v);
    assert forall|m: int| 0 <= m < g.len() implies g[m] != '-' by {
        assert(g[m] == o[a + m]);
    }
    lemma_no_i86_piece(o, a, e);
}

/// `openbsd` or `solaris` followed by its two-part number, cut out of
/// `o`, gets the same name and version from the rules.
#[verifier::rlimit(100)]
proof fn lemma_glued_two_part(o: Seq<char>, l: Seq<char>)
    requires
        no_dash(o, 0, o.len() as int),
        !has_i86_from(o, 0),
        os_rule(o).os == l,
        os_rule(o).version is Some,
        l == "openbsd"@ || l == "solaris"@,
    ensures
        ({
            let g = l + os_rule(o).version->0;
            &&& g.len() > 0
            &&& no_dash(g, 0, g.len() as int)
            &&& !has_i86_from(g, 0)
            &&& os_rule(g) == rule(l, os_rule(o).version)
        }),
{
    lemma_os_names();
    let ln = l.len() as int;
    if find_mswin(o, 0) is Some {
        let k2 = find_mswin(o, 0)->0;
        lemma_find_mswin(o, 0);
        lemma_run_end_bounds(o, k2 + 5, CharClass::Digit);
        let e2 = run_end(o, k2 + 5, CharClass::Digit);
        let name = o.subrange(k2, e2);
        assert(o.subrange(k2, k2 + 5) == "mswin"@);
        assert(name[0] == o.subrange(k2, k2 + 5)[0]);
        assert(name[1] == o.subrange(k2, k2 + 5)[1]);
        assert(name != l);
    }
    assert(contains(o, l));
    let a = find_tag(o, 0, l)->0;
    lemma_find_tag(o, 0, l);
    lemma_run_end_bounds(o, a + 7, CharClass::Digit);
    let d = run_end(o, a + 7, CharClass::Digit);
    lemma_run_end_bounds(o, d + 1, CharClass::Digit);
    let e = run_end(o, d + 1, CharClass::Digit);
    let v = os_rule(o).version->0;
    assert(v == o.subrange(a + 7, e));
    let g = o.subrange(a, e);
    assert(o.subrange(a, a + ln) == l);
    assert(g =~= l + v);
    lemma_find_tag_none_piece(o, a, e, "aix"@);
    lemma_find_tag_none_piece(o, a, e, "cygwin"@);
    lemma_find_tag_none_piece(o, a, e, "darwin"@);
    lemma_find_tag_none_piece(o, a, e, "freebsd"@);
    lemma_find_tag_none_piece(o, a, e, "linux"@);
    lemma_find_tag_none_piece(o, a, e, "mingw32"@);
    lemma_find_tag_none_piece(o, a, e, "mingw"@);
    lemma_find_tag_none_piece(o, a, e, "netbsdelf"@);
    lemma_find_mswin_none_piece(o, a, e);
    if l == "solaris"@ {
        lemma_find_tag_none_piece(o, a, e, "openbsd"@);
    }
    if has_tag_at(g, 0, "java"@) {
        assert(g.subrange(0, 4)[0] == g[0]);
    }
    if has_tag_at(g, 0, "dalvik"@) {
        assert(g.subrange(0, 6)[0] == g[0]);
    }
    if has_tag_at(g, 0, "dotnet"@) {
        assert(g.subrange(0, 6)[0] == g[0]);
    }
    assert(g != "macruby"@ && g != "java"@ && g != "jruby"@ && g != "dotnet"@) by {
        assert(g[0] == l[0]);
    }
    assert(g.subrange(0, ln) =~= l);
    lemma_run_end_window(o, a, e, 7, CharClass::Digit);
    assert(g[d - a] == o[d]);
    assert(g[d - a + 1] == o[d + 1]);
    lemma_run_end_window(o, a, e, d - a + 1, CharClass::Digit);
    assert(g.subrange(7, g.len() as int) =~= v);
    assert forall|m: int| 0 <= m < g.len() implies g[m] != '-' by {
        assert(g[m] == o[a + m]);
    }
    lemma_no_i86_piece(o, a, e);
}

/// `java` or `dotnet` followed by its dotted digits, the start of `o`,
/// gets the same name and version from the rules.
#[verifier::rlimit(100)]
proof fn lemma_glued_dotted_prefix(o: Seq<char>, l: Seq<char>)
    requires
        no_dash(o, 0, o.len() as int),
        !has_i86_from(o, 0),
        os_rule(o).os == l,
        os_rule(o).version is Some,
        l == "java"@ || l == "dotnet"@,
    ensures
        ({
            let g = l + os_rule(o).version->0;
            &&& g.len() > 0
            &&& no_dash(g, 0, g.len() as int)
            &&& !has_i86_from(g, 0)
            &&& os_rule(g) == rule(l, os_rule(o).version)
        }),
{
    lemma_os_names();
    let off = l.len() as int;
    if find_mswin(o, 0) is Some {
        let k2 = find_mswin(o, 0)->0;
        lemma_find_mswin(o, 0);
        lemma_run_end_bounds(o, k2 + 5, CharClass::Digit);
        let e2 = run_end(o, k2 + 5, CharClass::Digit);
        let name = o.subrange(k2, e2);
        assert(o.subrange(k2, k2 + 5) == "mswin"@);
        assert(name[0] == o.subrange(k2, k2 + 5)[0]);
        assert(name[1] == o.subrange(k2, k2 + 5)[1]);
        assert(name != l);
    }
    assert(has_tag_at(o, 0, l));
    lemma_run_end_bounds(o, off, CharClass::Digit);
    let d0 = run_end(o, off, CharClass::Digit);
    lemma_more_dotted_digits_mono(o, d0);
    let e = more_dotted_digits(o, d0);
    lemma_more_dotted_digits_bound(o, d0);
    let v = os_rule(o).version->0;
    assert(v == o.subrange(off, e));
    let g = o.subrange(0, e);
    let a = 0int;
    assert(o.subrange(0, off) == l);
    assert(g =~= l + v);
    lemma_find_tag_none_piece(o, 0, e, "aix"@);
    lemma_find_tag_none_piece(o, 0, e, "cygwin"@);
    lemma_find_tag_none_piece(o, 0, e, "darwin"@);
    lemma_find_tag_none_piece(o, 0, e, "freebsd"@);
    assert(g[0] == l[0] && g[1] == l[1]);
    if has_tag_at(g, 0, "java"@) {
        assert(g.subrange(0, 4)[0] == g[0]);
    }
    if has_tag_at(g, 0, "dalvik"@) {
        assert(g.subrange(0, 6)[1] == g[1]);
    }
    assert(g.subrange(0, off) =~= l);
    lemma_run_end_window(o, 0, e, off, CharClass::Digit);
    lemma_more_dotted_digits_shrink(o, e, d0);
    assert(g.subrange(off, e) =~= v);
    assert forall|m: int| 0 <= m < g.len() implies g[m] != '-' by {
        assert(g[m] == o[a + m]);
    }
    lemma_no_i86_piece(o, 0, e);
}

proof fn lemma_more_dotted_digits_bound(s: Seq<char>, p: int)
    requires
        0 <= p <= s.len(),
    ensures
        more_dotted_digits(s, p) <= s.len(),
    decreases s.len() - p,
{
    let e1 = run_end(s, p + 1, CharClass::Digit);
    if 0 <= p && p + 1 < s.len() && s[p] == '.' && is_digit(s[p + 1]) && p < e1 <= s.len() {
        lemma_more_dotted_digits_bound(s, e1);
    }
}

/// An os name glued to its version, cut out of a dash-free `o` without
/// `i\d86`, gets the same name and version from the rules, unless the
/// name is an `mswin` one.
#[verifier::rlimit(100)]
proof fn lemma_glued(o: Seq<char>)
    requires
        no_dash(o, 0, o.len() as int),
        !has_i86_from(o, 0),
        os_rule(o).version is Some,
        !is_mswin_name(os_rule(o).os),
    ensures
        ({
            let l = os_rule(o).os;
            let g = l + os_rule(o).version->0;
            &&& g.len() > 0
            &&& no_dash(g, 0, g.len() as int)
            &&& !has_i86_from(g, 0)
            &&& os_rule(g) == rule(l, os_rule(o).version)
        }),
{
    lemma_os_names();
    lemma_os_name_facts(o);
    let l = os_rule(o).os;
    if find_mswin(o, 0) is Some {
        let k2 = find_mswin(o, 0)->0;
        lemma_find_mswin(o, 0);
        lemma_run_end_bounds(o, k2 + 5, CharClass::Digit);
        let e2 = run_end(o, k2 + 5, CharClass::Digit);
        let name = o.subrange(k2, e2);
        assert(o.subrange(k2, k2 + 5) == "mswin"@);
        assert(name[0] == o.subrange(k2, k2 + 5)[0]);
        assert(name[1] == o.subrange(k2, k2 + 5)[1]);
        assert(name != l);
    }
    if l == "aix"@ || l == "darwin"@ || l == "freebsd"@ {
        lemma_glued_digits(o, l);
    } else if l == "linux"@ || l == "mingw"@ {
        lemma_glued_word(o, l);
    } else if l == "openbsd"@ || l == "solaris"@ {
        lemma_glued_two_part(o, l);
    } else if l == "java"@ || l == "dotnet"@ {
        lemma_glued_dotted_prefix(o, l);
    } else {
        assert(l == "dalvik"@);
        assert(o.subrange(0, 6) == l);
        assert(l + os_rule(o).version->0 =~= o);
    }
}

proof fn lemma_os_rule_of_x86()
    ensures
        os_rule("x86"@) == rule("unknown"@, None),
{
    lemma_os_names();
    let t = "x86"@;
    lemma_find_tag_absent(t, 0, "aix"@);
    lemma_find_tag_absent(t, 0, "cygwin"@);
    lemma_find_tag_absent(t, 0, "darwin"@);
    lemma_find_tag_absent(t, 0, "freebsd"@);
    lemma_find_tag_absent(t, 0, "linux"@);
    lemma_find_tag_absent(t, 0, "mingw32"@);
    lemma_find_tag_absent(t, 0, "mingw"@);
    lemma_find_mswin_absent(t, 0);
    lemma_find_tag_absent(t, 0, "netbsdelf"@);
    lemma_find_tag_absent(t, 0, "openbsd"@);
    lemma_find_tag_absent(t, 0, "solaris"@);
    lemma_find_tag_absent(t, 0, "wasi"@);
}

/// A name glued to its version that the rules split back, and that holds
/// neither dash nor `i\d86`, parses to no cpu, that name and version.
proof fn lemma_reparse_glued(g: Seq<char>, l: Seq<char>, v: Seq<char>)
    requires
        g.len() > 0,
        no_dash(g, 0, g.len() as int),
        !has_i86_from(g, 0),
        os_rule(g) == rule(l, Some(v)),
    ensures
        parse_platform(g) == Ok::<PlatformView, PlatformArgumentError>(
            PlatformView { cpu: None, os: l, version: Some(v) },
        ),
{
    let n = g.len() as int;
    lemma_dash_ranges_skip(g, 0, 0, n);
    let d = dash_ranges(g);
    assert(d =~= seq![(0, n)]);
    assert(drop_trailing_empty(d) == d);
    assert(segments(g) == d);
    assert(g.subrange(0, n) =~= g);
}

/// The round trip for the platforms without a cpu that have an os version,
/// unless their os is an `mswin` name.
#[verifier::rlimit(100)]
proof fn lemma_round_trip_glued(s: Seq<char>)
    requires
        parse_platform(s) is Ok,
        ({
            let p = parse_platform(s)->Ok_0;
            p.cpu is None && p.version is Some && !is_mswin_name(p.os)
        }),
    ensures
        parse_platform(canonical(parse_platform(s)->Ok_0)) == parse_platform(s),
{
    let p = parse_platform(s)->Ok_0;
    let seg = segments(s);
    lemma_segments_dash_free(s);
    let first = range_of(s, seg[0]);
    assert(no_dash(first, 0, first.len() as int)) by {
        assert forall|k: int| 0 <= k < first.len() implies first[k] != '-' by {
            assert(first[k] == s[seg[0].0 + k]);
        }
    }
    lemma_os_rule_of_x86();
    assert(seg.len() == 1);
    assert(!has_i86_from(first, 0));
    lemma_glued(first);
    let l = p.os;
    let v = p.version->0;
    lemma_reparse_glued(l + v, l, v);
}

proof fn lemma_digits_dotted(t: Seq<char>, p: int, e: int)
    requires
        0 <= p < e,
        e == run_end(t, p, CharClass::Digit),
    ensures
        is_dotted(t.subrange(p, e)),
{
    lemma_run_end_bounds(t, p, CharClass::Digit);
    lemma_run_end_window(t, p, e, 0, CharClass::Digit);
}

proof fn lemma_two_part_dotted(t: Seq<char>, p: int)
    requires
        0 <= p <= t.len(),
        opt_two_part(t, p) is Some,
    ensures
        is_dotted(opt_two_part(t, p)->0),
{
    lemma_run_end_bounds(t, p, CharClass::Digit);
    let d = run_end(t, p, CharClass::Digit);
    lemma_run_end_bounds(t, d + 1, CharClass::Digit);
    let e = run_end(t, d + 1, CharClass::Digit);
    let v = t.subrange(p, e);
    lemma_run_end_window(t, p, e, 0, CharClass::Digit);
    assert(v[d - p] == t[d]);
    lemma_run_end_window(t, p, e, d - p + 1, CharClass::Digit);
}

/// Only `linux`, `mingw`, `java` and `dotnet` get an os version that is no
/// dotted number.
proof fn lemma_version_dotted_unless(t: Seq<char>)
    ensures
        os_rule(t).version is Some && !(os_rule(t).os == "linux"@ || os_rule(t).os == "mingw"@
            || os_rule(t).os == "java"@ || os_rule(t).os == "dotnet"@) ==> is_dotted(
            os_rule(t).version->0,
        ),
{
    lemma_os_names();
    if contains(t, "aix"@) {
        let k = find_tag(t, 0, "aix"@)->0;
        lemma_find_tag(t, 0, "aix"@);
        if opt_digits(t, k + 3) is Some {
            lemma_digits_dotted(t, k + 3, run_end(t, k + 3, CharClass::Digit));
        }
    } else if contains(t, "cygwin"@) {
    } else if contains(t, "darwin"@) {
        let k = find_tag(t, 0, "darwin"@)->0;
        lemma_find_tag(t, 0, "darwin"@);
        if opt_digits(t, k + 6) is Some {
            lemma_digits_dotted(t, k + 6, run_end(t, k + 6, CharClass::Digit));
        }
    } else if t == "macruby"@ {
    } else if contains(t, "freebsd"@) {
        let k = find_tag(t, 0, "freebsd"@)->0;
        lemma_find_tag(t, 0, "freebsd"@);
        if opt_digits(t, k + 7) is Some {
            lemma_digits_dotted(t, k + 7, run_end(t, k + 7, CharClass::Digit));
        }
    } else if t == "java"@ || t == "jruby"@ {
    } else if has_tag_at(t, 0, "java"@) {
    } else if has_tag_at(t, 0, "dalvik"@) && run_end(t, 6, CharClass::Digit) == t.len() {
        if opt_digits(t, 6) is Some {
            lemma_digits_dotted(t, 6, run_end(t, 6, CharClass::Digit));
        }
    } else if t == "dotnet"@ {
    } else if has_tag_at(t, 0, "dotnet"@) && dotted_digits_end(t, 6) is Some {
    } else if contains(t, "linux"@) {
    } else if contains(t, "mingw32"@) {
    } else if contains(t, "mingw"@) {
    } else if find_mswin(t, 0) is Some {
        let k = find_mswin(t, 0)->0;
        lemma_find_mswin(t, 0);
        lemma_run_end_bounds(t, k + 5, CharClass::Digit);
        let e = run_end(t, k + 5, CharClass::Digit);
        if opt_underscore_digits(t, e) is Some {
            lemma_run_end_bounds(t, e + 1, CharClass::Digit);
            lemma_run_end_bounds(t, e + 2, CharClass::Digit);
            lemma_digits_dotted(t, e + 1, run_end(t, e + 1, CharClass::Digit));
        }
    } else if contains(t, "netbsdelf"@) {
    } else if contains(t, "openbsd"@) {
        let k = find_tag(t, 0, "openbsd"@)->0;
        lemma_find_tag(t, 0, "openbsd"@);
        if opt_two_part(t, k + 7) is Some {
            lemma_two_part_dotted(t, k + 7);
        }
    } else if contains(t, "solaris"@) {
        let k = find_tag(t, 0, "solaris"@)->0;
        lemma_find_tag(t, 0, "solaris"@);
        if opt_two_part(t, k + 7) is Some {
            lemma_two_part_dotted(t, k + 7);
        }
    }
}

/// Round trip: spelling a parsed platform canonically and parsing that
/// again gives the same platform. The two exceptions are where the
/// canonical spelling reads otherwise: a cpu with a `java` or `dotnet`
/// version of three or more parts (`x86-java1.5.2` is spelled
/// `x86-java-1.5.2`, whose last two segments fuse), and an `mswin` name
/// with a version but no cpu (`mswin64_1` is spelled `mswin641`).
#[verifier::rlimit(100)]
pub proof fn lemma_platform_round_trip(s: Seq<char>)
    requires
        parse_platform(s) is Ok,
        ({
            let p = parse_platform(s)->Ok_0;
            &&& !(p.cpu is Some && p.version is Some && !is_dotted(p.version->0) && (p.os == "java"@
                || p.os == "dotnet"@))
            &&& !(p.cpu is None && p.version is Some && is_mswin_name(p.os))
        }),
    ensures
        parse_platform(canonical(parse_platform(s)->Ok_0)) == parse_platform(s),
{
    lemma_os_names();
    let p = parse_platform(s)->Ok_0;
    if p.version is None {
        lemma_round_trip_versionless(s);
    } else if p.cpu is None {
        lemma_round_trip_glued(s);
    } else if is_dotted(p.version->0) {
        lemma_platform_round_trip_dotted(s);
    } else {
        let seg = segments(s);
        let first = range_of(s, seg[0]);
        let cpu = if has_i86_from(first, 0) {
            "x86"@
        } else {
            first
        };
        if seg.len() == 1 {
            lemma_version_dotted_unless(cpu);
        } else if !(seg.len() == 3 && is_dotted(range_of(s, seg[2]))) {
            lemma_version_dotted_unless(range_of(s, seg[1]));
        }
        lemma_round_trip_word(s);
    }
}

} // verus!
