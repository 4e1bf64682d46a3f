//! Classification of client identification strings (user agents) into the
//! dependency-manager, registry-client, legacy-gems and generic shapes.
use vstd::prelude::*;
use crate::grammar::{
    CharClass,
    expect_tag,
    fill_chars,
    find_char,
    has_tag_at,
    in_class,
    lemma_find_char,
    run_end,
    scan_char,
    scan_run,
    scan_version,
    version_end,
};
use crate::platform::{literal, opt_view, piece};

verus! {

/// What a user agent says about the client. Which fields are set depends on
/// the shape that matched.
#[derive(Debug)]
pub struct UserAgent {
    pub agent_name: Option<String>,
    pub agent_version: Option<String>,
    pub bundler: Option<String>,
    pub rubygems: Option<String>,
    pub ruby: Option<String>,
    pub platform: Option<String>,
    pub command: Option<String>,
    pub options: Option<String>,
    pub jruby: Option<String>,
    pub truffleruby: Option<String>,
    pub ci: Option<String>,
    pub gemstash: Option<String>,
}

pub struct UserAgentView {
    pub agent_name: Option<Seq<char>>,
    pub agent_version: Option<Seq<char>>,
    pub bundler: Option<Seq<char>>,
    pub rubygems: Option<Seq<char>>,
    pub ruby: Option<Seq<char>>,
    pub platform: Option<Seq<char>>,
    pub command: Option<Seq<char>>,
    pub options: Option<Seq<char>>,
    pub jruby: Option<Seq<char>>,
    pub truffleruby: Option<Seq<char>>,
    pub ci: Option<Seq<char>>,
    pub gemstash: Option<Seq<char>>,
}

impl View for UserAgent {
    type V = UserAgentView;

    open spec fn view(&self) -> UserAgentView {
        UserAgentView {
            agent_name: opt_view(self.agent_name),
            agent_version: opt_view(self.agent_version),
            bundler: opt_view(self.bundler),
            rubygems: opt_view(self.rubygems),
            ruby: opt_view(self.ruby),
            platform: opt_view(self.platform),
            command: opt_view(self.command),
            options: opt_view(self.options),
            jruby: opt_view(self.jruby),
            truffleruby: opt_view(self.truffleruby),
            ci: opt_view(self.ci),
            gemstash: opt_view(self.gemstash),
        }
    }
}

// ---------------------------------------------------------------------
// The grammar, over character positions of the whole string `s`
// ---------------------------------------------------------------------
pub open spec fn cap(s: Seq<char>, r: (int, int)) -> Seq<char> {
    s.subrange(r.0, r.1)
}

pub open spec fn opt_cap(s: Seq<char>, r: Option<(int, int)>) -> Option<Seq<char>> {
    match r {
        Some(x) => Some(cap(s, x)),
        None => None,
    }
}

/// `t` at `k`, and where it ends.
pub open spec fn tag(s: Seq<char>, k: int, t: Seq<char>) -> Option<int> {
    if has_tag_at(s, k, t) {
        Some(k + t.len())
    } else {
        None
    }
}

/// `t` at `k` followed by a version token: the version's range.
pub open spec fn tagged_version(s: Seq<char>, k: int, t: Seq<char>) -> Option<(int, int)> {
    match tag(s, k, t) {
        Some(v) => match version_end(s, v) {
            Some(e) => Some((v, e)),
            None => None,
        },
        None => None,
    }
}

/// The optional fields that may follow the command of a dependency-manager
/// user agent, as ranges.
pub struct Tail {
    pub jruby: Option<(int, int)>,
    pub truffleruby: Option<(int, int)>,
    pub options: Option<(int, int)>,
    pub ci: Option<(int, int)>,
    pub gemstash: Option<(int, int)>,
}

/// Sixteen lowercase hex digits at `k`.
pub open spec fn hex16_at(s: Seq<char>, k: int) -> bool {
    0 <= k && k + 16 <= s.len() && forall|m: int| k <= m < k + 16 ==> in_class(CharClass::LowerHex, #[trigger] s[m])
}

/// ` <16 hex digits>` then optionally ` Gemstash/<version>`, then the end.
pub open spec fn tail_uid(s: Seq<char>, k: int) -> Option<Tail> {
    if has_tag_at(s, k, " "@) && hex16_at(s, k + 1) {
        let e = k + 17;
        if e == s.len() {
            Some(Tail { jruby: None, truffleruby: None, options: None, ci: None, gemstash: None })
        } else {
            match tagged_version(s, e, " Gemstash/"@) {
                Some(g) => if g.1 == s.len() {
                    Some(Tail { jruby: None, truffleruby: None, options: None, ci: None, gemstash: Some(g) })
                } else {
                    None
                },
                None => None,
            }
        }
    } else {
        None
    }
}

/// The shortest free text from `m` on after which `tail_uid` matches.
pub open spec fn lazy_ci(s: Seq<char>, m: int) -> Option<int>
    decreases s.len() - m,
{
    if m < 0 || m > s.len() {
        None
    } else if tail_uid(s, m) is Some {
        Some(m)
    } else if m < s.len() && s[m] != '\n' {
        lazy_ci(s, m + 1)
    } else {
        None
    }
}

/// An optional ` ci/<text>`, then `tail_uid`.
pub open spec fn tail_ci(s: Seq<char>, k: int) -> Option<Tail> {
    match tag(s, k, " ci/"@) {
        Some(c) => match lazy_ci(s, c) {
            Some(m) => {
                let t = tail_uid(s, m)->0;
                Some(Tail { ci: Some((c, m)), ..t })
            },
            None => tail_uid(s, k),
        },
        None => tail_uid(s, k),
    }
}

pub open spec fn lazy_options(s: Seq<char>, m: int) -> Option<int>
    decreases s.len() - m,
{
    if m < 0 || m > s.len() {
        None
    } else if tail_ci(s, m) is Some {
        Some(m)
    } else if m < s.len() && s[m] != '\n' {
        lazy_options(s, m + 1)
    } else {
        None
    }
}

/// An optional ` options/<text>`, then `tail_ci`.
pub open spec fn tail_options(s: Seq<char>, k: int) -> Option<Tail> {
    match tag(s, k, " options/"@) {
        Some(o) => match lazy_options(s, o) {
            Some(m) => {
                let t = tail_ci(s, m)->0;
                Some(Tail { options: Some((o, m)), ..t })
            },
            None => tail_ci(s, k),
        },
        None => tail_ci(s, k),
    }
}

/// An optional ` truffleruby/<version>`, then `tail_options`.
pub open spec fn tail_truffleruby(s: Seq<char>, k: int) -> Option<Tail> {
    match tagged_version(s, k, " truffleruby/"@) {
        Some(v) => match tail_options(s, v.1) {
            Some(t) => Some(Tail { truffleruby: Some(v), ..t }),
            None => tail_options(s, k),
        },
        None => tail_options(s, k),
    }
}

/// An optional ` jruby/<version>`, then `tail_truffleruby`.
pub open spec fn tail_jruby(s: Seq<char>, k: int) -> Option<Tail> {
    match tagged_version(s, k, " jruby/"@) {
        Some(v) => match tail_truffleruby(s, v.1) {
            Some(t) => Some(Tail { jruby: Some(v), ..t }),
            None => tail_truffleruby(s, k),
        },
        None => tail_truffleruby(s, k),
    }
}

/// The shortest command text from `m` on after which the rest matches.
pub open spec fn lazy_command(s: Seq<char>, m: int) -> Option<int>
    decreases s.len() - m,
{
    if m < 0 || m > s.len() {
        None
    } else if tail_jruby(s, m) is Some {
        Some(m)
    } else if m < s.len() && s[m] != '\n' {
        lazy_command(s, m + 1)
    } else {
        None
    }
}

/// `bundler/V rubygems/V ruby/V (platform) command/`: the three versions,
/// the platform, and where the command starts.
pub open spec fn bundler_header(s: Seq<char>) -> Option<((int, int), (int, int), (int, int), (int, int), int)> {
    match tagged_version(s, 0, "bundler/"@) {
        Some(b) => match tagged_version(s, b.1, " rubygems/"@) {
            Some(g) => match tagged_version(s, g.1, " ruby/"@) {
                Some(r) => match tag(s, r.1, " ("@) {
                    Some(p) => match find_char(s, p, ')') {
                        Some(pc) => match tag(s, pc, ") command/"@) {
                            Some(c) => Some((b, g, r, (p, pc), c)),
                            None => None,
                        },
                        None => None,
                    },
                    None => None,
                },
                None => None,
            },
            None => None,
        },
        None => None,
    }
}

pub open spec fn name_lit(n: Seq<char>) -> Option<Seq<char>> {
    Some(n)
}

/// The dependency-manager shape.
pub open spec fn bundler_agent(s: Seq<char>) -> Option<UserAgentView> {
    match bundler_header(s) {
        Some(h) => match lazy_command(s, h.4) {
            Some(m) => {
                let t = tail_jruby(s, m)->0;
                Some(
                    UserAgentView {
                        agent_name: name_lit("bundler"@),
                        agent_version: Some(cap(s, h.0)),
                        bundler: Some(cap(s, h.0)),
                        rubygems: Some(cap(s, h.1)),
                        ruby: Some(cap(s, h.2)),
                        platform: Some(cap(s, h.3)),
                        command: Some(cap(s, (h.4, m))),
                        options: opt_cap(s, t.options),
                        jruby: opt_cap(s, t.jruby),
                        truffleruby: opt_cap(s, t.truffleruby),
                        ci: opt_cap(s, t.ci),
                        gemstash: opt_cap(s, t.gemstash),
                    },
                )
            },
            None => None,
        },
        None => None,
    }
}

/// After the closing parenthesis of the build info: an optional interpreter
/// marker, an optional ` Gemstash/<version>`, then the end.
pub open spec fn rubygems_end(s: Seq<char>, q: int) -> Option<Option<(int, int)>> {
    let q2 = if has_tag_at(s, q, " jruby"@) {
        q + 6
    } else if has_tag_at(s, q, " truffleruby"@) {
        q + 12
    } else if has_tag_at(s, q, " rbx"@) {
        q + 4
    } else {
        q
    };
    if q2 == s.len() {
        Some(None)
    } else {
        match tagged_version(s, q2, " Gemstash/"@) {
            Some(g) => if g.1 == s.len() {
                Some(Some(g))
            } else {
                None
            },
            None => None,
        }
    }
}

/// The first `)` from `m` on after which `rubygems_end` matches.
pub open spec fn lazy_paren(s: Seq<char>, m: int) -> Option<int>
    decreases s.len() - m,
{
    if m < 0 || m >= s.len() {
        None
    } else if s[m] == ')' && rubygems_end(s, m + 1) is Some {
        Some(m)
    } else if s[m] != '\n' {
        lazy_paren(s, m + 1)
    } else {
        None
    }
}

/// ` Ruby/<version> (<build info>)...` at `j`: the version's range and
/// where the build info's closing parenthesis stands.
pub open spec fn rubygems_tail(s: Seq<char>, j: int) -> Option<((int, int), int)> {
    match tagged_version(s, j, " Ruby/"@) {
        Some(r) => match tag(s, r.1, " ("@) {
            Some(p) => match lazy_paren(s, p) {
                Some(m) => Some((r, m)),
                None => None,
            },
            None => None,
        },
        None => None,
    }
}

/// The longest platform text ending at or before `j` after which
/// `rubygems_tail` matches; `p0` is where the platform starts.
pub open spec fn greedy_platform(s: Seq<char>, p0: int, j: int) -> Option<int>
    decreases j - p0 + 1,
{
    if j < p0 {
        None
    } else if rubygems_tail(s, j) is Some {
        Some(j)
    } else {
        greedy_platform(s, p0, j - 1)
    }
}

/// Where the platform text may end at the latest: it holds no newline.
pub open spec fn line_end(s: Seq<char>, p0: int) -> int {
    match find_char(s, p0, '\n') {
        Some(k) => k,
        None => s.len() as int,
    }
}

/// The registry-client shape.
pub open spec fn rubygems_agent(s: Seq<char>) -> Option<UserAgentView> {
    let b = if has_tag_at(s, 0, "Ruby, "@) {
        6int
    } else {
        0int
    };
    match tagged_version(s, b, "RubyGems/"@) {
        Some(g) => match tag(s, g.1, " "@) {
            Some(p0) => match greedy_platform(s, p0, line_end(s, p0)) {
                Some(j) => {
                    let t = rubygems_tail(s, j)->0;
                    let m = t.1;
                    Some(
                        UserAgentView {
                            agent_name: name_lit("rubygems"@),
                            agent_version: Some(cap(s, g)),
                            bundler: None,
                            rubygems: Some(cap(s, g)),
                            ruby: Some(cap(s, t.0)),
                            platform: Some(cap(s, (p0, j))),
                            command: None,
                            options: None,
                            jruby: None,
                            truffleruby: None,
                            ci: None,
                            gemstash: opt_cap(s, rubygems_end(s, m + 1)->0),
                        },
                    )
                },
                None => None,
            },
            None => None,
        },
        None => None,
    }
}

/// The legacy-gems shape: `Ruby, Gems <version>`.
pub open spec fn gems_agent(s: Seq<char>) -> Option<UserAgentView> {
    match tagged_version(s, 0, "Ruby, Gems "@) {
        Some(v) => if v.1 == s.len() {
            Some(
                UserAgentView {
                    agent_name: name_lit("gems"@),
                    agent_version: Some(cap(s, v)),
                    bundler: None,
                    rubygems: None,
                    ruby: None,
                    platform: None,
                    command: None,
                    options: None,
                    jruby: None,
                    truffleruby: None,
                    ci: None,
                    gemstash: None,
                },
            )
        } else {
            None
        },
        None => None,
    }
}

/// The generic shape: a leading `name[/version]`, after an optional
/// `Ruby, `.
pub open spec fn generic_agent(s: Seq<char>) -> Option<UserAgentView> {
    let b = if has_tag_at(s, 0, "Ruby, "@) && run_end(s, 6, CharClass::NameChar) > 6 {
        6int
    } else {
        0int
    };
    let e = run_end(s, b, CharClass::NameChar);
    if e == b {
        None
    } else {
        let v = if e < s.len() && s[e] == '/' && run_end(s, e + 1, CharClass::NameChar) > e + 1 {
            Some(s.subrange(e + 1, run_end(s, e + 1, CharClass::NameChar)))
        } else {
            None
        };
        Some(
            UserAgentView {
                agent_name: Some(s.subrange(b, e)),
                agent_version: v,
                bundler: None,
                rubygems: None,
                ruby: None,
                platform: None,
                command: None,
                options: None,
                jruby: None,
                truffleruby: None,
                ci: None,
                gemstash: None,
            },
        )
    }
}

/// The classification of `s`: the first shape that matches, in the order
/// dependency manager, registry client, legacy gems, generic.
pub open spec fn classify(s: Seq<char>) -> Option<UserAgentView> {
    if bundler_agent(s) is Some {
        bundler_agent(s)
    } else if rubygems_agent(s) is Some {
        rubygems_agent(s)
    } else if gems_agent(s) is Some {
        gems_agent(s)
    } else {
        generic_agent(s)
    }
}

/// A string that has the dependency-manager shape is classified by that
/// shape, whatever other shapes it also has.
pub proof fn lemma_classifier_priority(s: Seq<char>)
    requires
        bundler_agent(s) is Some,
    ensures
        classify(s) == bundler_agent(s),
        classify(s)->0.agent_name == Some("bundler"@),
{
}

// ---------------------------------------------------------------------
// Executable matchers
// ---------------------------------------------------------------------
/// A `Tail` with executable positions.
pub struct TailPos {
    pub jruby: Option<(usize, usize)>,
    pub truffleruby: Option<(usize, usize)>,
    pub options: Option<(usize, usize)>,
    pub ci: Option<(usize, usize)>,
    pub gemstash: Option<(usize, usize)>,
}

pub open spec fn rng(o: Option<(usize, usize)>) -> Option<(int, int)> {
    match o {
        Some(x) => Some((x.0 as int, x.1 as int)),
        None => None,
    }
}

pub open spec fn rng_ok(o: Option<(usize, usize)>, n: int) -> bool {
    o matches Some(x) ==> x.0 <= x.1 <= n
}

pub open spec fn tail_of(t: TailPos) -> Tail {
    Tail {
        jruby: rng(t.jruby),
        truffleruby: rng(t.truffleruby),
        options: rng(t.options),
        ci: rng(t.ci),
        gemstash: rng(t.gemstash),
    }
}

pub open spec fn tail_ok(t: TailPos, n: int) -> bool {
    rng_ok(t.jruby, n) && rng_ok(t.truffleruby, n) && rng_ok(t.options, n) && rng_ok(t.ci, n)
        && rng_ok(t.gemstash, n)
}

pub open spec fn same_tail(r: Option<TailPos>, o: Option<Tail>, n: int) -> bool {
    match r {
        Some(t) => o == Some(tail_of(t)) && tail_ok(t, n),
        None => o is None,
    }
}

fn x_tagged_version(s: &Vec<char>, k: usize, t: &str) -> (r: Option<(usize, usize)>)
    ensures
        tagged_version(s@, k as int, t@) == rng(r),
        rng_ok(r, s@.len() as int),
{
    match expect_tag(s, k, t) {
        Some(v) => match scan_version(s, v) {
            Some(e) => Some((v, e)),
            None => None,
        },
        None => None,
    }
}

fn x_hex16(s: &Vec<char>, k: usize) -> (r: bool)
    ensures
        r == hex16_at(s@, k as int),
{
    if k > s.len() || s.len() - k < 16 {
        return false;
    }
    let mut m: usize = 0;
    while m < 16
        invariant
            k + 16 <= s.len(),
            m <= 16,
            forall|j: int| k <= j < k + m ==> in_class(CharClass::LowerHex, #[trigger] s@[j]),
        decreases 16 - m,
    {
        let c = s[k + m];
        if !(('0' <= c && c <= '9') || ('a' <= c && c <= 'f')) {
            return false;
        }
        m = m + 1;
    }
    true
}

fn no_tail() -> (r: TailPos)
    ensures
        tail_of(r) == (Tail { jruby: None, truffleruby: None, options: None, ci: None, gemstash: None }),
        tail_ok(r, 0),
{
    TailPos { jruby: None, truffleruby: None, options: None, ci: None, gemstash: None }
}

fn x_tail_uid(s: &Vec<char>, k: usize) -> (r: Option<TailPos>)
    ensures
        same_tail(r, tail_uid(s@, k as int), s@.len() as int),
{
    proof {
        reveal_strlit(" ");
    }
    let e = match expect_tag(s, k, " ") {
        Some(e) => e,
        None => return None,
    };
    if !x_hex16(s, e) {
        return None;
    }
    let len = s.len();
    assert(e + 16 <= len);
    let e2 = e + 16;
    if e2 == s.len() {
        return Some(no_tail());
    }
    match x_tagged_version(s, e2, " Gemstash/") {
        Some(g) => if g.1 == s.len() {
            Some(TailPos { jruby: None, truffleruby: None, options: None, ci: None, gemstash: Some(g) })
        } else {
            None
        },
        None => None,
    }
}

fn x_lazy_ci(s: &Vec<char>, m0: usize) -> (r: Option<(usize, TailPos)>)
    requires
        m0 <= s@.len(),
    ensures
        match r {
            Some((m, t)) => lazy_ci(s@, m0 as int) == Some(m as int) && tail_uid(s@, m as int) == Some(tail_of(t))
                && tail_ok(t, s@.len() as int) && m0 <= m <= s@.len(),
            None => lazy_ci(s@, m0 as int) is None,
        },
{
    let mut m = m0;
    loop
        invariant
            m0 <= m <= s@.len(),
            lazy_ci(s@, m as int) == lazy_ci(s@, m0 as int),
        decreases s@.len() - m,
    {
        if let Some(t) = x_tail_uid(s, m) {
            return Some((m, t));
        }
        if m < s.len() && s[m] != '\n' {
            m = m + 1;
        } else {
            return None;
        }
    }
}

fn x_tail_ci(s: &Vec<char>, k: usize) -> (r: Option<TailPos>)
    ensures
        same_tail(r, tail_ci(s@, k as int), s@.len() as int),
{
    if let Some(c) = expect_tag(s, k, " ci/") {
        if let Some((m, t)) = x_lazy_ci(s, c) {
            return Some(
                TailPos {
                    jruby: t.jruby,
                    truffleruby: t.truffleruby,
                    options: t.options,
                    ci: Some((c, m)),
                    gemstash: t.gemstash,
                },
            );
        }
    }
    x_tail_uid(s, k)
}

fn x_lazy_options(s: &Vec<char>, m0: usize) -> (r: Option<(usize, TailPos)>)
    requires
        m0 <= s@.len(),
    ensures
        match r {
            Some((m, t)) => lazy_options(s@, m0 as int) == Some(m as int) && tail_ci(s@, m as int) == Some(
                tail_of(t),
            ) && tail_ok(t, s@.len() as int) && m0 <= m <= s@.len(),
            None => lazy_options(s@, m0 as int) is None,
        },
{
    let mut m = m0;
    loop
        invariant
            m0 <= m <= s@.len(),
            lazy_options(s@, m as int) == lazy_options(s@, m0 as int),
        decreases s@.len() - m,
    {
        if let Some(t) = x_tail_ci(s, m) {
            return Some((m, t));
        }
        if m < s.len() && s[m] != '\n' {
            m = m + 1;
        } else {
            return None;
        }
    }
}

fn x_tail_options(s: &Vec<char>, k: usize) -> (r: Option<TailPos>)
    ensures
        same_tail(r, tail_options(s@, k as int), s@.len() as int),
{
    if let Some(o) = expect_tag(s, k, " options/") {
        if let Some((m, t)) = x_lazy_options(s, o) {
            return Some(
                TailPos {
                    jruby: t.jruby,
                    truffleruby: t.truffleruby,
                    options: Some((o, m)),
                    ci: t.ci,
                    gemstash: t.gemstash,
                },
            );
        }
    }
    x_tail_ci(s, k)
}

fn x_tail_truffleruby(s: &Vec<char>, k: usize) -> (r: Option<TailPos>)
    ensures
        same_tail(r, tail_truffleruby(s@, k as int), s@.len() as int),
{
    if let Some(v) = x_tagged_version(s, k, " truffleruby/") {
        if let Some(t) = x_tail_options(s, v.1) {
            return Some(
                TailPos {
                    jruby: t.jruby,
                    truffleruby: Some(v),
                    options: t.options,
                    ci: t.ci,
                    gemstash: t.gemstash,
                },
            );
        }
    }
    x_tail_options(s, k)
}

fn x_tail_jruby(s: &Vec<char>, k: usize) -> (r: Option<TailPos>)
    ensures
        same_tail(r, tail_jruby(s@, k as int), s@.len() as int),
{
    if let Some(v) = x_tagged_version(s, k, " jruby/") {
        if let Some(t) = x_tail_truffleruby(s, v.1) {
            return Some(
                TailPos {
                    jruby: Some(v),
                    truffleruby: t.truffleruby,
                    options: t.options,
                    ci: t.ci,
                    gemstash: t.gemstash,
                },
            );
        }
    }
    x_tail_truffleruby(s, k)
}

fn x_lazy_command(s: &Vec<char>, m0: usize) -> (r: Option<(usize, TailPos)>)
    requires
        m0 <= s@.len(),
    ensures
        match r {
            Some((m, t)) => lazy_command(s@, m0 as int) == Some(m as int) && tail_jruby(s@, m as int)
                == Some(tail_of(t)) && tail_ok(t, s@.len() as int) && m0 <= m <= s@.len(),
            None => lazy_command(s@, m0 as int) is None,
        },
{
    let mut m = m0;
    loop
        invariant
            m0 <= m <= s@.len(),
            lazy_command(s@, m as int) == lazy_command(s@, m0 as int),
        decreases s@.len() - m,
    {
        if let Some(t) = x_tail_jruby(s, m) {
            return Some((m, t));
        }
        if m < s.len() && s[m] != '\n' {
            m = m + 1;
        } else {
            return None;
        }
    }
}

fn x_bundler_header(s: &Vec<char>) -> (r: Option<((usize, usize), (usize, usize), (usize, usize), (usize, usize), usize)>)
    ensures
        match r {
            Some(h) => bundler_header(s@) == Some(
                (
                    (h.0.0 as int, h.0.1 as int),
                    (h.1.0 as int, h.1.1 as int),
                    (h.2.0 as int, h.2.1 as int),
                    (h.3.0 as int, h.3.1 as int),
                    h.4 as int,
                ),
            ) && h.0.0 <= h.0.1 <= s@.len() && h.1.0 <= h.1.1 <= s@.len() && h.2.0 <= h.2.1
                <= s@.len() && h.3.0 <= h.3.1 <= s@.len() && h.4 <= s@.len(),
            None => bundler_header(s@) is None,
        },
{
    let b = match x_tagged_version(s, 0, "bundler/") {
        Some(b) => b,
        None => return None,
    };
    let g = match x_tagged_version(s, b.1, " rubygems/") {
        Some(g) => g,
        None => return None,
    };
    let r = match x_tagged_version(s, g.1, " ruby/") {
        Some(r) => r,
        None => return None,
    };
    let p = match expect_tag(s, r.1, " (") {
        Some(p) => p,
        None => return None,
    };
    proof {
        lemma_find_char(s@, p as int, ')');
    }
    let pc = match scan_char(s, p, ')') {
        Some(pc) => pc,
        None => return None,
    };
    let c = match expect_tag(s, pc, ") command/") {
        Some(c) => c,
        None => return None,
    };
    Some((b, g, r, (p, pc), c))
}

fn opt_piece(a: &str, r: Option<(usize, usize)>) -> (o: Option<String>)
    requires
        rng_ok(r, a@.len() as int),
    ensures
        opt_view(o) == opt_cap(a@, rng(r)),
{
    match r {
        Some(x) => Some(piece(a, x.0, x.1)),
        None => None,
    }
}

fn x_bundler_agent(a: &str, s: &Vec<char>) -> (r: Option<UserAgent>)
    requires
        s@ == a@,
    ensures
        match r {
            Some(u) => bundler_agent(a@) == Some(u@),
            None => bundler_agent(a@) is None,
        },
{
    let h = match x_bundler_header(s) {
        Some(h) => h,
        None => return None,
    };
    let (m, t) = match x_lazy_command(s, h.4) {
        Some(x) => x,
        None => return None,
    };
    Some(
        UserAgent {
            agent_name: Some(literal("bundler")),
            agent_version: Some(piece(a, h.0.0, h.0.1)),
            bundler: Some(piece(a, h.0.0, h.0.1)),
            rubygems: Some(piece(a, h.1.0, h.1.1)),
            ruby: Some(piece(a, h.2.0, h.2.1)),
            platform: Some(piece(a, h.3.0, h.3.1)),
            command: Some(piece(a, h.4, m)),
            options: opt_piece(a, t.options),
            jruby: opt_piece(a, t.jruby),
            truffleruby: opt_piece(a, t.truffleruby),
            ci: opt_piece(a, t.ci),
            gemstash: opt_piece(a, t.gemstash),
        },
    )
}

fn x_rubygems_end(s: &Vec<char>, q: usize) -> (r: Option<Option<(usize, usize)>>)
    ensures
        match r {
            Some(g) => rubygems_end(s@, q as int) == Some(rng(g)) && rng_ok(g, s@.len() as int),
            None => rubygems_end(s@, q as int) is None,
        },
{
    proof {
        reveal_strlit(" jruby");
        reveal_strlit(" truffleruby");
        reveal_strlit(" rbx");
    }
    let q2 = match expect_tag(s, q, " jruby") {
        Some(e) => e,
        None => match expect_tag(s, q, " truffleruby") {
            Some(e) => e,
            None => match expect_tag(s, q, " rbx") {
                Some(e) => e,
                None => q,
            },
        },
    };
    if q2 == s.len() {
        return Some(None);
    }
    match x_tagged_version(s, q2, " Gemstash/") {
        Some(g) => if g.1 == s.len() {
            Some(Some(g))
        } else {
            None
        },
        None => None,
    }
}

fn x_lazy_paren(s: &Vec<char>, m0: usize) -> (r: Option<(usize, Option<(usize, usize)>)>)
    requires
        m0 <= s@.len(),
    ensures
        match r {
            Some((m, g)) => lazy_paren(s@, m0 as int) == Some(m as int) && rubygems_end(s@, m + 1)
                == Some(rng(g)) && rng_ok(g, s@.len() as int) && m0 <= m < s@.len(),
            None => lazy_paren(s@, m0 as int) is None,
        },
{
    let mut m = m0;
    loop
        invariant
            m0 <= m <= s@.len(),
            lazy_paren(s@, m as int) == lazy_paren(s@, m0 as int),
        decreases s@.len() - m,
    {
        if m >= s.len() {
            return None;
        }
        if s[m] == ')' {
            if let Some(g) = x_rubygems_end(s, m + 1) {
                return Some((m, g));
            }
        }
        if s[m] != '\n' {
            m = m + 1;
        } else {
            return None;
        }
    }
}

fn x_rubygems_tail(s: &Vec<char>, j: usize) -> (r: Option<((usize, usize), usize, Option<(usize, usize)>)>)
    ensures
        match r {
            Some((v, m, g)) => rubygems_tail(s@, j as int) == Some(((v.0 as int, v.1 as int), m as int))
                && rubygems_end(s@, m + 1) == Some(rng(g)) && rng_ok(g, s@.len() as int) && v.0
                <= v.1 <= s@.len() && m < s@.len(),
            None => rubygems_tail(s@, j as int) is None,
        },
{
    let v = match x_tagged_version(s, j, " Ruby/") {
        Some(v) => v,
        None => return None,
    };
    let p = match expect_tag(s, v.1, " (") {
        Some(p) => p,
        None => return None,
    };
    match x_lazy_paren(s, p) {
        Some((m, g)) => Some((v, m, g)),
        None => None,
    }
}

fn x_rubygems_agent(a: &str, s: &Vec<char>) -> (r: Option<UserAgent>)
    requires
        s@ == a@,
    ensures
        match r {
            Some(u) => rubygems_agent(a@) == Some(u@),
            None => rubygems_agent(a@) is None,
        },
{
    proof {
        reveal_strlit("Ruby, ");
    }
    let b: usize = match expect_tag(s, 0, "Ruby, ") {
        Some(e) => e,
        None => 0,
    };
    let g = match x_tagged_version(s, b, "RubyGems/") {
        Some(g) => g,
        None => return None,
    };
    let p0 = match expect_tag(s, g.1, " ") {
        Some(p) => p,
        None => return None,
    };
    proof {
        lemma_find_char(s@, p0 as int, '\n');
    }
    let le = match scan_char(s, p0, '\n') {
        Some(k) => k,
        None => s.len(),
    };
    let mut j = le;
    loop
        invariant
            s@ == a@,
            p0 <= j <= le <= s@.len(),
            greedy_platform(s@, p0 as int, j as int) == greedy_platform(s@, p0 as int, le as int),
            le == line_end(s@, p0 as int),
            tagged_version(s@, b as int, "RubyGems/"@) == Some((g.0 as int, g.1 as int)),
            g.0 <= g.1 <= s@.len(),
            tag(s@, g.1 as int, " "@) == Some(p0 as int),
            b == (if has_tag_at(s@, 0, "Ruby, "@) { 6int } else { 0int }),
        decreases j,
    {
        if let Some((v, m, gem)) = x_rubygems_tail(s, j) {
            return Some(
                UserAgent {
                    agent_name: Some(literal("rubygems")),
                    agent_version: Some(piece(a, g.0, g.1)),
                    bundler: None,
                    rubygems: Some(piece(a, g.0, g.1)),
                    ruby: Some(piece(a, v.0, v.1)),
                    platform: Some(piece(a, p0, j)),
                    command: None,
                    options: None,
                    jruby: None,
                    truffleruby: None,
                    ci: None,
                    gemstash: opt_piece(a, gem),
                },
            );
        }
        if j == p0 {
            return None;
        }
        j = j - 1;
    }
}

fn x_gems_agent(a: &str, s: &Vec<char>) -> (r: Option<UserAgent>)
    requires
        s@ == a@,
    ensures
        match r {
            Some(u) => gems_agent(a@) == Some(u@),
            None => gems_agent(a@) is None,
        },
{
    match x_tagged_version(s, 0, "Ruby, Gems ") {
        Some(v) => if v.1 == s.len() {
            Some(
                UserAgent {
                    agent_name: Some(literal("gems")),
                    agent_version: Some(piece(a, v.0, v.1)),
                    bundler: None,
                    rubygems: None,
                    ruby: None,
                    platform: None,
                    command: None,
                    options: None,
                    jruby: None,
                    truffleruby: None,
                    ci: None,
                    gemstash: None,
                },
            )
        } else {
            None
        },
        None => None,
    }
}

fn x_generic_agent(a: &str, s: &Vec<char>) -> (r: Option<UserAgent>)
    requires
        s@ == a@,
    ensures
        match r {
            Some(u) => generic_agent(a@) == Some(u@),
            None => generic_agent(a@) is None,
        },
{
    proof {
        reveal_strlit("Ruby, ");
    }
    let b: usize = match expect_tag(s, 0, "Ruby, ") {
        Some(e) => if scan_run(s, e, CharClass::NameChar) > e {
            e
        } else {
            0
        },
        None => 0,
    };
    let e = scan_run(s, b, CharClass::NameChar);
    if e == b {
        return None;
    }
    let v = if e < s.len() && s[e] == '/' {
        let f = scan_run(s, e + 1, CharClass::NameChar);
        if f > e + 1 {
            Some(piece(a, e + 1, f))
        } else {
            None
        }
    } else {
        None
    };
    Some(
        UserAgent {
            agent_name: Some(piece(a, b, e)),
            agent_version: v,
            bundler: None,
            rubygems: None,
            ruby: None,
            platform: None,
            command: None,
            options: None,
            jruby: None,
            truffleruby: None,
            ci: None,
            gemstash: None,
        },
    )
}

/// Holds the classification rules; it has no state of its own.
pub struct ParseCtx {}

/// Scratch space that a caller owns and hands to every `ParseCtx::parse`
/// call, so that classifying many lines reuses one buffer.
pub struct ParseCaptureLocations {
    chars: Vec<char>,
}

impl ParseCtx {
    pub fn new() -> Self {
        ParseCtx {}
    }

    pub fn capture_locations(&self) -> ParseCaptureLocations {
        ParseCaptureLocations { chars: Vec::new() }
    }

    /// Classifies the user agent `a` by the first shape that matches it
    /// (see `classify`); `None` only when not even a leading name is there.
    pub fn parse(&self, capture_locations: &mut ParseCaptureLocations, a: &str) -> (r: Option<
        UserAgent,
    >)
        ensures
            match r {
                Some(u) => classify(a@) == Some(u@),
                None => classify(a@) is None,
            },
    {
        fill_chars(&mut capture_locations.chars, a);
        let s = &capture_locations.chars;
        if let Some(u) = x_bundler_agent(a, s) {
            return Some(u);
        }
        if let Some(u) = x_rubygems_agent(a, s) {
            return Some(u);
        }
        if let Some(u) = x_gems_agent(a, s) {
            return Some(u);
        }
        x_generic_agent(a, s)
    }
}

} // verus!
