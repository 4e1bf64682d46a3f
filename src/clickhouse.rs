//! The record transform: which download records are exported, and how a
//! download's full name splits into gem name, version and platform.
use vstd::prelude::*;
use crate::full_name_lengths::{lengths_fit, FullNameLengths};
use crate::grammar::{chars_of, expect_tag, has_tag_at};
use crate::platform::{dash_ranges, exec_dash_ranges, literal, opt_view, piece, ranges_view};
use crate::request::ResponseStatus;

verus! {

/// What the transform consults: the table of ambiguous full names.
pub struct Context<'a> {
    pub full_name_lengths: &'a FullNameLengths,
}

impl<'a> Context<'a> {
    pub fn new(full_name_lengths: &'a FullNameLengths) -> (r: Self)
        ensures
            r.full_name_lengths == full_name_lengths,
    {
        Context { full_name_lengths }
    }
}

/// A full name split into its three parts.
#[derive(Debug)]
pub struct FullNameSplit {
    pub gem_name: String,
    pub version: String,
    pub platform: String,
}

/// The full name is ambiguous and not in the table.
#[derive(Debug)]
pub struct UnknownFullNameError {
    pub full_name: String,
}

/// Why a transform run stops.
#[derive(Debug)]
pub enum TransformError {
    /// A download whose full name could not be split.
    UnknownFullName(String),
    /// A record that carries some but not all of gem, version and platform.
    MissingFields,
}

/// `/gems/<full name>.gem`: the full name, if the path has that shape.
pub open spec fn download_name(p: Seq<char>) -> Option<Seq<char>> {
    if has_tag_at(p, 0, "/gems/"@) && p.len() > 10 && p.subrange(p.len() - 4, p.len() as int)
        == ".gem"@ && forall|i: int| 6 <= i < p.len() - 4 ==> p[i] != '\n' {
        Some(p.subrange(6, p.len() - 4))
    } else {
        None
    }
}

pub open spec fn split_view(s: FullNameSplit) -> (Seq<char>, Seq<char>, Seq<char>) {
    (s.gem_name@, s.version@, s.platform@)
}

/// How `t` splits: at its one dash when it has exactly one and both sides
/// are non-empty; else by the lengths the table gives, the platform being
/// what follows the version (`ruby` when nothing does).
pub open spec fn split_spec(t: Seq<char>, table: Map<Seq<char>, (u8, u8)>) -> Option<(Seq<char>, Seq<char>, Seq<char>)> {
    let r = dash_ranges(t);
    if r.len() == 2 && r[0].0 < r[0].1 && r[1].0 < r[1].1 {
        Some((t.subrange(r[0].0, r[0].1), t.subrange(r[1].0, r[1].1), "ruby"@))
    } else if table.contains_key(t) {
        let nl = table[t].0 as int;
        let ve = nl + 1 + table[t].1 as int;
        Some(
            (
                t.subrange(0, nl),
                t.subrange(nl + 1, ve),
                if ve < t.len() {
                    t.subrange(ve + 1, t.len() as int)
                } else {
                    "ruby"@
                },
            ),
        )
    } else {
        None
    }
}

/// The path's full name, if it is a download path.
pub fn download_full_name(path: &str) -> (r: Option<String>)
    ensures
        opt_view(r) == download_name(path@),
{
    let c = chars_of(path);
    let n = c.len();
    if expect_tag(&c, 0, "/gems/").is_none() || n <= 10 {
        return None;
    }
    if !(c[n - 4] == '.' && c[n - 3] == 'g' && c[n - 2] == 'e' && c[n - 1] == 'm') {
        proof {
            reveal_strlit(".gem");
            let t = c@.subrange(n - 4, n as int);
            if t == ".gem"@ {
                assert(t[0] == c@[n - 4]);
                assert(t[1] == c@[n - 3]);
                assert(t[2] == c@[n - 2]);
                assert(t[3] == c@[n - 1]);
            }
        }
        return None;
    }
    proof {
        reveal_strlit(".gem");
        assert(c@.subrange(n - 4, n as int) =~= ".gem"@);
    }
    let mut i: usize = 6;
    while i < n - 4
        invariant
            6 <= i <= n - 4,
            n == c@.len(),
            c@ == path@,
            forall|j: int| 6 <= j < i ==> c@[j] != '\n',
        decreases n - i,
    {
        if c[i] == '\n' {
            return None;
        }
        i = i + 1;
    }
    Some(piece(path, 6, n - 4))
}

/// Splits a full name into gem name, version and platform (see
/// `split_spec`); a name that is ambiguous and not in the table is an error.
pub fn split_full_name(full_name: &str, table: &FullNameLengths) -> (r: Result<FullNameSplit, UnknownFullNameError>)
    requires
        table.wf(),
    ensures
        match r {
            Ok(s) => split_spec(full_name@, table@) == Some(split_view(s)),
            Err(e) => split_spec(full_name@, table@) is None && e.full_name@ == full_name@,
        },
{
    let c = chars_of(full_name);
    let r = exec_dash_ranges(&c);
    proof {
        assert(ranges_view(r@).len() == r@.len());
    }
    if r.len() == 2 && r[0].0 < r[0].1 && r[1].0 < r[1].1 {
        proof {
            assert(ranges_view(r@)[0] == (r@[0].0 as int, r@[0].1 as int));
            assert(ranges_view(r@)[1] == (r@[1].0 as int, r@[1].1 as int));
        }
        return Ok(
            FullNameSplit {
                gem_name: piece(full_name, r[0].0, r[0].1),
                version: piece(full_name, r[1].0, r[1].1),
                platform: literal("ruby"),
            },
        );
    }
    proof {
        if r@.len() == 2 {
            assert(ranges_view(r@)[0] == (r@[0].0 as int, r@[0].1 as int));
            assert(ranges_view(r@)[1] == (r@[1].0 as int, r@[1].1 as int));
        }
    }
    match table.get(full_name) {
        Some((nl, vl)) => {
            proof {
                assert(lengths_fit(full_name@, (nl, vl)));
            }
            let name_end = nl as usize;
            let version_end = name_end + 1 + vl as usize;
            let platform = if version_end < c.len() {
                piece(full_name, version_end + 1, c.len())
            } else {
                literal("ruby")
            };
            Ok(
                FullNameSplit {
                    gem_name: piece(full_name, 0, name_end),
                    version: piece(full_name, name_end + 1, version_end),
                    platform,
                },
            )
        },
        None => Err(UnknownFullNameError { full_name: literal(full_name) }),
    }
}

/// What the transform does with one record: `Ok(None)` skips it; `Ok(Some)`
/// exports it with these gem, version and platform.
pub open spec fn transform_spec(
    status: u16,
    path: Seq<char>,
    fields: (Option<Seq<char>>, Option<Seq<char>>, Option<Seq<char>>),
    table: Map<Seq<char>, (u8, u8)>,
) -> Result<Option<(Seq<char>, Seq<char>, Seq<char>)>, ()> {
    if !(status == 200 || status == 304) || download_name(path) is None {
        Ok(None)
    } else {
        match fields {
            (Some(g), Some(v), Some(p)) => Ok(Some((g, v, p))),
            (None, None, None) => match split_spec(download_name(path)->0, table) {
                Some(s) => Ok(Some(s)),
                None => Err(()),
            },
            _ => Err(()),
        }
    }
}

/// Decides one record of the transform: records without a successful
/// status or a download path are skipped; a record that carries gem,
/// version and platform keeps them; one that carries none of them gets
/// them by splitting its full name; anything else stops the run.
pub fn transform_record(
    context: &Context,
    status: ResponseStatus,
    request_path: &str,
    gem: Option<String>,
    version: Option<String>,
    platform: Option<String>,
) -> (r: Result<Option<FullNameSplit>, TransformError>)
    requires
        context.full_name_lengths.wf(),
    ensures
        match r {
            Ok(Some(s)) => transform_spec(
                status.0,
                request_path@,
                (opt_view(gem), opt_view(version), opt_view(platform)),
                context.full_name_lengths@,
            ) == Ok::<Option<(Seq<char>, Seq<char>, Seq<char>)>, ()>(Some(split_view(s))),
            Ok(None) => transform_spec(
                status.0,
                request_path@,
                (opt_view(gem), opt_view(version), opt_view(platform)),
                context.full_name_lengths@,
            ) == Ok::<Option<(Seq<char>, Seq<char>, Seq<char>)>, ()>(None),
            Err(e) => transform_spec(
                status.0,
                request_path@,
                (opt_view(gem), opt_view(version), opt_view(platform)),
                context.full_name_lengths@,
            ) is Err && (e is MissingFields <==> !(gem is None && version is None && platform is None))
                && (e matches TransformError::UnknownFullName(n) ==> n@ == download_name(
                request_path@,
            )->0),
        },
{
    if !status.is_success() {
        return Ok(None);
    }
    let full_name = match download_full_name(request_path) {
        Some(f) => f,
        None => return Ok(None),
    };
    match (gem, version, platform) {
        (Some(g), Some(v), Some(p)) => Ok(Some(FullNameSplit { gem_name: g, version: v, platform: p })),
        (None, None, None) => match split_full_name(full_name.as_str(), context.full_name_lengths) {
            Ok(s) => Ok(Some(s)),
            Err(e) => Err(TransformError::UnknownFullName(e.full_name)),
        },
        _ => Err(TransformError::MissingFields),
    }
}

} // verus!
