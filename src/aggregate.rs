//! Counting one log record into a statistics table.
use vstd::prelude::*;
use crate::platform::{opt_view, piece, str_eq};
use crate::request::Request;
use crate::stats::{bump, FieldName, StatsTable, StatsView, UserIdentifier};
use crate::user_agent::{classify, ParseCaptureLocations, ParseCtx};

verus! {

/// A request to the dependency-list endpoint that carries a query string:
/// one command invocation makes many of these, but only its first request
/// has no query, so only that one is counted. Every other request counts.
pub open spec fn is_duplicate(path: Seq<char>, query: Seq<char>) -> bool {
    path == "/api/v1/dependencies"@ && query.len() > 0
}

pub fn duplicate_request(r: &Request) -> (d: bool)
    ensures
        d == is_duplicate(r.request_path@, r.request_query@),
{
    str_eq(r.request_path.as_str(), "/api/v1/dependencies") && !r.request_query.as_str().is_empty()
}

pub open spec fn bump_opt(m: StatsView, date: Seq<char>, f: FieldName, v: Option<Seq<char>>, id: UserIdentifier) -> StatsView {
    match v {
        Some(x) => bump(m, (date, f, x), id),
        None => m,
    }
}

/// What counting a record does to a table: unless the record is a
/// duplicate, on the date that the timestamp's first ten characters give,
/// it counts the cipher and every field the user agent's classification
/// sets, all by client `id`.
pub open spec fn count_spec(
    m: StatsView,
    timestamp: Seq<char>,
    path: Seq<char>,
    query: Seq<char>,
    user_agent: Seq<char>,
    cipher: Seq<char>,
    id: UserIdentifier,
) -> StatsView {
    if is_duplicate(path, query) {
        m
    } else {
        let d = timestamp.subrange(0, 10);
        let m1 = bump(m, (d, FieldName::tls_cipher, cipher), id);
        match classify(user_agent) {
            Some(ua) => {
                let m2 = bump_opt(m1, d, FieldName::rubygems, ua.rubygems, id);
                let m3 = bump_opt(m2, d, FieldName::bundler, ua.bundler, id);
                let m4 = bump_opt(m3, d, FieldName::ruby, ua.ruby, id);
                let m5 = bump_opt(m4, d, FieldName::platform, ua.platform, id);
                let m6 = bump_opt(m5, d, FieldName::ci, ua.ci, id);
                bump_opt(m6, d, FieldName::gemstash, ua.gemstash, id)
            },
            None => m1,
        }
    }
}

fn increment_maybe(
    times: &mut StatsTable,
    date: &str,
    field: FieldName,
    value: &Option<String>,
    id: UserIdentifier,
)
    requires
        old(times).wf(),
    ensures
        final(times).wf(),
        final(times)@ == bump_opt(old(times)@, date@, field, opt_view(*value), id),
{
    if let Some(v) = value {
        times.increment(date, field, v.as_str(), id);
    }
}

/// Counts record `r`, made by client `user_key`, into `times`; see
/// `count_spec`.
pub fn count_request(
    ctx: &ParseCtx,
    capture_locations: &mut ParseCaptureLocations,
    times: &mut StatsTable,
    r: &Request,
    user_key: UserIdentifier,
)
    requires
        old(times).wf(),
        r.timestamp@.len() >= 10,
    ensures
        final(times).wf(),
        final(times)@ == count_spec(
            old(times)@,
            r.timestamp@,
            r.request_path@,
            r.request_query@,
            r.user_agent@,
            r.tls_cipher@,
            user_key,
        ),
{
    if duplicate_request(r) {
        return;
    }
    let date = piece(r.timestamp.as_str(), 0, 10);
    let d = date.as_str();
    times.increment(d, FieldName::tls_cipher, r.tls_cipher.as_str(), user_key);
    if let Some(ua) = ctx.parse(capture_locations, r.user_agent.as_str()) {
        increment_maybe(times, d, FieldName::rubygems, &ua.rubygems, user_key);
        increment_maybe(times, d, FieldName::bundler, &ua.bundler, user_key);
        increment_maybe(times, d, FieldName::ruby, &ua.ruby, user_key);
        increment_maybe(times, d, FieldName::platform, &ua.platform, user_key);
        increment_maybe(times, d, FieldName::ci, &ua.ci, user_key);
        increment_maybe(times, d, FieldName::gemstash, &ua.gemstash, user_key);
    }
}

} // verus!
