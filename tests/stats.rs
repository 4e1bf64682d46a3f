use kirby::aggregate::{count_request, duplicate_request};
use kirby::request::{default_ip, empty_string_is_none, Request, ResponseStatus};
use kirby::stats::{combine_stats, FieldName, StatsTable, ValueUniqueCounter};
use kirby::user_agent::ParseCtx;

fn request(path: &str, query: &str, user_agent: &str) -> Request {
    Request {
        timestamp: "2018-04-16T00:00:01Z".to_string(),
        request_path: path.to_string(),
        request_query: query.to_string(),
        user_agent: user_agent.to_string(),
        tls_cipher: "ECDHE-RSA-AES128-GCM-SHA256".to_string(),
        client_ip: "10.0.0.1".to_string(),
    }
}

const BUNDLER_UA: &str = "bundler/1.16.1 rubygems/2.6.11 ruby/2.4.1 (x86_64-pc-linux-gnu) command/install options/jobs 59dbf8e99fa09c0a";

fn totals(t: &StatsTable, field: FieldName, value: &str) -> Option<(usize, usize)> {
    t.get("2018-04-16", field, value).map(|c| (c.total(), c.unique()))
}

#[test]
fn counter_increment_counts_unique_clients() {
    let mut c = ValueUniqueCounter::new();
    assert_eq!((c.total(), c.unique()), (0, 0));
    c.increment(1);
    c.increment(1);
    c.increment(2);
    assert_eq!((c.total(), c.unique()), (3, 2));
}

#[test]
fn counter_combine_unions_clients() {
    let mut a = ValueUniqueCounter::new();
    a.increment(1);
    a.increment(2);
    let mut b = ValueUniqueCounter::new();
    b.increment(2);
    b.increment(3);
    b.increment(3);
    a.combine(&b);
    assert_eq!((a.total(), a.unique()), (5, 3));
    assert!(a.unique() <= a.total());
}

#[test]
fn duplicate_suppression() {
    let ctx = ParseCtx::new();
    let mut locs = ctx.capture_locations();
    let mut times = StatsTable::new();
    let first = request("/api/v1/dependencies", "", BUNDLER_UA);
    let second = request("/api/v1/dependencies", "?foo=1", BUNDLER_UA);
    assert!(!duplicate_request(&first));
    assert!(duplicate_request(&second));
    count_request(&ctx, &mut locs, &mut times, &first, 7);
    count_request(&ctx, &mut locs, &mut times, &second, 7);
    assert_eq!(totals(&times, FieldName::tls_cipher, "ECDHE-RSA-AES128-GCM-SHA256"), Some((1, 1)));
    assert_eq!(totals(&times, FieldName::bundler, "1.16.1"), Some((1, 1)));
    assert_eq!(totals(&times, FieldName::rubygems, "2.6.11"), Some((1, 1)));
    assert_eq!(totals(&times, FieldName::ruby, "2.4.1"), Some((1, 1)));
    assert_eq!(totals(&times, FieldName::platform, "x86_64-pc-linux-gnu"), Some((1, 1)));
    assert_eq!(times.len(), 5);
}

#[test]
fn other_paths_always_count() {
    let ctx = ParseCtx::new();
    let mut locs = ctx.capture_locations();
    let mut times = StatsTable::new();
    for path in ["/versions", "/specs.4.8.gz", "/gems/rack-2.0.0.gem"] {
        let r = request(path, "?x=1", "Ruby, RubyGems/2.6.11 x86_64-linux Ruby/2.4.1 (2017-03-22 patchlevel 111)");
        assert!(!duplicate_request(&r));
        count_request(&ctx, &mut locs, &mut times, &r, 1);
    }
    count_request(&ctx, &mut locs, &mut times, &request("/versions", "", "curl/7.0"), 2);
    assert_eq!(totals(&times, FieldName::tls_cipher, "ECDHE-RSA-AES128-GCM-SHA256"), Some((4, 2)));
    assert_eq!(totals(&times, FieldName::rubygems, "2.6.11"), Some((3, 1)));
    assert_eq!(totals(&times, FieldName::platform, "x86_64-linux"), Some((3, 1)));
    assert_eq!(totals(&times, FieldName::bundler, "2.6.11"), None);
}

fn table(entries: &[(&str, FieldName, &str, u128)]) -> StatsTable {
    let mut t = StatsTable::new();
    for (date, field, value, id) in entries {
        t.increment(date, *field, value, *id);
    }
    t
}

fn snapshot(t: &StatsTable, keys: &[(&str, FieldName, &str)]) -> Vec<Option<(usize, usize)>> {
    keys.iter().map(|(d, f, v)| t.get(d, *f, v).map(|c| (c.total(), c.unique()))).collect()
}

#[test]
fn combine_stats_merges_counters() {
    let a = table(&[("2018-04-16", FieldName::ruby, "2.4.1", 1), ("2018-04-16", FieldName::ruby, "2.4.1", 2)]);
    let b = table(&[("2018-04-16", FieldName::ruby, "2.4.1", 2), ("2018-04-17", FieldName::ci, "travis", 3)]);
    let c = combine_stats(a, b);
    assert_eq!(c.len(), 2);
    let keys = [("2018-04-16", FieldName::ruby, "2.4.1"), ("2018-04-17", FieldName::ci, "travis")];
    assert_eq!(snapshot(&c, &keys), vec![Some((3, 2)), Some((1, 1))]);
}

#[test]
fn combine_stats_order_does_not_matter() {
    let rows_a = [("d1", FieldName::ruby, "3.0", 1u128), ("d1", FieldName::platform, "x86_64-linux", 2)];
    let rows_b = [("d1", FieldName::ruby, "3.0", 2u128), ("d2", FieldName::ruby, "3.0", 1)];
    let rows_c = [("d1", FieldName::ruby, "3.0", 3u128), ("d2", FieldName::gemstash, "1.1.0", 4)];
    let keys = [
        ("d1", FieldName::ruby, "3.0"),
        ("d1", FieldName::platform, "x86_64-linux"),
        ("d2", FieldName::ruby, "3.0"),
        ("d2", FieldName::gemstash, "1.1.0"),
    ];
    let left = combine_stats(combine_stats(table(&rows_a), table(&rows_b)), table(&rows_c));
    let right = combine_stats(table(&rows_a), combine_stats(table(&rows_b), table(&rows_c)));
    assert_eq!(snapshot(&left, &keys), snapshot(&right, &keys));
    assert_eq!(snapshot(&left, &keys), vec![Some((3, 3)), Some((1, 1)), Some((1, 1)), Some((1, 1))]);
    let ab = combine_stats(table(&rows_a), table(&rows_b));
    let ba = combine_stats(table(&rows_b), table(&rows_a));
    assert_eq!(snapshot(&ab, &keys), snapshot(&ba, &keys));
}

#[test]
fn response_status_success() {
    assert!(ResponseStatus(200).is_success());
    assert!(ResponseStatus(304).is_success());
    assert!(!ResponseStatus(404).is_success());
    assert!(!ResponseStatus(206).is_success());
}

#[test]
fn request_defaults() {
    assert_eq!(default_ip(), "0.0.0.0");
    assert_eq!(empty_string_is_none(Some(String::new())), None);
    assert_eq!(empty_string_is_none(Some("x".to_string())), Some("x".to_string()));
    assert_eq!(empty_string_is_none(None), None);
}

#[test]
fn counter_clone_keeps_counts() {
    let mut a = ValueUniqueCounter::new();
    a.increment(5);
    a.increment(6);
    a.increment(6);
    let mut b = a.clone();
    assert_eq!((b.total(), b.unique()), (3, 2));
    b.increment(7);
    assert_eq!((a.total(), a.unique()), (3, 2));
    assert_eq!((b.total(), b.unique()), (4, 3));
}
