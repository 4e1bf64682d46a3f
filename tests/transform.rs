use std::io::Write;

use flate2::write::GzEncoder;
use flate2::Compression;
use kirby::clickhouse::{download_full_name, split_full_name, transform_record, Context, TransformError};
use kirby::full_name_lengths::FullNameLengths;
use kirby::request::ResponseStatus;

fn sample_table() -> FullNameLengths {
    FullNameLengths::from_csv(
        "name,name_length,version_length\nfoo-bar-1.0-x86_64-linux,7,3\nnet-ssh-7.2.0,7,5\n",
    )
    .unwrap()
}

#[test]
fn test_full_names() {
    let table = sample_table();
    assert!(!table.is_empty());
}

#[test]
fn csv_rows_are_read() {
    let table = sample_table();
    assert_eq!(table.get("foo-bar-1.0-x86_64-linux"), Some((7, 3)));
    assert_eq!(table.get("net-ssh-7.2.0"), Some((7, 5)));
    assert_eq!(table.get("rack-2.0.0"), None);
    let trimmed = FullNameLengths::from_csv("header\r\n  a-b-1,3,1 \r\n").unwrap();
    assert_eq!(trimmed.get("a-b-1"), Some((3, 1)));
    assert!(FullNameLengths::from_csv("").unwrap().is_empty());
    assert!(FullNameLengths::from_csv("header").unwrap().is_empty());
}

#[test]
fn csv_malformed_rows_are_refused() {
    assert!(FullNameLengths::from_csv("h\nfoo-bar-1.0,7\n").is_none());
    assert!(FullNameLengths::from_csv("h\nfoo-bar-1.0,7,3,9\n").is_none());
    assert!(FullNameLengths::from_csv("h\nfoo-bar-1.0,x,3\n").is_none());
    assert!(FullNameLengths::from_csv("h\nfoo-bar-1.0,300,3\n").is_none());
    assert!(FullNameLengths::from_csv("h\nfoo-bar-1.0,7,9\n").is_none());
    assert!(FullNameLengths::from_csv("h\n\nfoo-bar-1.0,7,3\n").is_none());
    assert_eq!(FullNameLengths::from_csv("h\nfoo-bar-1.0,+7,3\n").unwrap().get("foo-bar-1.0"), Some((7, 3)));
}

#[test]
fn table_loads_from_gzip() {
    let mut enc = GzEncoder::new(Vec::new(), Compression::default());
    enc.write_all(b"name,name_length,version_length\nfoo-bar-1.0,7,3\n").unwrap();
    let gz = enc.finish().unwrap();
    let table = FullNameLengths::load(&gz).unwrap();
    assert_eq!(table.get("foo-bar-1.0"), Some((7, 3)));
    assert!(FullNameLengths::load(b"not gzip").is_none());
}

#[test]
fn disambiguator_exactness() {
    let table = sample_table();
    let s = split_full_name("foo-bar-1.0-x86_64-linux", &table).unwrap();
    assert_eq!(s.gem_name, "foo-bar");
    assert_eq!(s.version, "1.0");
    assert_eq!(s.platform, "x86_64-linux");
    let s = split_full_name("net-ssh-7.2.0", &table).unwrap();
    assert_eq!((s.gem_name.as_str(), s.version.as_str(), s.platform.as_str()), ("net-ssh", "7.2.0", "ruby"));
}

#[test]
fn cheap_split_and_unknown_names() {
    let table = sample_table();
    let s = split_full_name("rack-2.0.0", &table).unwrap();
    assert_eq!((s.gem_name.as_str(), s.version.as_str(), s.platform.as_str()), ("rack", "2.0.0", "ruby"));
    let e = split_full_name("nokogiri-1.10.0-java", &table).unwrap_err();
    assert_eq!(e.full_name, "nokogiri-1.10.0-java");
    assert!(split_full_name("rack", &table).is_err());
    assert!(split_full_name("-1.0", &table).is_err());
}

#[test]
fn download_paths() {
    assert_eq!(download_full_name("/gems/rack-2.0.0.gem"), Some("rack-2.0.0".to_string()));
    assert_eq!(download_full_name("/gems/.gem"), None);
    assert_eq!(download_full_name("/api/v1/dependencies"), None);
    assert_eq!(download_full_name("/gems/rack-2.0.0.gemspec"), None);
    assert_eq!(download_full_name("/gems/a\nb.gem"), None);
}

#[test]
fn transform_decisions() {
    let table = sample_table();
    let ctx = Context::new(&table);
    let ok = ResponseStatus(200);
    assert!(transform_record(&ctx, ResponseStatus(404), "/gems/rack-2.0.0.gem", None, None, None).unwrap().is_none());
    assert!(transform_record(&ctx, ok, "/versions", None, None, None).unwrap().is_none());
    let s = transform_record(&ctx, ResponseStatus(304), "/gems/foo-bar-1.0-x86_64-linux.gem", None, None, None)
        .unwrap()
        .unwrap();
    assert_eq!((s.gem_name.as_str(), s.version.as_str(), s.platform.as_str()), ("foo-bar", "1.0", "x86_64-linux"));
    let s = transform_record(
        &ctx,
        ok,
        "/gems/anything-1.gem",
        Some("g".to_string()),
        Some("v".to_string()),
        Some("p".to_string()),
    )
    .unwrap()
    .unwrap();
    assert_eq!((s.gem_name.as_str(), s.version.as_str(), s.platform.as_str()), ("g", "v", "p"));
    match transform_record(&ctx, ok, "/gems/x-y-z.gem", None, None, None) {
        Err(TransformError::UnknownFullName(n)) => assert_eq!(n, "x-y-z"),
        other => panic!("unexpected {:?}", other),
    }
    match transform_record(&ctx, ok, "/gems/rack-2.0.0.gem", Some("rack".to_string()), None, None) {
        Err(TransformError::MissingFields) => {}
        other => panic!("unexpected {:?}", other),
    }
}
