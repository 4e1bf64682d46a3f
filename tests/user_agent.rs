use kirby::grammar::version;
use kirby::user_agent::{ParseCtx, UserAgent};

fn s(v: &str) -> Option<String> {
    Some(v.to_string())
}

fn empty() -> UserAgent {
    UserAgent {
        agent_name: None,
        agent_version: None,
        bundler: None,
        rubygems: None,
        ruby: None,
        platform: None,
        command: None,
        options: None,
        jruby: None,
        truffleruby: None,
        ci: None,
        gemstash: None,
    }
}

fn assert_same(actual: Option<UserAgent>, expected: UserAgent) {
    let a = actual.expect("user agent did not parse");
    assert_eq!(a.agent_name, expected.agent_name);
    assert_eq!(a.agent_version, expected.agent_version);
    assert_eq!(a.bundler, expected.bundler);
    assert_eq!(a.rubygems, expected.rubygems);
    assert_eq!(a.ruby, expected.ruby);
    assert_eq!(a.platform, expected.platform);
    assert_eq!(a.command, expected.command);
    assert_eq!(a.options, expected.options);
    assert_eq!(a.jruby, expected.jruby);
    assert_eq!(a.truffleruby, expected.truffleruby);
    assert_eq!(a.ci, expected.ci);
    assert_eq!(a.gemstash, expected.gemstash);
}

#[test]
fn test_parse() {
    let ctx = ParseCtx::new();
    let mut capture_locations = ctx.capture_locations();
    assert_same(
        ctx.parse(
            &mut capture_locations,
            "bundler/1.12.5 rubygems/2.6.10 ruby/2.3.1 (x86_64-pc-linux-gnu) command/install options/orig_path 95ac718b0e500f41",
        ),
        UserAgent {
            agent_name: s("bundler"),
            agent_version: s("1.12.5"),
            bundler: s("1.12.5"),
            rubygems: s("2.6.10"),
            ruby: s("2.3.1"),
            platform: s("x86_64-pc-linux-gnu"),
            command: s("install"),
            options: s("orig_path"),
            ..empty()
        },
    );

    assert_same(
        ctx.parse(
            &mut capture_locations,
            "Ruby, RubyGems/2.4.8 x86_64-linux Ruby/2.1.6 (2015-04-13 patchlevel 336)",
        ),
        UserAgent {
            agent_name: s("rubygems"),
            agent_version: s("2.4.8"),
            rubygems: s("2.4.8"),
            ruby: s("2.1.6"),
            platform: s("x86_64-linux"),
            ..empty()
        },
    );

    assert_same(
        ctx.parse(&mut capture_locations, "Ruby, Gems 1.1.1"),
        UserAgent { agent_name: s("gems"), agent_version: s("1.1.1"), ..empty() },
    );
}

#[test]
fn parse_bundler_user_agent() {
    let ctx = ParseCtx::new();
    let mut locs = ctx.capture_locations();
    assert_same(
        ctx.parse(
            &mut locs,
            "bundler/1.12.5 rubygems/2.6.10 ruby/2.3.1 (x86_64-pc-linux-gnu) command/install options/orig_path 95ac718b0e500f41",
        ),
        UserAgent {
            agent_name: s("bundler"),
            agent_version: s("1.12.5"),
            bundler: s("1.12.5"),
            rubygems: s("2.6.10"),
            ruby: s("2.3.1"),
            platform: s("x86_64-pc-linux-gnu"),
            command: s("install"),
            options: s("orig_path"),
            ..empty()
        },
    );
    for input in [
        "bundler/1.16.1 rubygems/2.6.11 ruby/2.4.1 (x86_64-pc-linux-gnu) command/install options/no_install,mirror.https://rubygems.org/,mirror.https://rubygems.org/.fallback_timeout/,path 59dbf8e99fa09c0a",
        "bundler/1.12.5 rubygems/2.6.10 ruby/2.3.1 (x86_64-pc-linux-gnu) command/install options/orig_path 95ac718b0e500f41",
        "bundler/1.16.1 rubygems/2.7.6 ruby/2.5.1 (x86_64-pc-linux-gnu) command/install options/no_install,git.allow_insecure,build.nokogiri,jobs,path,app_config,silence_root_warning,bin,gemfile e710485d04febb1e",
        "bundler/1.15.4 rubygems/2.6.14 ruby/2.4.2 (x86_64-w64-mingw32) command/install options/ 6e8fa23dbf26d4ff Gemstash/1.1.0",
        "bundler/1.16.2 rubygems/2.7.6 ruby/2.5.0 (x86_64-Oracle Corporation-linux) command/install jruby/9.2.1.0-SNAPSHOT options/no_install,retry,jobs,gemfile ci/travis,ci fe5e45257d515f1f",
        "bundler/1.5.1 rubygems/2.2.0 ruby/2.1.0 (x86_64-unknown-linux-gnu) command/install fe5e45257d515f1f",
    ] {
        let ua = ctx.parse(&mut locs, input).unwrap();
        assert_eq!(ua.agent_name, s("bundler"), "{:?}", input);
    }
}

#[test]
fn parse_user_agent() {
    let ctx = ParseCtx::new();
    let mut locs = ctx.capture_locations();
    let ua = ctx
        .parse(
            &mut locs,
            "bundler/1.12.5 rubygems/2.6.10 ruby/2.3.1 (x86_64-pc-linux-gnu) command/install options/orig_path 95ac718b0e500f41",
        )
        .unwrap();
    assert_eq!(ua.bundler, s("1.12.5"));
    assert_eq!(ua.rubygems, s("2.6.10"));
    assert_eq!(ua.ruby, s("2.3.1"));
    assert_eq!(ua.platform, s("x86_64-pc-linux-gnu"));
    assert_eq!(ua.command, s("install"));
    assert_eq!(ua.options, s("orig_path"));
}

#[test]
fn parse_rubygems_user_agent() {
    let ctx = ParseCtx::new();
    let mut locs = ctx.capture_locations();
    let ua = ctx
        .parse(&mut locs, "Ruby, RubyGems/2.4.8 x86_64-linux Ruby/2.1.6 (2015-04-13 patchlevel 336)")
        .unwrap();
    assert_eq!(ua.bundler, None);
    assert_eq!(ua.rubygems, s("2.4.8"));
    assert_eq!(ua.ruby, s("2.1.6"));
    assert_eq!(ua.platform, s("x86_64-linux"));
    assert_eq!(ua.command, None);
    assert_eq!(ua.options, None);
    assert_eq!(ua.jruby, None);
    assert_eq!(ua.truffleruby, None);
    assert_eq!(ua.ci, None);
    assert_eq!(ua.gemstash, None);
}

#[test]
fn bundler_fields_in_full() {
    let ctx = ParseCtx::new();
    let mut locs = ctx.capture_locations();
    assert_same(
        ctx.parse(
            &mut locs,
            "bundler/1.16.2 rubygems/2.7.6 ruby/2.5.0 (x86_64-Oracle Corporation-linux) command/install jruby/9.2.1.0-SNAPSHOT options/no_install,retry,jobs,gemfile ci/travis,ci fe5e45257d515f1f",
        ),
        UserAgent {
            agent_name: s("bundler"),
            agent_version: s("1.16.2"),
            bundler: s("1.16.2"),
            rubygems: s("2.7.6"),
            ruby: s("2.5.0"),
            platform: s("x86_64-Oracle Corporation-linux"),
            command: s("install"),
            options: s("no_install,retry,jobs,gemfile"),
            jruby: s("9.2.1.0-SNAPSHOT"),
            ci: s("travis,ci"),
            ..empty()
        },
    );
    assert_same(
        ctx.parse(
            &mut locs,
            "bundler/1.15.4 rubygems/2.6.14 ruby/2.4.2 (x86_64-w64-mingw32) command/--without test options/ 6e8fa23dbf26d4ff Gemstash/1.1.0",
        ),
        UserAgent {
            agent_name: s("bundler"),
            agent_version: s("1.15.4"),
            bundler: s("1.15.4"),
            rubygems: s("2.6.14"),
            ruby: s("2.4.2"),
            platform: s("x86_64-w64-mingw32"),
            command: s("--without test"),
            options: s(""),
            gemstash: s("1.1.0"),
            ..empty()
        },
    );
}

#[test]
fn registry_client_with_marker_and_gemstash() {
    let ctx = ParseCtx::new();
    let mut locs = ctx.capture_locations();
    assert_same(
        ctx.parse(
            &mut locs,
            "Ruby, RubyGems/2.6.6 x86_64-linux Ruby/2.3.1 (2018-01-06 patchlevel 0) rbx Gemstash/2.1.0",
        ),
        UserAgent {
            agent_name: s("rubygems"),
            agent_version: s("2.6.6"),
            rubygems: s("2.6.6"),
            ruby: s("2.3.1"),
            platform: s("x86_64-linux"),
            gemstash: s("2.1.0"),
            ..empty()
        },
    );
}

#[test]
fn classifier_priority_prefers_dependency_manager() {
    let ctx = ParseCtx::new();
    let mut locs = ctx.capture_locations();
    let ua = ctx
        .parse(
            &mut locs,
            "bundler/2.4.1 rubygems/3.4.1 ruby/3.2.0 (arm64-darwin-22) command/install 0123456789abcdef",
        )
        .unwrap();
    assert_eq!(ua.agent_name, s("bundler"));
    assert_eq!(ua.agent_version, s("2.4.1"));
    assert_eq!(ua.command, s("install"));
}

#[test]
fn classifier_fallback() {
    let ctx = ParseCtx::new();
    let mut locs = ctx.capture_locations();
    assert_same(
        ctx.parse(&mut locs, "SomeTool/9.9"),
        UserAgent { agent_name: s("SomeTool"), agent_version: s("9.9"), ..empty() },
    );
    assert_same(
        ctx.parse(&mut locs, "Ruby, curl"),
        UserAgent { agent_name: s("curl"), ..empty() },
    );
    assert!(ctx.parse(&mut locs, "").is_none());
    assert!(ctx.parse(&mut locs, " leading space").is_none());
}

#[test]
fn parsers_parse_version() {
    for v in ["1.0", "1", "1.0a", "1.0.0", "1.0.0a", "10000.1239857.12397858.12978362593487"] {
        assert_eq!(version(v), Some((String::new(), v.to_string())));
    }
    assert_eq!(version("1a.1"), Some(("a.1".to_string(), "1".to_string())));
    assert_eq!(version("a.1"), None);
    assert_eq!(version(".1"), None);
}

#[test]
fn user_agent_parser_parse_version() {
    for v in ["1.0", "1", "1.0a", "1.0.0", "1.0.0a", "10000.1239857.12397858.12978362593487"] {
        assert_eq!(version(v), Some((String::new(), v.to_string())));
    }
    assert_eq!(version("1a.1"), Some(("a.1".to_string(), "1".to_string())));
    assert_eq!(version("a.1"), None);
    assert_eq!(version(".1"), None);
}

#[test]
fn version_with_dash_segments() {
    assert_eq!(
        version("9.2.1.0-SNAPSHOT rest"),
        Some((" rest".to_string(), "9.2.1.0-SNAPSHOT".to_string()))
    );
    assert_eq!(version("1.0."), Some((".".to_string(), "1.0".to_string())));
}
