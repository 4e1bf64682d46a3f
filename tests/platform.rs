use kirby::platform::{Platform, PlatformArgumentError, PlatformParser};

fn platform(cpu: Option<&str>, os: &str, version: Option<&str>) -> Platform {
    Platform {
        cpu: cpu.map(|c| c.to_string()),
        os: os.to_string(),
        version: version.map(|v| v.to_string()),
    }
}

#[test]
fn test_platform_from_str() {
    let tests: Vec<(&str, Option<&str>, &str, Option<&str>)> = vec![
        ("0-x86linuxx86---", Some("0"), "linux", Some("x86")),
        ("amd64-freebsd6", Some("amd64"), "freebsd", Some("6")),
        ("arm-linux-eabi", Some("arm"), "linux", Some("eabi")),
        ("arm-linux-gnueabi", Some("arm"), "linux", Some("gnueabi")),
        ("arm-linux-musleabi", Some("arm"), "linux", Some("musleabi")),
        ("arm-linux-uclibceabi", Some("arm"), "linux", Some("uclibceabi")),
        ("darwin-java-java", Some("darwin"), "java", None),
        ("darwin0", None, "darwin", Some("0")),
        ("darwin0---", None, "darwin", Some("0")),
        ("freebsd0", None, "freebsd", Some("0")),
        ("i386-cygwin", Some("x86"), "cygwin", None),
        ("i386-freebsd", Some("x86"), "freebsd", None),
        ("i386-freebsd4.11", Some("x86"), "freebsd", Some("4")),
        ("i386-freebsd5", Some("x86"), "freebsd", Some("5")),
        ("i386-freebsd6", Some("x86"), "freebsd", Some("6")),
        ("i386-freebsd7", Some("x86"), "freebsd", Some("7")),
        ("i386-java1.5", Some("x86"), "java", Some("1.5")),
        ("i386-java1.6", Some("x86"), "java", Some("1.6")),
        ("i386-linux", Some("x86"), "linux", None),
        ("i386-linux-gnu", Some("x86"), "linux", Some("gnu")),
        ("i386-mingw32", Some("x86"), "mingw32", None),
        ("i386-mswin32", Some("x86"), "mswin32", None),
        ("i386-mswin32-80", Some("x86"), "mswin32", Some("80")),
        ("i386-mswin32_80", Some("x86"), "mswin32", Some("80")),
        ("i386-netbsdelf", Some("x86"), "netbsdelf", None),
        ("i386-openbsd4.0", Some("x86"), "openbsd", Some("4.0")),
        ("i386-solaris2.10", Some("x86"), "solaris", Some("2.10")),
        ("i386-solaris2.8", Some("x86"), "solaris", Some("2.8")),
        ("i486-linux", Some("x86"), "linux", None),
        ("i586-linux", Some("x86"), "linux", None),
        ("i586-linux-gnu", Some("x86"), "linux", Some("gnu")),
        ("i686-darwin", Some("x86"), "darwin", None),
        ("i686-darwin8.4.1", Some("x86"), "darwin", Some("8")),
        ("i686-linux", Some("x86"), "linux", None),
        ("java", None, "java", None),
        ("jruby", None, "java", None),
        ("linux-linux-linux", Some("linux"), "linux", Some("linux")),
        ("linux-linux-linux1.0", Some("linux"), "linux", Some("linux1")),
        ("mswin32", Some("x86"), "mswin32", None),
        ("powerpc-aix5.3.0.0", Some("powerpc"), "aix", Some("5")),
        ("powerpc-darwin7", Some("powerpc"), "darwin", Some("7")),
        ("powerpc-darwin8", Some("powerpc"), "darwin", Some("8")),
        ("powerpc-linux", Some("powerpc"), "linux", None),
        ("powerpc64-linux", Some("powerpc64"), "linux", None),
        ("sparc-solaris2.10", Some("sparc"), "solaris", Some("2.10")),
        ("sparc-solaris2.8", Some("sparc"), "solaris", Some("2.8")),
        ("sparc-solaris2.9", Some("sparc"), "solaris", Some("2.9")),
        ("universal-darwin8", Some("universal"), "darwin", Some("8")),
        ("universal-darwin9", Some("universal"), "darwin", Some("9")),
        ("universal-dotnet", Some("universal"), "dotnet", None),
        ("universal-dotnet2.0", Some("universal"), "dotnet", Some("2.0")),
        ("universal-dotnet4.0", Some("universal"), "dotnet", Some("4.0")),
        ("universal-freebsd", Some("universal"), "freebsd", None),
        ("universal-macruby", Some("universal"), "macruby", None),
        ("wasm32-wasi", Some("wasm32"), "wasi", None),
        ("wasm32-wasip1", Some("wasm32"), "wasi", None),
        ("wasm32-wasip2", Some("wasm32"), "wasi", None),
        ("x64-mingw-ucrt", Some("x64"), "mingw", Some("ucrt")),
        ("x86-java1.6", Some("x86"), "java", Some("1.6")),
        ("x86-linux-x8611.0l", Some("x86"), "linux", Some("x8611")),
        ("x86-mswin32", Some("x86"), "mswin32", None),
        ("x86-mswin32-60", Some("x86"), "mswin32", Some("60")),
        ("x86-mswin32_60", Some("x86"), "mswin32", Some("60")),
        ("x86_64-linux", Some("x86_64"), "linux", None),
        ("x86_64-linux-gnu", Some("x86_64"), "linux", Some("gnu")),
        ("x86_64-linux-musl", Some("x86_64"), "linux", Some("musl")),
        ("x86_64-linux-uclibc", Some("x86_64"), "linux", Some("uclibc")),
        ("x86_64-openbsd", Some("x86_64"), "openbsd", None),
        ("x86_64-openbsd3.9", Some("x86_64"), "openbsd", Some("3.9")),
        ("x86_64-openbsd4.0", Some("x86_64"), "openbsd", Some("4.0")),
        ("x86x86-1x86x86x86x861linuxx86x86", Some("x86x86"), "linux", Some("x86x86")),
    ];
    let parser = PlatformParser::new();
    for (input, cpu, os, version) in tests {
        let expected = platform(cpu, os, version);
        let parsed = parser.parse(input).unwrap();
        assert_eq!(expected, parsed, "{:?}", input);
        assert_eq!(
            expected,
            parser.parse(parsed.to_string().as_str()).unwrap(),
            "{:?}: to_string {:?}",
            input,
            parsed.to_string()
        );
    }
}

#[test]
fn platform_parse_scenarios() {
    let parser = PlatformParser::new();
    assert_eq!(parser.parse("x86_64-linux").unwrap(), platform(Some("x86_64"), "linux", None));
    assert_eq!(
        parser.parse("universal-dotnet2.0").unwrap(),
        platform(Some("universal"), "dotnet", Some("2.0"))
    );
}

#[test]
fn platform_missing_cpu() {
    let parser = PlatformParser::new();
    assert_eq!(parser.parse("").unwrap_err(), PlatformArgumentError::MissingCPU);
    assert_eq!(parser.parse("---").unwrap_err(), PlatformArgumentError::MissingCPU);
    assert_eq!(parser.parse("-linux").unwrap_err(), PlatformArgumentError::MissingCPU);
}

#[test]
fn platform_unknown_os_keeps_cpu() {
    let parser = PlatformParser::new();
    assert_eq!(parser.parse("sparc-plan9").unwrap(), platform(Some("sparc"), "unknown", None));
    assert_eq!(parser.parse("i686").unwrap(), platform(None, "unknown", None));
}

#[test]
fn platform_canonical_spelling() {
    assert_eq!(platform(None, "java", Some("1.8")).to_string(), "java1.8");
    assert_eq!(platform(Some("x86"), "mswin32", Some("80")).to_string(), "x86-mswin32-80");
    assert_eq!(platform(Some("arm"), "linux", None).to_string(), "arm-linux");
    assert_eq!(platform(None, "unknown", None).to_string(), "unknown");
}

#[test]
fn platform_round_trip_samples() {
    let parser = PlatformParser::new();
    for input in ["x86_64-darwin-19", "aarch64-linux-musl", "x64-mingw-ucrt", "java", "universal-java-11"] {
        let first = parser.parse(input).unwrap();
        let again = parser.parse(first.to_string().as_str()).unwrap();
        assert_eq!(first, again, "{:?}", input);
    }
}

#[test]
fn platform_round_trip_exceptions() {
    let parser = PlatformParser::new();
    let java = parser.parse("x86-java1.5.2").unwrap();
    assert_eq!(java, platform(Some("x86"), "java", Some("1.5.2")));
    assert_eq!(java.to_string(), "x86-java-1.5.2");
    assert_eq!(parser.parse(java.to_string().as_str()).unwrap(), platform(Some("x86"), "java", None));
    let mswin = parser.parse("mswin64_1").unwrap();
    assert_eq!(mswin, platform(None, "mswin64", Some("1")));
    assert_eq!(parser.parse(mswin.to_string().as_str()).unwrap(), platform(None, "mswin641", None));
}
