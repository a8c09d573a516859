use core::str::FromStr;
use peach::package::{build_package, Package, ParseError, RawInfo, RawManifest, RawSource, RawStep, Runner, StepVariant};

const MINIMAL: &str = r#"
[info]
name = "foo"
version = "1.0"
description = "a package"
license = "MIT"
"#;

#[test]
fn parse_minimal_manifest() {
    let p = Package::parse(MINIMAL, "/stage/package").unwrap();
    assert_eq!(p.info.name, "foo");
    assert_eq!(p.info.version, "1.0");
    assert_eq!(p.info.description, "a package");
    assert!(p.dependencies.is_none());
    assert!(p.sources.is_empty());
    assert!(p.steps.is_empty());
    assert!(p.directories.is_empty());
}

#[test]
fn license_round_trips() {
    let p = Package::parse(MINIMAL, "/stage/package").unwrap();
    assert_eq!(p.info.license, "MIT");
}

#[test]
fn source_url_is_substituted() {
    let text = r#"
[info]
name = "foo"
version = "1.0"
description = "d"
license = "MIT"

[[sources]]
url = "https://x/%{version}.tar.gz"
checksum = "sha256:aaaa"
"#;
    let p = Package::parse(text, "/stage/package").unwrap();
    assert_eq!(p.sources.len(), 1);
    assert_eq!(p.sources[0].url, "https://x/1.0.tar.gz");
    assert_eq!(p.sources[0].checksum, "sha256:aaaa");
}

#[test]
fn steps_are_parsed_and_substituted() {
    let text = r#"
[info]
name = "foo"
version = "2.5"
description = "d"
license = "Apache-2.0"

[[steps]]
name = "configure"
runner = "shell"
command = "./configure --prefix=%{pkgdir} --with-version=%{version}"

[[steps]]
name = "stage"
path = "%{pkgdir}/bin"
"#;
    let p = Package::parse(text, "/stage/package").unwrap();
    assert_eq!(p.steps.len(), 2);
    assert_eq!(p.steps[0].name, "configure");
    match &p.steps[0].variant {
        StepVariant::Command { runner, command } => {
            assert_eq!(*runner, Runner::Shell);
            assert_eq!(command, "./configure --prefix=/stage/package --with-version=2.5");
        }
        other => panic!("expected a command step, got {other:?}"),
    }
    match &p.steps[1].variant {
        StepVariant::Move { path } => assert_eq!(path, "/stage/package/bin"),
        other => panic!("expected a move step, got {other:?}"),
    }
}

#[test]
fn dependencies_and_directories_are_kept() {
    let text = r#"
[info]
name = "foo"
version = "1.0"
description = "d"
license = "MIT"

[dependencies]
required = ["a", "b"]
build = ["cc"]

[directories]
bin = "/usr/bin"
lib = "/usr/lib"
"#;
    let p = Package::parse(text, "/stage/package").unwrap();
    let deps = p.dependencies.unwrap();
    assert_eq!(deps.required, vec!["a".to_string(), "b".to_string()]);
    assert!(deps.optional.is_empty());
    assert_eq!(deps.build, vec!["cc".to_string()]);
    let mut dirs = p.directories.clone();
    dirs.sort();
    assert_eq!(
        dirs,
        vec![
            ("bin".to_string(), "/usr/bin".to_string()),
            ("lib".to_string(), "/usr/lib".to_string()),
        ]
    );
}

#[test]
fn invalid_toml_is_a_format_error() {
    let r = Package::parse("this is [not toml", "/stage/package");
    assert!(matches!(r, Err(ParseError::Format(_))));
}

#[test]
fn missing_required_field_is_a_format_error() {
    let text = r#"
[info]
name = "foo"
description = "d"
license = "MIT"
"#;
    let r = Package::parse(text, "/stage/package");
    assert!(matches!(r, Err(ParseError::Format(_))));
}

#[test]
fn invalid_license_is_a_license_error() {
    let text = r#"
[info]
name = "foo"
version = "1.0"
description = "d"
license = "not a real license"
"#;
    let r = Package::parse(text, "/stage/package");
    assert!(matches!(r, Err(ParseError::License(l)) if l == "not a real license"));
}

#[test]
fn undefined_variable_is_a_variable_error() {
    let text = r#"
[info]
name = "foo"
version = "1.0"
description = "d"
license = "MIT"

[[sources]]
url = "https://x/%{undefined}.tar.gz"
checksum = "sha256:aaaa"
"#;
    let r = Package::parse(text, "/stage/package");
    assert!(matches!(r, Err(ParseError::Variable(n)) if n == "undefined"));
}

#[test]
fn unknown_runner_is_an_error() {
    let text = r#"
[info]
name = "foo"
version = "1.0"
description = "d"
license = "MIT"

[[steps]]
name = "x"
runner = "python"
command = "print()"
"#;
    let r = Package::parse(text, "/stage/package");
    assert!(matches!(r, Err(ParseError::Format(_))));
}

#[test]
fn unknown_top_level_fields_are_ignored() {
    let text = r#"
something_else = "ok"

[info]
name = "foo"
version = "1.0"
description = "d"
license = "MIT"
"#;
    assert!(Package::parse(text, "/stage/package").is_ok());
}

#[test]
fn runner_name_and_from_str() {
    assert_eq!(Runner::Shell.name(), "shell");
    assert!(matches!(Runner::from_str("shell"), Ok(Runner::Shell)));
    assert!(Runner::from_str("python").is_err());
    assert!(Runner::from_str("Shell").is_err());
}

#[test]
fn runner_name_round_trips_through_from_str() {
    assert!(matches!(Runner::from_str(Runner::Shell.name()), Ok(Runner::Shell)));
}

#[test]
fn runner_invocation_is_the_shell() {
    assert_eq!(Runner::Shell.invocation(), ("/bin/sh", "-c"));
}

#[test]
fn build_package_applies_the_schema() {
    let raw = RawManifest {
        info: RawInfo {
            name: Some("foo".into()),
            version: Some("1.0".into()),
            description: Some("d".into()),
            license: Some("MIT".into()),
        },
        dependencies: None,
        sources: vec![RawSource {
            url: Some("https://x/%{version}.tar.gz".into()),
            checksum: Some("sha256:aa".into()),
        }],
        steps: vec![RawStep {
            name: Some("stage".into()),
            runner: None,
            command: None,
            path: Some("%{pkgdir}/bin".into()),
        }],
        directories: vec![],
    };
    let p = build_package(raw, "/stage/package").unwrap();
    assert_eq!(p.sources[0].url, "https://x/1.0.tar.gz");
    match &p.steps[0].variant {
        StepVariant::Move { path } => assert_eq!(path, "/stage/package/bin"),
        other => panic!("expected a move step, got {other:?}"),
    }
}

#[test]
fn build_package_rejects_an_empty_version() {
    let raw = RawManifest {
        info: RawInfo {
            name: Some("foo".into()),
            version: Some(String::new()),
            description: Some("d".into()),
            license: Some("MIT".into()),
        },
        dependencies: None,
        sources: vec![],
        steps: vec![],
        directories: vec![],
    };
    assert!(matches!(build_package(raw, "/s"), Err(ParseError::Format(_))));
}
