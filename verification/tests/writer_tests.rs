//! Writer round trips: rendered text re-parses into an equivalent model.

use ripenv::model::{Pipfile, PipfilePackage, PipfilePackageDetail};
use ripenv::parser::parse;
use ripenv::writer::escape_toml_value;

fn minimal_text() -> &'static str {
    "[[source]]\nurl = \"https://pypi.org/simple\"\nverify_ssl = true\nname = \"pypi\"\n\n[packages]\nrequests = \"*\"\n\n[requires]\npython_version = \"3.12\"\n"
}

fn with_scripts_text() -> &'static str {
    "[[source]]\nurl = \"https://pypi.org/simple\"\nverify_ssl = true\nname = \"pypi\"\n\n[packages]\nrequests = \"*\"\n\n[scripts]\ntest = \"pytest -vvs\"\nserve = \"flask run --debug\"\nlint = \"ruff check .\"\n"
}

fn complex_specs_text() -> &'static str {
    "[[source]]\nurl = \"https://pypi.org/simple\"\nverify_ssl = true\nname = \"pypi\"\n\n[packages]\nrequests = {version = \">=2.32.0\", extras = [\"security\"]}\nstdeb = {version = \"*\", sys_platform = \"== 'linux'\"}\nlegacy-cgi = {version = \"*\", markers = \"python_version >= '3.13'\"}\nlocal-dev = {path = \"./local-dev\", editable = true}\n\n[dev-packages]\npipenv = {version = \"*\", extras = [\"tests\", \"dev\"]}\n\n[requires]\npython_version = \"3.12\"\n\n[pipenv]\nallow_prereleases = true\n"
}

#[test]
fn round_trip_minimal() {
    let pipfile = parse(minimal_text()).unwrap();
    let toml_text = pipfile.to_toml_string();

    // re-parse the generated text
    let reparsed = parse(&toml_text).unwrap();

    assert_eq!(reparsed.sources_len(), 1);
    assert_eq!(reparsed.source[0].name, "pypi");
    assert_eq!(reparsed.packages_len(), 1);
    assert!(reparsed.contains_package("requests"));
}

#[test]
fn round_trip_with_scripts() {
    let pipfile = parse(with_scripts_text()).unwrap();
    let toml_text = pipfile.to_toml_string();

    let reparsed = parse(&toml_text).unwrap();
    assert_eq!(reparsed.scripts_len(), 3);
    assert_eq!(reparsed.get_script("test").map(|s| s.as_str()), Some("pytest -vvs"));
}

#[test]
fn round_trip_complex_specs() {
    let pipfile = parse(complex_specs_text()).unwrap();
    let toml_text = pipfile.to_toml_string();

    let reparsed = parse(&toml_text).unwrap();
    assert_eq!(reparsed.packages_len(), pipfile.packages_len());
    assert_eq!(reparsed.dev_packages_len(), pipfile.dev_packages_len());
}

#[test]
fn round_trip_keeps_key_sets_and_source_count() {
    let pipfile = parse(complex_specs_text()).unwrap();
    let reparsed = parse(&pipfile.to_toml_string()).unwrap();
    assert_eq!(reparsed.sources_len(), pipfile.sources_len());
    let keys: Vec<&str> = pipfile.packages.iter().map(|(k, _)| k.as_str()).collect();
    let rekeys: Vec<&str> = reparsed.packages.iter().map(|(k, _)| k.as_str()).collect();
    assert_eq!(keys, rekeys);
    let dev_keys: Vec<&str> = pipfile.dev_packages.iter().map(|(k, _)| k.as_str()).collect();
    let re_dev_keys: Vec<&str> = reparsed.dev_packages.iter().map(|(k, _)| k.as_str()).collect();
    assert_eq!(dev_keys, re_dev_keys);
}

#[test]
fn rendered_text_is_valid_toml() {
    // the emitted text parses under a full TOML implementation as well
    let pipfile = parse(complex_specs_text()).unwrap();
    let toml_text = pipfile.to_toml_string();
    let value: Result<toml::Table, _> = toml::from_str(&toml_text);
    assert!(value.is_ok(), "emitted manifest text must be valid TOML: {toml_text}");
}

#[test]
fn detailed_fields_render_in_fixed_order() {
    let pipfile = Pipfile {
        source: vec![],
        packages: vec![(
            "demo".to_string(),
            PipfilePackage::Detailed(PipfilePackageDetail {
                version: Some(">=1.0".to_string()),
                extras: vec!["a".to_string(), "b".to_string()],
                markers: Some("python_version >= '3.10'".to_string()),
                sys_platform: None,
                git: None,
                git_ref: None,
                path: None,
                editable: false,
                index: Some("pypi".to_string()),
            }),
        )],
        dev_packages: vec![],
        requires: None,
        scripts: vec![],
        pipenv: None,
    };
    let toml_text = pipfile.to_toml_string();
    assert!(toml_text.contains(
        "demo = {version = \">=1.0\", extras = [\"a\", \"b\"], index = \"pypi\", markers = \"python_version >= '3.10'\"}"
    ));
}

#[test]
fn all_string_values_are_escaped() {
    // quotes and backslashes in any string value come out escaped, so the
    // rendered text stays valid TOML and round-trips
    let pipfile = Pipfile {
        source: vec![ripenv::model::PipfileSource {
            name: "o\"dd".to_string(),
            url: "https://example.com/\\raw".to_string(),
            verify_ssl: true,
        }],
        packages: vec![(
            "demo".to_string(),
            PipfilePackage::Simple("==1.0+tag\"x".to_string()),
        )],
        dev_packages: vec![],
        requires: None,
        scripts: vec![],
        pipenv: None,
    };
    let toml_text = pipfile.to_toml_string();
    assert!(toml_text.contains("name = \"o\\\"dd\""));
    assert!(toml_text.contains("url = \"https://example.com/\\\\raw\""));
    assert!(toml_text.contains("demo = \"==1.0+tag\\\"x\""));
    let reparsed = parse(&toml_text).unwrap();
    assert_eq!(reparsed.source[0].name, "o\"dd");
    assert_eq!(reparsed.source[0].url, "https://example.com/\\raw");
    match reparsed.get_package("demo").unwrap() {
        PipfilePackage::Simple(v) => assert_eq!(v, "==1.0+tag\"x"),
        _ => panic!("expected a simple package"),
    }
    let value: Result<toml::Table, _> = toml::from_str(&toml_text);
    assert!(value.is_ok(), "escaped output must stay valid TOML: {toml_text}");
}

#[test]
fn non_bare_keys_are_quoted() {
    let pipfile = Pipfile {
        source: vec![],
        packages: vec![],
        dev_packages: vec![],
        requires: None,
        scripts: vec![("with space".to_string(), "echo hi".to_string())],
        pipenv: None,
    };
    let toml_text = pipfile.to_toml_string();
    assert!(toml_text.contains("\"with space\" = \"echo hi\""));
    let reparsed = parse(&toml_text).unwrap();
    assert_eq!(reparsed.get_script("with space").map(|c| c.as_str()), Some("echo hi"));
}

#[test]
fn scripts_are_escaped() {
    assert_eq!(escape_toml_value("say \"hi\" \\ there"), "say \\\"hi\\\" \\\\ there");
    let pipfile = Pipfile {
        source: vec![],
        packages: vec![],
        dev_packages: vec![],
        requires: None,
        scripts: vec![("echo".to_string(), "say \"hi\"".to_string())],
        pipenv: None,
    };
    let toml_text = pipfile.to_toml_string();
    assert!(toml_text.contains("echo = \"say \\\"hi\\\"\""));
    let reparsed = parse(&toml_text).unwrap();
    assert_eq!(reparsed.get_script("echo").map(|s| s.as_str()), Some("say \"hi\""));
}
