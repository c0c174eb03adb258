//! Manifest parsing: fixtures, the string-or-table union, and errors.

use ripenv::model::{Pipfile, PipfilePackage};
use ripenv::parser::{parse, ParseErrorKind};

fn minimal_text() -> &'static str {
    "[[source]]\nurl = \"https://pypi.org/simple\"\nverify_ssl = true\nname = \"pypi\"\n\n[packages]\nrequests = \"*\"\n\n[requires]\npython_version = \"3.12\"\n"
}

fn with_dev_deps_text() -> &'static str {
    "[[source]]\nurl = \"https://pypi.org/simple\"\nverify_ssl = true\nname = \"pypi\"\n\n[packages]\nrequests = \"*\"\n\n[dev-packages]\npytest = \">=7.4.0\"\npytest-cov = \"==4.*\"\n\n[requires]\npython_version = \"3.12\"\n"
}

fn multiple_sources_text() -> &'static str {
    "[[source]]\nurl = \"https://pypi.org/simple\"\nverify_ssl = true\nname = \"pypi\"\n\n[[source]]\nurl = \"https://my-private-index.example.com/simple\"\nverify_ssl = true\nname = \"private\"\n\n[packages]\nrequests = \"*\"\ninternal-tool = {version = \"*\", index = \"private\"}\n"
}

fn vcs_and_editable_text() -> &'static str {
    "[[source]]\nurl = \"https://pypi.org/simple\"\nverify_ssl = true\nname = \"pypi\"\n\n[packages]\nmy-git-pkg = {git = \"https://github.com/example/my-git-pkg.git\", ref = \"main\"}\nmy-local-pkg = {path = \"./local-pkg\", editable = true}\n"
}

fn with_scripts_text() -> &'static str {
    "[[source]]\nurl = \"https://pypi.org/simple\"\nverify_ssl = true\nname = \"pypi\"\n\n[packages]\nrequests = \"*\"\n\n[scripts]\ntest = \"pytest -vvs\"\nserve = \"flask run --debug\"\nlint = \"ruff check .\"\n"
}

fn complex_specs_text() -> &'static str {
    "[[source]]\nurl = \"https://pypi.org/simple\"\nverify_ssl = true\nname = \"pypi\"\n\n[packages]\nrequests = {version = \">=2.32.0\", extras = [\"security\"]}\nstdeb = {version = \"*\", sys_platform = \"== 'linux'\"}\nlegacy-cgi = {version = \"*\", markers = \"python_version >= '3.13'\"}\nlocal-dev = {path = \"./local-dev\", editable = true}\n\n[dev-packages]\npipenv = {version = \"*\", extras = [\"tests\", \"dev\"]}\n\n[requires]\npython_version = \"3.12\"\n\n[pipenv]\nallow_prereleases = true\n"
}

#[test]
fn parse_minimal_pipfile() {
    let pipfile = parse(minimal_text()).expect("Failed to parse minimal Pipfile");
    assert_eq!(pipfile.sources_len(), 1);
    assert_eq!(pipfile.source[0].name, "pypi");
    assert_eq!(pipfile.source[0].url, "https://pypi.org/simple");
    assert!(pipfile.source[0].verify_ssl);
    assert_eq!(pipfile.packages_len(), 1);
    assert!(pipfile.contains_package("requests"));
    let requires = pipfile.requires.as_ref().expect("Missing [requires]");
    assert_eq!(requires.python_version.as_deref(), Some("3.12"));
    assert!(requires.python_full_version.is_none());
}

#[test]
fn parse_with_dev_deps() {
    let pipfile = parse(with_dev_deps_text()).expect("Failed to parse with-dev-deps");
    assert_eq!(pipfile.dev_packages_len(), 2);
    assert!(pipfile.contains_dev_package("pytest"));
    assert!(pipfile.contains_dev_package("pytest-cov"));
    assert!(!pipfile.contains_package("pytest"));
}

#[test]
fn parse_multiple_sources() {
    let pipfile = parse(multiple_sources_text()).expect("Failed to parse multiple-sources");
    assert_eq!(pipfile.sources_len(), 2);
    assert_eq!(pipfile.source[0].name, "pypi");
    assert_eq!(pipfile.source[1].name, "private");
    assert!(pipfile.source[1].url.contains("my-private-index.example.com"));
}

#[test]
fn parse_vcs_and_editable() {
    let pipfile = parse(vcs_and_editable_text()).expect("Failed to parse vcs-and-editable");
    let git_pkg = pipfile.get_package("my-git-pkg").expect("Missing my-git-pkg");
    match git_pkg {
        PipfilePackage::Detailed(d) => {
            assert_eq!(d.git.as_deref(), Some("https://github.com/example/my-git-pkg.git"));
            assert_eq!(d.git_ref.as_deref(), Some("main"));
        }
        _ => panic!("Expected Detailed for git package"),
    }
    let local_pkg = pipfile.get_package("my-local-pkg").expect("Missing my-local-pkg");
    match local_pkg {
        PipfilePackage::Detailed(d) => {
            assert_eq!(d.path.as_deref(), Some("./local-pkg"));
            assert!(d.editable);
        }
        _ => panic!("Expected Detailed for editable package"),
    }
}

#[test]
fn parse_with_scripts() {
    let pipfile = parse(with_scripts_text()).expect("Failed to parse with-scripts");
    assert_eq!(pipfile.scripts_len(), 3);
    assert_eq!(pipfile.get_script("test").map(|s| s.as_str()), Some("pytest -vvs"));
    assert_eq!(pipfile.get_script("serve").map(|s| s.as_str()), Some("flask run --debug"));
    assert_eq!(pipfile.get_script("lint").map(|s| s.as_str()), Some("ruff check ."));
}

#[test]
fn parse_complex_specs() {
    let pipfile = parse(complex_specs_text()).expect("Failed to parse complex-specs");
    match pipfile.get_package("requests").expect("Missing requests") {
        PipfilePackage::Detailed(d) => {
            assert_eq!(d.version.as_deref(), Some(">=2.32.0"));
            assert_eq!(d.extras, vec!["security".to_string()]);
        }
        _ => panic!("Expected Detailed for requests with extras"),
    }
    match pipfile.get_package("stdeb").expect("Missing stdeb") {
        PipfilePackage::Detailed(d) => assert!(d.sys_platform.is_some()),
        _ => panic!("Expected Detailed for stdeb"),
    }
    match pipfile.get_package("legacy-cgi").expect("Missing legacy-cgi") {
        PipfilePackage::Detailed(d) => assert!(d.markers.is_some()),
        _ => panic!("Expected Detailed for legacy-cgi"),
    }
    match pipfile.get_dev_package("pipenv").expect("Missing pipenv dev dep") {
        PipfilePackage::Detailed(d) => {
            assert_eq!(d.extras, vec!["tests".to_string(), "dev".to_string()]);
        }
        _ => panic!("Expected Detailed for pipenv dev dep"),
    }
    let settings = pipfile.pipenv.as_ref().expect("Missing [pipenv] section");
    assert!(settings.allow_prereleases);
}

#[test]
fn simple_version_string_parses() {
    let pipfile = parse(minimal_text()).expect("Failed to parse");
    match pipfile.get_package("requests").expect("Missing requests") {
        PipfilePackage::Simple(v) => assert_eq!(v, "*"),
        _ => panic!("Expected Simple for wildcard version"),
    }
}

#[test]
fn unknown_sections_and_keys_are_ignored() {
    let text = "[unknown-section]\nmystery = \"value\"\n\n[packages]\nsix = \"==1.17.0\"\n";
    let pipfile = parse(text).expect("unknown sections should be ignored");
    assert_eq!(pipfile.packages_len(), 1);
    assert!(pipfile.contains_package("six"));
}

#[test]
fn verify_ssl_defaults_to_true() {
    let text = "[[source]]\nurl = \"https://pypi.org/simple\"\nname = \"pypi\"\n";
    let pipfile = parse(text).expect("source without verify_ssl should parse");
    assert!(pipfile.source[0].verify_ssl);
}

#[test]
fn malformed_line_is_an_error() {
    let err = parse("[packages]\n!!!\n").unwrap_err();
    assert!(matches!(err.kind, ParseErrorKind::BadLine));
    assert_eq!(err.line, 2);
}

#[test]
fn unterminated_string_is_an_error() {
    let err = parse("[packages]\nrequests = \"*\n").unwrap_err();
    assert!(matches!(err.kind, ParseErrorKind::BadValue));
}

#[test]
fn duplicate_key_is_an_error() {
    let err = parse("[packages]\nsix = \"*\"\nsix = \"==1.17.0\"\n").unwrap_err();
    assert!(matches!(err.kind, ParseErrorKind::DuplicateKey));
}

#[test]
fn duplicate_section_is_an_error() {
    let err = parse("[packages]\n\n[packages]\n").unwrap_err();
    assert!(matches!(err.kind, ParseErrorKind::DuplicateSection));
}

#[test]
fn wrong_value_type_is_an_error() {
    let err = parse("[packages]\nrequests = true\n").unwrap_err();
    assert!(matches!(err.kind, ParseErrorKind::WrongType));
}

#[test]
fn source_without_url_is_an_error() {
    let err = parse("[[source]]\nname = \"pypi\"\n").unwrap_err();
    assert!(matches!(err.kind, ParseErrorKind::MissingField));
}

#[test]
fn package_maps_come_out_sorted() {
    let text = "[packages]\nzebra = \"*\"\nalpha = \"*\"\nmiddle = \"*\"\n";
    let pipfile = parse(text).expect("should parse");
    let keys: Vec<&str> = pipfile.packages.iter().map(|(k, _)| k.as_str()).collect();
    assert_eq!(keys, vec!["alpha", "middle", "zebra"]);
}

#[test]
fn blank_text_parses_to_the_empty_manifest() {
    for text in ["", "\n", "   \n\t\n", "# only a comment\n  # another\n"] {
        let pipfile = parse(text).expect("blank text must parse");
        assert_eq!(pipfile.sources_len(), 0);
        assert_eq!(pipfile.packages_len(), 0);
        assert_eq!(pipfile.dev_packages_len(), 0);
        assert_eq!(pipfile.scripts_len(), 0);
        assert!(pipfile.requires.is_none());
        assert!(pipfile.pipenv.is_none());
    }
}

#[test]
fn default_new_holds_the_standard_index() {
    let pipfile = Pipfile::default_new();
    assert_eq!(pipfile.sources_len(), 1);
    assert_eq!(pipfile.source[0].name, "pypi");
    assert_eq!(pipfile.source[0].url, "https://pypi.org/simple");
    assert_eq!(pipfile.packages_len(), 0);
    assert_eq!(pipfile.dev_packages_len(), 0);
}

#[test]
fn crlf_line_endings_parse() {
    let text = "[packages]\r\nsix = \"==1.17.0\"\r\n";
    let pipfile = parse(text).expect("CRLF text should parse");
    assert!(pipfile.contains_package("six"));
}
