//! Bridge output: the project file the resolution engine consumes.

use ripenv::bridge::{format_simple_requirement, pipfile_to_pyproject_toml};
use ripenv::parser::parse;

fn minimal_text() -> &'static str {
    "[[source]]\nurl = \"https://pypi.org/simple\"\nverify_ssl = true\nname = \"pypi\"\n\n[packages]\nrequests = \"*\"\n\n[requires]\npython_version = \"3.12\"\n"
}

fn complex_specs_text() -> &'static str {
    "[[source]]\nurl = \"https://pypi.org/simple\"\nverify_ssl = true\nname = \"pypi\"\n\n[packages]\nrequests = {version = \">=2.32.0\", extras = [\"security\"]}\nstdeb = {version = \"*\", sys_platform = \"== 'linux'\"}\nlocal-dev = {path = \"./local-dev\", editable = true}\n\n[requires]\npython_version = \"3.12\"\n"
}

fn vcs_text() -> &'static str {
    "[[source]]\nurl = \"https://pypi.org/simple\"\nverify_ssl = true\nname = \"pypi\"\n\n[packages]\nmy-git-pkg = {git = \"https://github.com/example/my-git-pkg.git\", ref = \"main\"}\nmy-local-pkg = {path = \"./local-pkg\", editable = true}\n"
}

fn multiple_sources_text() -> &'static str {
    "[[source]]\nurl = \"https://pypi.org/simple\"\nverify_ssl = true\nname = \"pypi\"\n\n[[source]]\nurl = \"https://my-private-index.example.com/simple\"\nverify_ssl = true\nname = \"private\"\n\n[packages]\nrequests = \"*\"\ninternal-tool = {version = \"*\", index = \"private\"}\n"
}

fn with_dev_deps_text() -> &'static str {
    "[[source]]\nurl = \"https://pypi.org/simple\"\nverify_ssl = true\nname = \"pypi\"\n\n[packages]\nrequests = \"*\"\n\n[dev-packages]\npytest = \">=7.4.0\"\npytest-cov = \"==4.*\"\n\n[requires]\npython_version = \"3.12\"\n"
}

#[test]
fn bridge_minimal_pipfile() {
    let pipfile = parse(minimal_text()).unwrap();
    let toml_text = pipfile_to_pyproject_toml(&pipfile, "test-project");

    assert!(toml_text.contains("[project]"));
    assert!(toml_text.contains("name = \"test-project\""));
    assert!(toml_text.contains("requires-python = \">=3.12\""));
    assert!(toml_text.contains("\"requests\""));
}

#[test]
fn bridge_complex_specs() {
    let pipfile = parse(complex_specs_text()).unwrap();
    let toml_text = pipfile_to_pyproject_toml(&pipfile, "complex");

    // extras should be included
    assert!(toml_text.contains("requests[security]>=2.32.0"));
    // markers should be present
    assert!(toml_text.contains("sys_platform"));
    // editable source should be present
    assert!(toml_text.contains("[tool.uv.sources]"));
    assert!(toml_text.contains("editable = true"));
}

#[test]
fn bridge_vcs_packages() {
    let pipfile = parse(vcs_text()).unwrap();
    let toml_text = pipfile_to_pyproject_toml(&pipfile, "vcs-test");

    // git source
    assert!(toml_text.contains("git = \"https://github.com/example/my-git-pkg.git\""));
    assert!(toml_text.contains("rev = \"main\""));
    // path source
    assert!(toml_text.contains("path = \"./local-pkg\""));
}

#[test]
fn bridge_multiple_sources() {
    let pipfile = parse(multiple_sources_text()).unwrap();
    let toml_text = pipfile_to_pyproject_toml(&pipfile, "multi-src");

    // both index entries should be present
    assert!(toml_text.contains("[[tool.uv.index]]"));
    assert!(toml_text.contains("name = \"pypi\""));
    assert!(toml_text.contains("name = \"private\""));
    // first source should be default
    assert!(toml_text.contains("default = true"));
    // index-pinned package should have source
    assert!(toml_text.contains("index = \"private\""));
}

#[test]
fn bridge_dev_packages() {
    let pipfile = parse(with_dev_deps_text()).unwrap();
    let toml_text = pipfile_to_pyproject_toml(&pipfile, "dev-test");

    assert!(toml_text.contains("[dependency-groups]"));
    assert!(toml_text.contains("dev = ["));
    assert!(toml_text.contains("pytest>=7.4.0"));
    assert!(toml_text.contains("pytest-cov==4.*"));
}

#[test]
fn bridge_wildcard_version() {
    // "*" should produce just the package name, no version specifier
    let toml_text = format_simple_requirement("flask", "*");
    assert_eq!(toml_text, "flask");
}

#[test]
fn bridge_specific_version() {
    let toml_text = format_simple_requirement("requests", ">=2.32.0");
    assert_eq!(toml_text, "requests>=2.32.0");
}

#[test]
fn bridge_full_python_version_is_exact() {
    let text = "[packages]\nsix = \"*\"\n\n[requires]\npython_full_version = \"3.12.1\"\n";
    let pipfile = parse(text).unwrap();
    let toml_text = pipfile_to_pyproject_toml(&pipfile, "exact");
    assert!(toml_text.contains("requires-python = \"==3.12.1\""));
}

#[test]
fn bridge_output_is_valid_toml() {
    let pipfile = parse(multiple_sources_text()).unwrap();
    let toml_text = pipfile_to_pyproject_toml(&pipfile, "check-valid");
    let value: Result<toml::Table, _> = toml::from_str(&toml_text);
    assert!(value.is_ok(), "emitted project file must be valid TOML: {toml_text}");
}
