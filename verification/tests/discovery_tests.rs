//! Path naming and package-spec splitting.

use ripenv::cli::InstallArgs;
use ripenv::discovery::{project_name_from_dir, project_root};
use ripenv::install::{parse_package_spec, parse_requirement_line, split_name_version};
use ripenv::model::PipfilePackage;

#[test]
fn project_name_from_directory() {
    let name = project_name_from_dir("/home/user/my-project");
    assert_eq!(name, "my-project");
}

#[test]
fn project_name_fallback() {
    let name = project_name_from_dir("/");
    assert_eq!(name, "project");
}

#[test]
fn project_root_is_the_parent() {
    assert_eq!(
        project_root("/home/user/my-project/Pipfile").as_deref(),
        Some("/home/user/my-project")
    );
    assert_eq!(project_root("Pipfile").as_deref(), Some(""));
    assert_eq!(project_root("/").as_deref(), None);
    assert_eq!(project_root("/Pipfile").as_deref(), Some("/"));
    assert_eq!(project_root("a//b").as_deref(), Some("a"));
}

#[test]
fn split_name_version_at_first_constraint() {
    assert_eq!(split_name_version("requests>=2.0"), ("requests", ">=2.0"));
    assert_eq!(split_name_version("flask"), ("flask", ""));
    assert_eq!(split_name_version("requests[security]>=2.0"), ("requests[security]", ">=2.0"));
    assert_eq!(split_name_version("pytest-cov==4.*"), ("pytest-cov", "==4.*"));
    assert_eq!(split_name_version("pkg~=1.2"), ("pkg", "~=1.2"));
}

fn plain_args() -> InstallArgs {
    InstallArgs {
        packages: vec![],
        no_dev: false,
        system: false,
        deploy: false,
        requirements: None,
        dev_packages: false,
        pre: false,
        editable: false,
        skip_lock: false,
        index: None,
    }
}

#[test]
fn parse_package_spec_wildcard_and_version() {
    let args = plain_args();
    let (name, pkg) = parse_package_spec("flask", &args);
    assert_eq!(name, "flask");
    assert!(matches!(pkg, PipfilePackage::Simple(v) if v == "*"));

    let (name, pkg) = parse_package_spec("requests>=2.0", &args);
    assert_eq!(name, "requests");
    assert!(matches!(pkg, PipfilePackage::Simple(v) if v == ">=2.0"));
}

#[test]
fn parse_package_spec_editable() {
    let mut args = plain_args();
    args.editable = true;
    let (name, pkg) = parse_package_spec("./local-pkg", &args);
    assert_eq!(name, "./local-pkg");
    match pkg {
        PipfilePackage::Detailed(d) => {
            assert_eq!(d.path.as_deref(), Some("./local-pkg"));
            assert!(d.editable);
            // every other field keeps its default
            assert!(d.version.is_none());
            assert!(d.extras.is_empty());
            assert!(d.markers.is_none());
            assert!(d.sys_platform.is_none());
            assert!(d.git.is_none());
            assert!(d.git_ref.is_none());
            assert!(d.index.is_none());
        }
        _ => panic!("editable install should give a detailed package"),
    }
}

#[test]
fn parse_requirement_line_like_a_spec() {
    let (name, pkg) = parse_requirement_line("six==1.17.0");
    assert_eq!(name, "six");
    assert!(matches!(pkg, PipfilePackage::Simple(v) if v == "==1.17.0"));

    let (name, pkg) = parse_requirement_line("six");
    assert_eq!(name, "six");
    assert!(matches!(pkg, PipfilePackage::Simple(v) if v == "*"));
}
