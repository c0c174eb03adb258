//! Lock reconstruction: reachability, normalization, hashing and the
//! artifact text.

use ripenv::lockfile::{categorize_packages, compute_pipfile_hash, find_source_name,
    generate_pipfile_lock, normalize_package_name, packages_to_json, pipfile_requires_to_json,
    source_to_json, LockGraph, LockNode};
use ripenv::model::{Pipfile, PipfilePackage, PipfileRequires, PipfileSource};
use ripenv::reach::bfs_reachable;
use sha2::Digest;

fn s(text: &str) -> String {
    text.to_string()
}

fn contains(names: &[String], needle: &str) -> bool {
    names.iter().any(|n| n == needle)
}

fn node(name: &str, version: &str, deps: &[&str]) -> LockNode {
    LockNode {
        name: s(name),
        version: Some(s(version)),
        is_virtual: false,
        hashes: vec![format!("sha256:{name}00aa")],
        deps: deps.iter().map(|d| s(d)).collect(),
        index_url: Some(s("https://pypi.org/simple")),
    }
}

fn pypi_source() -> PipfileSource {
    PipfileSource { name: s("pypi"), url: s("https://pypi.org/simple"), verify_ssl: true }
}

fn six_pipfile() -> Pipfile {
    Pipfile {
        source: vec![pypi_source()],
        packages: vec![(s("six"), PipfilePackage::Simple(s("==1.17.0")))],
        dev_packages: vec![],
        requires: Some(
            PipfileRequires { python_version: Some(s("3.12")), python_full_version: None },
        ),
        scripts: vec![],
        pipenv: None,
    }
}

fn split_pipfile() -> Pipfile {
    Pipfile {
        source: vec![pypi_source()],
        packages: vec![(s("six"), PipfilePackage::Simple(s("==1.17.0")))],
        dev_packages: vec![(s("iniconfig"), PipfilePackage::Simple(s("==2.1.0")))],
        requires: Some(
            PipfileRequires { python_version: Some(s("3.12")), python_full_version: None },
        ),
        scripts: vec![],
        pipenv: None,
    }
}

fn split_graph() -> LockGraph {
    LockGraph {
        nodes: vec![
            LockNode {
                name: s("demo-project"),
                version: None,
                is_virtual: true,
                hashes: vec![],
                deps: vec![s("six"), s("iniconfig")],
                index_url: None,
            },
            node("six", "1.17.0", &[]),
            node("iniconfig", "2.1.0", &[]),
        ],
    }
}

#[test]
fn test_normalize_package_name() {
    assert_eq!(normalize_package_name("Flask"), "flask");
    assert_eq!(normalize_package_name("my_package"), "my-package");
    assert_eq!(normalize_package_name("requests"), "requests");
    assert_eq!(normalize_package_name("Jinja2"), "jinja2");
}

#[test]
fn normalization_is_idempotent() {
    for name in ["Flask", "my_package", "My__Weird..Name", "-lead", "trail-", "a.b_c-d"] {
        let once = normalize_package_name(name);
        assert_eq!(normalize_package_name(&once), once);
    }
}

#[test]
fn normalization_collapses_separator_runs() {
    assert_eq!(normalize_package_name("My__Weird..Name"), "my-weird-name");
    assert_eq!(normalize_package_name("a.b_c-d"), "a-b-c-d");
}

#[test]
fn test_pipfile_requires_to_json_empty() {
    let result = pipfile_requires_to_json(&None);
    assert_eq!(result, "{}");
}

#[test]
fn test_pipfile_requires_to_json_with_version() {
    let requires = PipfileRequires { python_version: Some(s("3.12")), python_full_version: None };
    let result = pipfile_requires_to_json(&Some(requires));
    assert_eq!(result, "{\"python_version\":\"3.12\"}");
}

#[test]
fn test_packages_to_json_simple() {
    let packages = vec![(s("requests"), PipfilePackage::Simple(s("*")))];
    let result = packages_to_json(&packages);
    assert_eq!(result, "{\"requests\":\"*\"}");
}

#[test]
fn source_to_json_has_canonical_keys() {
    let result = source_to_json(&pypi_source());
    assert_eq!(
        result,
        "{\"name\":\"pypi\",\"url\":\"https://pypi.org/simple\",\"verify_ssl\":true}"
    );
}

#[test]
fn test_compute_pipfile_hash_deterministic() {
    let pipfile = Pipfile::default_new();
    let hash1 = compute_pipfile_hash(&pipfile);
    let hash2 = compute_pipfile_hash(&pipfile);
    assert_eq!(hash1, hash2);
    assert_eq!(hash1.len(), 64);  // SHA256 hex = 64 chars
}

#[test]
fn content_hash_matches_a_direct_digest() {
    // the canonical document of the six manifest, written out by hand
    let document = "{\"_meta\":{\"requires\":{\"python_version\":\"3.12\"},\"sources\":[{\"name\":\"pypi\",\"url\":\"https://pypi.org/simple\",\"verify_ssl\":true}]},\"default\":{\"six\":\"==1.17.0\"},\"develop\":{}}";
    let digest = sha2::Sha256::digest(document.as_bytes());
    let expected: String = digest.iter().map(|b| format!("{b:02x}")).collect();
    assert_eq!(compute_pipfile_hash(&six_pipfile()), expected);
}

#[test]
fn test_bfs_reachable_simple() {
    let adjacency = vec![
        (s("flask"), vec![s("werkzeug"), s("jinja2")]),
        (s("werkzeug"), vec![s("markupsafe")]),
        (s("jinja2"), vec![s("markupsafe")]),
        (s("markupsafe"), vec![]),
    ];
    let reachable = bfs_reachable(&adjacency, &vec![s("flask")]);
    assert!(contains(&reachable, "flask"));
    assert!(contains(&reachable, "werkzeug"));
    assert!(contains(&reachable, "jinja2"));
    assert!(contains(&reachable, "markupsafe"));
    assert_eq!(reachable.len(), 4);
}

#[test]
fn test_bfs_reachable_disjoint() {
    let adjacency = vec![
        (s("flask"), vec![s("werkzeug")]),
        (s("werkzeug"), vec![]),
        (s("pytest"), vec![s("pluggy")]),
        (s("pluggy"), vec![]),
    ];
    let default = bfs_reachable(&adjacency, &vec![s("flask")]);
    let develop = bfs_reachable(&adjacency, &vec![s("pytest")]);

    assert!(contains(&default, "flask"));
    assert!(contains(&default, "werkzeug"));
    assert!(!contains(&default, "pytest"));

    assert!(contains(&develop, "pytest"));
    assert!(contains(&develop, "pluggy"));
    assert!(!contains(&develop, "flask"));
}

#[test]
fn bfs_is_cycle_safe() {
    let adjacency = vec![(s("a"), vec![s("b")]), (s("b"), vec![s("a"), s("c")]), (s("c"), vec![])];
    let reachable = bfs_reachable(&adjacency, &vec![s("a")]);
    assert_eq!(reachable.len(), 3);
}

#[test]
fn categorization_prefers_production() {
    // a name reachable from both sides lands in default, not develop
    let pipfile = Pipfile {
        source: vec![pypi_source()],
        packages: vec![(s("flask"), PipfilePackage::Simple(s("*")))],
        dev_packages: vec![(s("pytest"), PipfilePackage::Simple(s("*")))],
        requires: None,
        scripts: vec![],
        pipenv: None,
    };
    let graph = LockGraph {
        nodes: vec![
            node("flask", "3.0.0", &["shared"]),
            node("pytest", "8.0.0", &["shared"]),
            node("shared", "1.0.0", &[]),
        ],
    };
    let (default_names, develop_names) = categorize_packages(&pipfile, &graph);
    assert!(contains(&default_names, "shared"));
    assert!(!contains(&develop_names, "shared"));
    assert!(contains(&develop_names, "pytest"));
}

#[test]
fn virtual_node_edges_do_not_reach() {
    // a virtual or version-less node contributes no adjacency edges: its
    // dependencies do not become production packages through it
    let pipfile = Pipfile {
        source: vec![pypi_source()],
        packages: vec![(s("a"), PipfilePackage::Simple(s("*")))],
        dev_packages: vec![],
        requires: None,
        scripts: vec![],
        pipenv: None,
    };
    let graph = LockGraph {
        nodes: vec![
            LockNode {
                name: s("a"),
                version: None,
                is_virtual: true,
                hashes: vec![],
                deps: vec![s("b")],
                index_url: None,
            },
            node("b", "1.0.0", &[]),
        ],
    };
    let (default_names, develop_names) = categorize_packages(&pipfile, &graph);
    assert!(contains(&default_names, "a"));
    assert!(!contains(&default_names, "b"), "a virtual node's edges must not be followed");
    assert!(develop_names.is_empty());
}

#[test]
fn versionless_node_edges_do_not_reach() {
    let pipfile = Pipfile {
        source: vec![pypi_source()],
        packages: vec![(s("a"), PipfilePackage::Simple(s("*")))],
        dev_packages: vec![],
        requires: None,
        scripts: vec![],
        pipenv: None,
    };
    let graph = LockGraph {
        nodes: vec![
            LockNode {
                name: s("a"),
                version: None,
                is_virtual: false,
                hashes: vec![],
                deps: vec![s("b")],
                index_url: None,
            },
            node("b", "1.0.0", &[]),
        ],
    };
    let (default_names, _develop_names) = categorize_packages(&pipfile, &graph);
    assert!(!contains(&default_names, "b"), "a version-less node's edges must not be followed");
}

#[test]
fn lock_generates_pipfile_lock() {
    let text = generate_pipfile_lock(&split_graph(), &split_pipfile());
    let value: serde_json::Value = serde_json::from_str(&text).expect("artifact must be JSON");
    assert!(value.get("_meta").is_some(), "missing _meta key");
    assert!(value.get("default").is_some(), "missing default key");
    assert!(value.get("develop").is_some(), "missing develop key");
    assert!(text.ends_with("\n"));
}

#[test]
fn pipfile_lock_has_correct_meta() {
    let text = generate_pipfile_lock(&split_graph(), &split_pipfile());
    let value: serde_json::Value = serde_json::from_str(&text).unwrap();
    let meta = &value["_meta"];
    assert_eq!(meta["pipfile-spec"], 6);
    let hash = meta["hash"]["sha256"].as_str().unwrap();
    assert_eq!(hash.len(), 64, "SHA256 hex should be 64 chars: {hash}");
    let sources = meta["sources"].as_array().unwrap();
    assert!(!sources.is_empty(), "sources should not be empty");
    assert_eq!(sources[0]["name"], "pypi");
    assert_eq!(sources[0]["url"], "https://pypi.org/simple");
    assert_eq!(meta["requires"]["python_version"], "3.12");
}

#[test]
fn pipfile_lock_default_develop_split() {
    let text = generate_pipfile_lock(&split_graph(), &split_pipfile());
    let value: serde_json::Value = serde_json::from_str(&text).unwrap();
    let default = value["default"].as_object().unwrap();
    let develop = value["develop"].as_object().unwrap();
    assert!(default.contains_key("six"), "six should be in default");
    assert!(develop.contains_key("iniconfig"), "iniconfig should be in develop, got: {develop:?}");
    assert!(!default.contains_key("iniconfig"), "iniconfig should not be in default");
    assert!(!develop.contains_key("six"));
}

#[test]
fn pipfile_lock_packages_have_hashes_and_versions() {
    let text = generate_pipfile_lock(&split_graph(), &split_pipfile());
    let value: serde_json::Value = serde_json::from_str(&text).unwrap();
    let six = &value["default"]["six"];
    let hashes = six["hashes"].as_array().unwrap();
    assert!(!hashes.is_empty(), "six should have at least one hash");
    let hash_str = hashes[0].as_str().unwrap();
    assert!(hash_str.starts_with("sha256:"), "hash should start with sha256: got {hash_str}");
    let version = six["version"].as_str().unwrap();
    assert!(version.starts_with("=="), "version should be pinned with ==, got: {version}");
    assert_eq!(version, "==1.17.0");
}

#[test]
fn pipfile_lock_is_deterministic() {
    let first = generate_pipfile_lock(&split_graph(), &split_pipfile());
    let second = generate_pipfile_lock(&split_graph(), &split_pipfile());
    assert_eq!(first, second, "Pipfile.lock should be identical across runs");
}

#[test]
fn lock_attributes_the_matching_index() {
    let graph = split_graph();
    let pipfile = split_pipfile();
    let named = find_source_name(&graph.nodes[1], &pipfile);
    assert_eq!(named.as_deref(), Some("pypi"));
    let text = generate_pipfile_lock(&graph, &pipfile);
    let value: serde_json::Value = serde_json::from_str(&text).unwrap();
    assert_eq!(value["default"]["six"]["index"], "pypi");
}

#[test]
fn virtual_root_is_excluded_from_output() {
    let text = generate_pipfile_lock(&split_graph(), &split_pipfile());
    let value: serde_json::Value = serde_json::from_str(&text).unwrap();
    assert!(value["default"].as_object().unwrap().get("demo-project").is_none());
    assert!(value["develop"].as_object().unwrap().get("demo-project").is_none());
}

#[test]
fn empty_manifest_yields_empty_maps() {
    let pipfile = Pipfile {
        source: vec![],
        packages: vec![],
        dev_packages: vec![],
        requires: None,
        scripts: vec![],
        pipenv: None,
    };
    let graph = LockGraph { nodes: vec![] };
    let text = generate_pipfile_lock(&graph, &pipfile);
    let value: serde_json::Value = serde_json::from_str(&text).unwrap();
    assert_eq!(value["default"].as_object().unwrap().len(), 0);
    assert_eq!(value["develop"].as_object().unwrap().len(), 0);
    assert_eq!(value["_meta"]["sources"].as_array().unwrap().len(), 0);
    assert_eq!(value["_meta"]["requires"].as_object().unwrap().len(), 0);
}

#[test]
fn artifact_text_is_exactly_the_pretty_form() {
    let pipfile = six_pipfile();
    let graph = LockGraph { nodes: vec![node("six", "1.17.0", &[])] };
    let hash = compute_pipfile_hash(&pipfile);
    let expected = format!(
        "{{\n  \"_meta\": {{\n    \"hash\": {{\n      \"sha256\": \"{hash}\"\n    }},\n    \"pipfile-spec\": 6,\n    \"requires\": {{\n      \"python_version\": \"3.12\"\n    }},\n    \"sources\": [\n      {{\n        \"name\": \"pypi\",\n        \"url\": \"https://pypi.org/simple\",\n        \"verify_ssl\": true\n      }}\n    ]\n  }},\n  \"default\": {{\n    \"six\": {{\n      \"hashes\": [\n        \"sha256:six00aa\"\n      ],\n      \"index\": \"pypi\",\n      \"version\": \"==1.17.0\"\n    }}\n  }},\n  \"develop\": {{}}\n}}\n"
    );
    assert_eq!(generate_pipfile_lock(&graph, &pipfile), expected);
}
