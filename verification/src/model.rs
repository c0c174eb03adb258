//! Data model for the manifest.
//!
//! These types mirror the manifest's TOML schema. Packages can be specified
//! as either a simple version string (`"*"`, `">=1.0"`) or a table with
//! extended fields (`{version = ">=1.0", extras = ["security"]}`).
//!
//! The package, dev-package and script maps are kept strictly sorted by key
//! (see [`crate::strmap`]), which makes every emission and the content hash
//! deterministic.

use vstd::prelude::*;
use crate::strmap::{map_wf, map_get_spec, map_has_key, map_insert_spec, map_remove_spec, map_get,
    map_contains, map_insert, map_remove, lemma_insert_wf, lemma_insert_get, lemma_remove_wf,
    lemma_remove_get};

verus! {

/// A `[[source]]` entry: one package index.
#[derive(Debug)]
pub struct PipfileSource {
    /// Source name (e.g., `"pypi"`).
    pub name: String,
    /// Index URL.
    pub url: String,
    /// Whether to verify SSL certificates.
    pub verify_ssl: bool,
}

/// Extended package specification fields.
#[derive(Debug)]
pub struct PipfilePackageDetail {
    /// Version specifier (e.g., `">=1.0"`, `"*"`).
    pub version: Option<String>,
    /// Extra features to install.
    pub extras: Vec<String>,
    /// Environment marker expression.
    pub markers: Option<String>,
    /// Platform-specific marker shorthand (e.g., `"== 'linux'"`).
    pub sys_platform: Option<String>,
    /// Git repository URL.
    pub git: Option<String>,
    /// Git ref (branch, tag, or commit), written `ref` in the manifest.
    pub git_ref: Option<String>,
    /// Local path to a package.
    pub path: Option<String>,
    /// Whether the package is installed as editable.
    pub editable: bool,
    /// Specific index to install from.
    pub index: Option<String>,
}

impl PipfilePackageDetail {
    /// A detail table with every field absent.
    pub fn empty() -> (r: PipfilePackageDetail)
        ensures
            r.version is None,
            r.extras@ =~= Seq::<String>::empty(),
            r.markers is None,
            r.sys_platform is None,
            r.git is None,
            r.git_ref is None,
            r.path is None,
            r.editable == false,
            r.index is None,
    {
        PipfilePackageDetail {
            version: None,
            extras: Vec::new(),
            markers: None,
            sys_platform: None,
            git: None,
            git_ref: None,
            path: None,
            editable: false,
            index: None,
        }
    }
}

/// A package dependency: a bare version string or an extended table.
#[derive(Debug)]
pub enum PipfilePackage {
    /// Simple version string: `requests = "*"` or `requests = ">=1.0"`.
    Simple(String),
    /// Table with extended fields.
    Detailed(PipfilePackageDetail),
}

/// The `[requires]` section.
#[derive(Debug)]
pub struct PipfileRequires {
    /// Python version (e.g., `"3.12"`).
    pub python_version: Option<String>,
    /// Full Python version (e.g., `"3.12.1"`).
    pub python_full_version: Option<String>,
}

/// The `[pipenv]` section of tool settings.
#[derive(Debug)]
pub struct PipfileSettings {
    /// Whether to allow pre-release versions.
    pub allow_prereleases: bool,
}

/// Top-level manifest structure.
#[derive(Debug)]
pub struct Pipfile {
    /// Package index sources, in declaration order.
    pub source: Vec<PipfileSource>,
    /// Production dependencies, sorted by name.
    pub packages: Vec<(String, PipfilePackage)>,
    /// Development dependencies, sorted by name.
    pub dev_packages: Vec<(String, PipfilePackage)>,
    /// Python version requirements.
    pub requires: Option<PipfileRequires>,
    /// Script definitions, sorted by name.
    pub scripts: Vec<(String, String)>,
    /// Tool-specific settings.
    pub pipenv: Option<PipfileSettings>,
}

/// Well-formedness: each map is strictly sorted by key.
pub open spec fn pipfile_wf(pf: &Pipfile) -> bool {
    &&& map_wf(pf.packages@)
    &&& map_wf(pf.dev_packages@)
    &&& map_wf(pf.scripts@)
}

impl Pipfile {
    /// A fresh manifest for a new project: the standard public index, no
    /// packages, no scripts.
    pub fn default_new() -> (r: Pipfile)
        ensures
            pipfile_wf(&r),
            r.source@.len() == 1,
            r.source@[0].name@ == "pypi"@,
            r.source@[0].url@ == "https://pypi.org/simple"@,
            r.source@[0].verify_ssl == true,
            r.packages@.len() == 0,
            r.dev_packages@.len() == 0,
            r.scripts@.len() == 0,
            r.requires is None,
            r.pipenv is None,
    {
        let mut source: Vec<PipfileSource> = Vec::new();
        source.push(
            PipfileSource {
                name: String::from_str("pypi"),
                url: String::from_str("https://pypi.org/simple"),
                verify_ssl: true,
            },
        );
        Pipfile {
            source,
            packages: Vec::new(),
            dev_packages: Vec::new(),
            requires: None,
            scripts: Vec::new(),
            pipenv: None,
        }
    }

    /// Look a production package up by name.
    pub fn get_package<'a>(&'a self, name: &str) -> (r: Option<&'a PipfilePackage>)
        ensures
            match r {
                Some(p) => map_get_spec(self.packages@, name@) == Some(*p),
                None => map_get_spec(self.packages@, name@) is None,
            },
    {
        map_get(&self.packages, name)
    }

    /// Look a development package up by name.
    pub fn get_dev_package<'a>(&'a self, name: &str) -> (r: Option<&'a PipfilePackage>)
        ensures
            match r {
                Some(p) => map_get_spec(self.dev_packages@, name@) == Some(*p),
                None => map_get_spec(self.dev_packages@, name@) is None,
            },
    {
        map_get(&self.dev_packages, name)
    }

    /// Look a script up by name.
    pub fn get_script<'a>(&'a self, name: &str) -> (r: Option<&'a String>)
        ensures
            match r {
                Some(s) => map_get_spec(self.scripts@, name@) == Some(*s),
                None => map_get_spec(self.scripts@, name@) is None,
            },
    {
        map_get(&self.scripts, name)
    }

    /// Whether a production package of this name is declared.
    pub fn contains_package(&self, name: &str) -> (r: bool)
        ensures
            r == map_has_key(self.packages@, name@),
    {
        map_contains(&self.packages, name)
    }

    /// Whether a development package of this name is declared.
    pub fn contains_dev_package(&self, name: &str) -> (r: bool)
        ensures
            r == map_has_key(self.dev_packages@, name@),
    {
        map_contains(&self.dev_packages, name)
    }

    /// Add or replace a production package.
    pub fn insert_package(self, name: String, pkg: PipfilePackage) -> (r: Pipfile)
        requires
            pipfile_wf(&self),
        ensures
            pipfile_wf(&r),
            r.packages@ == map_insert_spec(self.packages@, name, pkg),
            map_get_spec(r.packages@, name@) == Some(pkg),
            forall|k: Seq<char>| k != name@ ==> map_get_spec(r.packages@, k) == map_get_spec(
                self.packages@,
                k,
            ),
            r.dev_packages == self.dev_packages,
            r.source == self.source,
            r.requires == self.requires,
            r.scripts == self.scripts,
            r.pipenv == self.pipenv,
    {
        proof {
            lemma_insert_wf(self.packages@, name, pkg);
            lemma_insert_get(self.packages@, name, pkg);
        }
        let Pipfile { source, packages, dev_packages, requires: reqs, scripts, pipenv } = self;
        let packages = map_insert(packages, name, pkg);
        Pipfile { source, packages, dev_packages, requires: reqs, scripts, pipenv }
    }

    /// Add or replace a development package.
    pub fn insert_dev_package(self, name: String, pkg: PipfilePackage) -> (r: Pipfile)
        requires
            pipfile_wf(&self),
        ensures
            pipfile_wf(&r),
            r.dev_packages@ == map_insert_spec(self.dev_packages@, name, pkg),
            map_get_spec(r.dev_packages@, name@) == Some(pkg),
            forall|k: Seq<char>| k != name@ ==> map_get_spec(r.dev_packages@, k) == map_get_spec(
                self.dev_packages@,
                k,
            ),
            r.packages == self.packages,
            r.source == self.source,
            r.requires == self.requires,
            r.scripts == self.scripts,
            r.pipenv == self.pipenv,
    {
        proof {
            lemma_insert_wf(self.dev_packages@, name, pkg);
            lemma_insert_get(self.dev_packages@, name, pkg);
        }
        let Pipfile { source, packages, dev_packages, requires: reqs, scripts, pipenv } = self;
        let dev_packages = map_insert(dev_packages, name, pkg);
        Pipfile { source, packages, dev_packages, requires: reqs, scripts, pipenv }
    }

    /// Remove a production package, if declared.
    pub fn remove_package(self, name: &str) -> (r: Pipfile)
        requires
            pipfile_wf(&self),
        ensures
            pipfile_wf(&r),
            r.packages@ == map_remove_spec(self.packages@, name@),
            map_get_spec(r.packages@, name@) is None,
            forall|k: Seq<char>| k != name@ ==> map_get_spec(r.packages@, k) == map_get_spec(
                self.packages@,
                k,
            ),
            r.dev_packages == self.dev_packages,
            r.source == self.source,
            r.requires == self.requires,
            r.scripts == self.scripts,
            r.pipenv == self.pipenv,
    {
        proof {
            lemma_remove_wf(self.packages@, name@);
            lemma_remove_get(self.packages@, name@);
        }
        let Pipfile { source, packages, dev_packages, requires: reqs, scripts, pipenv } = self;
        let packages = map_remove(packages, name);
        Pipfile { source, packages, dev_packages, requires: reqs, scripts, pipenv }
    }

    /// Remove a development package, if declared.
    pub fn remove_dev_package(self, name: &str) -> (r: Pipfile)
        requires
            pipfile_wf(&self),
        ensures
            pipfile_wf(&r),
            r.dev_packages@ == map_remove_spec(self.dev_packages@, name@),
            map_get_spec(r.dev_packages@, name@) is None,
            forall|k: Seq<char>| k != name@ ==> map_get_spec(r.dev_packages@, k) == map_get_spec(
                self.dev_packages@,
                k,
            ),
            r.packages == self.packages,
            r.source == self.source,
            r.requires == self.requires,
            r.scripts == self.scripts,
            r.pipenv == self.pipenv,
    {
        proof {
            lemma_remove_wf(self.dev_packages@, name@);
            lemma_remove_get(self.dev_packages@, name@);
        }
        let Pipfile { source, packages, dev_packages, requires: reqs, scripts, pipenv } = self;
        let dev_packages = map_remove(dev_packages, name);
        Pipfile { source, packages, dev_packages, requires: reqs, scripts, pipenv }
    }

    /// The number of declared production packages.
    pub fn packages_len(&self) -> (r: usize)
        ensures
            r == self.packages@.len(),
    {
        self.packages.len()
    }

    /// The number of declared development packages.
    pub fn dev_packages_len(&self) -> (r: usize)
        ensures
            r == self.dev_packages@.len(),
    {
        self.dev_packages.len()
    }

    /// The number of declared sources.
    pub fn sources_len(&self) -> (r: usize)
        ensures
            r == self.source@.len(),
    {
        self.source.len()
    }

    /// The number of declared scripts.
    pub fn scripts_len(&self) -> (r: usize)
        ensures
            r == self.scripts@.len(),
    {
        self.scripts.len()
    }
}

} // verus!
