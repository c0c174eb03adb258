//! Bridge from the manifest to the resolution engine's project file.
//!
//! The central function [`pipfile_to_pyproject_toml`] converts a parsed
//! [`Pipfile`] into the TOML text of a project manifest that the resolution
//! engine parses as its own input. Git, path, and editable packages are
//! represented via a per-package source-override table.

use vstd::prelude::*;
use crate::model::{Pipfile, PipfilePackage, PipfilePackageDetail, PipfileSource};
use crate::text::{push_chars, chars_to_string, str_eq};
use crate::writer::{esc_value_spec, push_escaped, opt_view};

verus! {

/// A requirement for a simple version: the bare name for the wildcard,
/// name plus specifier otherwise.
pub open spec fn simple_req_spec(name: Seq<char>, version: Seq<char>) -> Seq<char> {
    if version == "*"@ {
        name
    } else {
        name + version
    }
}

/// Extras joined with a bare comma.
pub open spec fn join_extras(s: Seq<String>) -> Seq<char>
    decreases s.len(),
{
    if s.len() == 0 {
        Seq::empty()
    } else if s.len() == 1 {
        s[0]@
    } else {
        s[0]@ + ","@ + join_extras(s.drop_first())
    }
}

/// The `[extras]` suffix of a requirement, or nothing.
pub open spec fn extras_part(d: PipfilePackageDetail) -> Seq<char> {
    if d.extras@.len() > 0 {
        "["@ + join_extras(d.extras@) + "]"@
    } else {
        Seq::empty()
    }
}

/// The version specifier of a requirement: omitted for git and path
/// packages, for the wildcard, and when absent.
pub open spec fn version_part(d: PipfilePackageDetail) -> Seq<char> {
    if d.git is None && d.path is None {
        match d.version {
            Some(v) => if v@ == "*"@ {
                Seq::empty()
            } else {
                v@
            },
            None => Seq::empty(),
        }
    } else {
        Seq::empty()
    }
}

/// The marker expression: the conjunction of the explicit markers and the
/// platform shorthand (`sys_platform <shorthand>`).
pub open spec fn marker_spec(d: PipfilePackageDetail) -> Seq<char> {
    match (d.markers, d.sys_platform) {
        (Some(m), Some(sp)) => m@ + " and "@ + "sys_platform "@ + sp@,
        (Some(m), None) => m@,
        (None, Some(sp)) => "sys_platform "@ + sp@,
        (None, None) => Seq::empty(),
    }
}

/// The `; marker` clause of a requirement, or nothing.
pub open spec fn marker_part(d: PipfilePackageDetail) -> Seq<char> {
    if marker_spec(d).len() > 0 {
        "; "@ + marker_spec(d)
    } else {
        Seq::empty()
    }
}

/// The requirement string of a detailed package:
/// `name[extras]specifier; marker`.
pub open spec fn detailed_req_spec(name: Seq<char>, d: PipfilePackageDetail) -> Seq<char> {
    name + extras_part(d) + version_part(d) + marker_part(d)
}

/// The requirement string of a package map entry.
pub open spec fn requirement_spec(name: Seq<char>, pkg: PipfilePackage) -> Seq<char> {
    match pkg {
        PipfilePackage::Simple(v) => simple_req_spec(name, v@),
        PipfilePackage::Detailed(d) => detailed_req_spec(name, d),
    }
}

/// The source-override table value of a detailed package, in priority
/// order: git, then path, then a pinned index; none otherwise.
pub open spec fn source_spec(d: PipfilePackageDetail) -> Option<Seq<char>> {
    if d.git is Some {
        Some(
            "{ git = \""@ + d.git->Some_0@ + "\""@ + (match d.git_ref {
                Some(r) => ", rev = \""@ + r@ + "\""@,
                None => Seq::empty(),
            }) + " }"@,
        )
    } else if d.path is Some {
        Some(
            "{ path = \""@ + d.path->Some_0@ + "\""@ + (if d.editable {
                ", editable = true"@
            } else {
                Seq::empty()
            }) + " }"@,
        )
    } else {
        match d.index {
            Some(ix) => Some("{ index = \""@ + ix@ + "\" }"@),
            None => None,
        }
    }
}

/// The source override of a package map entry, if any.
pub open spec fn pkg_source_spec(pkg: PipfilePackage) -> Option<Seq<char>> {
    match pkg {
        PipfilePackage::Simple(_) => None,
        PipfilePackage::Detailed(d) => source_spec(d),
    }
}

/// One dependency line of the project file.
pub open spec fn render_dep_line(name: Seq<char>, pkg: PipfilePackage) -> Seq<char> {
    "    \""@ + esc_value_spec(requirement_spec(name, pkg)) + "\",\n"@
}

/// All dependency lines of a package map, in map order.
pub open spec fn render_deps(m: Seq<(String, PipfilePackage)>) -> Seq<char>
    decreases m.len(),
{
    if m.len() == 0 {
        Seq::empty()
    } else {
        render_dep_line(m[0].0@, m[0].1) + render_deps(m.drop_first())
    }
}

/// The source-override lines of a package map: one line per entry that
/// carries an override, nothing for the others.
pub open spec fn render_overrides(m: Seq<(String, PipfilePackage)>) -> Seq<char>
    decreases m.len(),
{
    if m.len() == 0 {
        Seq::empty()
    } else {
        (match pkg_source_spec(m[0].1) {
            Some(src) => m[0].0@ + " = "@ + src + "\n"@,
            None => Seq::empty(),
        }) + render_overrides(m.drop_first())
    }
}

/// Whether any entry of a package map carries a source override.
pub open spec fn has_override(m: Seq<(String, PipfilePackage)>) -> bool {
    exists|i: int| 0 <= i < m.len() && pkg_source_spec((#[trigger] m[i]).1) is Some
}

/// One index declaration of the project file; the first declared source is
/// the default index.
pub open spec fn render_index_entry(src: PipfileSource, is_first: bool) -> Seq<char> {
    "[[tool.uv.index]]\n"@ + "name = \""@ + esc_value_spec(src.name@) + "\"\n"@ + "url = \""@
        + esc_value_spec(src.url@) + "\"\n"@ + (if is_first {
        "default = true\n"@
    } else {
        Seq::empty()
    }) + "\n"@
}

/// The index declarations past the first, none of them the default.
pub open spec fn render_index_rest(s: Seq<PipfileSource>) -> Seq<char>
    decreases s.len(),
{
    if s.len() == 0 {
        Seq::empty()
    } else {
        render_index_entry(s[0], false) + render_index_rest(s.drop_first())
    }
}

/// All index declarations, in source order, the first marked default.
pub open spec fn render_index(s: Seq<PipfileSource>) -> Seq<char> {
    if s.len() == 0 {
        Seq::empty()
    } else {
        render_index_entry(s[0], true) + render_index_rest(s.drop_first())
    }
}

/// The Python floor of the project file: `>=` for a minor version, `==`
/// for a full version, nothing when no requirement is given.
pub open spec fn requires_python_spec(r: Option<crate::model::PipfileRequires>) -> Seq<char> {
    match r {
        None => Seq::empty(),
        Some(req) => match req.python_version {
            Some(v) => "requires-python = \">="@ + v@ + "\"\n"@,
            None => match req.python_full_version {
                Some(fv) => "requires-python = \"=="@ + fv@ + "\"\n"@,
                None => Seq::empty(),
            },
        },
    }
}

/// The whole project file text built from a manifest.
pub open spec fn pyproject_spec(pf: &Pipfile, project_name: Seq<char>) -> Seq<char> {
    "[project]\n"@ + "name = \""@ + esc_value_spec(project_name) + "\"\n"@
        + "version = \"0.0.0\"\n"@ + requires_python_spec(pf.requires) + "dependencies = [\n"@
        + render_deps(pf.packages@) + "]\n"@ + (if pf.dev_packages@.len() > 0 {
        "\n[dependency-groups]\ndev = [\n"@ + render_deps(pf.dev_packages@) + "]\n"@
    } else {
        Seq::empty()
    }) + (if pf.source@.len() > 0 {
        "\n"@ + render_index(pf.source@)
    } else {
        Seq::empty()
    }) + (if has_override(pf.packages@) || has_override(pf.dev_packages@) {
        "\n[tool.uv.sources]\n"@ + render_overrides(pf.packages@) + render_overrides(
            pf.dev_packages@,
        )
    } else {
        Seq::empty()
    })
}

/// A converted dependency: its requirement string and optional source
/// override, as placed in the project file.
pub struct ConvertedDep {
    /// The package name, used as the source-override table key.
    pub name: String,
    /// The requirement string.
    pub requirement: String,
    /// An optional inline source-override table value.
    pub source: Option<String>,
}

/// Escape a string for use in a TOML quoted string value.
pub fn escape_toml_string(s: &str) -> (r: String)
    ensures
        r@ == esc_value_spec(s@),
{
    crate::writer::escape_toml_value(s)
}

/// Format a simple version requirement like `requests>=1.0`, or the bare
/// name for the wildcard.
pub fn format_simple_requirement(name: &str, version: &str) -> (r: String)
    ensures
        r@ == simple_req_spec(name@, version@),
{
    let mut out: Vec<char> = Vec::new();
    push_chars(&mut out, name);
    if !str_eq(version, "*") {
        push_chars(&mut out, version);
    }
    proof {
        assert(out@ =~= simple_req_spec(name@, version@));
    }
    chars_to_string(&out)
}

/// Build a marker string from the detail fields: explicit markers and the
/// platform shorthand, joined with `and`.
pub fn build_marker(detail: &PipfilePackageDetail) -> (r: String)
    ensures
        r@ == marker_spec(*detail),
{
    let mut out: Vec<char> = Vec::new();
    if let Some(m) = &detail.markers {
        push_chars(&mut out, m.as_str());
        if detail.sys_platform.is_some() {
            push_chars(&mut out, " and ");
        }
    }
    if let Some(sp) = &detail.sys_platform {
        push_chars(&mut out, "sys_platform ");
        push_chars(&mut out, sp.as_str());
    }
    proof {
        assert(out@ =~= marker_spec(*detail));
    }
    chars_to_string(&out)
}

/// Build an inline source-override table value for a git, path or
/// index-pinned package.
pub fn build_uv_source(detail: &PipfilePackageDetail) -> (r: Option<String>)
    ensures
        opt_view(r) == source_spec(*detail),
{
    if let Some(g) = &detail.git {
        let mut out: Vec<char> = Vec::new();
        push_chars(&mut out, "{ git = \"");
        push_chars(&mut out, g.as_str());
        push_chars(&mut out, "\"");
        if let Some(rev) = &detail.git_ref {
            // the manifest's generic `ref` becomes the engine's `rev`
            push_chars(&mut out, ", rev = \"");
            push_chars(&mut out, rev.as_str());
            push_chars(&mut out, "\"");
        }
        push_chars(&mut out, " }");
        proof {
            assert(out@ =~= source_spec(*detail)->Some_0);
        }
        return Some(chars_to_string(&out));
    }
    if let Some(p) = &detail.path {
        let mut out: Vec<char> = Vec::new();
        push_chars(&mut out, "{ path = \"");
        push_chars(&mut out, p.as_str());
        push_chars(&mut out, "\"");
        if detail.editable {
            push_chars(&mut out, ", editable = true");
        }
        push_chars(&mut out, " }");
        proof {
            assert(out@ =~= source_spec(*detail)->Some_0);
        }
        return Some(chars_to_string(&out));
    }
    if let Some(ix) = &detail.index {
        let mut out: Vec<char> = Vec::new();
        push_chars(&mut out, "{ index = \"");
        push_chars(&mut out, ix.as_str());
        push_chars(&mut out, "\" }");
        proof {
            assert(out@ =~= source_spec(*detail)->Some_0);
        }
        return Some(chars_to_string(&out));
    }
    None
}

/// Append the extras of a requirement, joined with commas.
#[verifier::loop_isolation(false)]
fn push_joined_extras(out: &mut Vec<char>, extras: &Vec<String>)
    ensures
        final(out)@ == old(out)@ + join_extras(extras@),
{
    let n = extras.len();
    let mut i: usize = 0;
    proof {
        assert(extras@.skip(0) =~= extras@);
        assert(out@ + join_extras(extras@.skip(0)) =~= old(out)@ + join_extras(extras@));
    }
    while i < n
        invariant
            i <= n,
            n == extras@.len(),
            out@ + join_extras(extras@.skip(i as int)) == old(out)@ + join_extras(extras@),
        decreases n - i,
    {
        proof {
            assert(extras@.skip(i as int)[0] == extras@[i as int]);
            assert(extras@.skip(i as int).drop_first() =~= extras@.skip(i + 1));
        }
        push_chars(out, extras[i].as_str());
        if i + 1 < n {
            push_chars(out, ",");
        }
        proof {
            if i + 1 < n {
                assert(out@ + join_extras(extras@.skip(i + 1)) =~= old(out)@ + join_extras(
                    extras@,
                ));
            } else {
                assert(join_extras(extras@.skip(i + 1)).len() == 0);
                assert(out@ + join_extras(extras@.skip(i + 1)) =~= old(out)@ + join_extras(
                    extras@,
                ));
            }
        }
        i += 1;
    }
    proof {
        assert(join_extras(extras@.skip(n as int)).len() == 0);
        assert(out@ =~= old(out)@ + join_extras(extras@));
    }
}

/// Convert a detailed package spec to its requirement string plus optional
/// source override.
pub fn convert_detailed_package(name: &str, detail: &PipfilePackageDetail) -> (r: ConvertedDep)
    ensures
        r.name@ == name@,
        r.requirement@ == detailed_req_spec(name@, *detail),
        opt_view(r.source) == source_spec(*detail),
{
    let mut req: Vec<char> = Vec::new();

    // package name
    push_chars(&mut req, name);

    // extras: requests[security,tests]
    if detail.extras.len() > 0 {
        push_chars(&mut req, "[");
        push_joined_extras(&mut req, &detail.extras);
        push_chars(&mut req, "]");
    }

    // version specifier, only for non-git, non-path packages
    if detail.git.is_none() && detail.path.is_none() {
        if let Some(version) = &detail.version {
            if !str_eq(version.as_str(), "*") {
                push_chars(&mut req, version.as_str());
            }
        }
    }
    proof {
        assert(req@ =~= name@ + extras_part(*detail) + version_part(*detail));
    }

    // environment markers
    let marker = build_marker(detail);
    if marker.as_str().unicode_len() > 0 {
        push_chars(&mut req, "; ");
        push_chars(&mut req, marker.as_str());
    }
    proof {
        assert(req@ =~= detailed_req_spec(name@, *detail));
    }

    let source = build_uv_source(detail);

    ConvertedDep { name: name.to_owned(), requirement: chars_to_string(&req), source }
}

/// Convert a single package map entry to its requirement string.
pub fn convert_package(name: &str, package: &PipfilePackage) -> (r: ConvertedDep)
    ensures
        r.name@ == name@,
        r.requirement@ == requirement_spec(name@, *package),
        opt_view(r.source) == pkg_source_spec(*package),
{
    match package {
        PipfilePackage::Simple(version) => ConvertedDep {
            name: name.to_owned(),
            requirement: format_simple_requirement(name, version.as_str()),
            source: None,
        },
        PipfilePackage::Detailed(detail) => convert_detailed_package(name, detail),
    }
}

/// Convert a package map to requirement strings, in map order.
#[verifier::loop_isolation(false)]
pub fn convert_packages(packages: &Vec<(String, PipfilePackage)>) -> (r: Vec<ConvertedDep>)
    ensures
        r@.len() == packages@.len(),
        forall|i: int|
            0 <= i < r@.len() ==> (#[trigger] r@[i]).name@ == packages@[i].0@ && r@[i].requirement@
                == requirement_spec(packages@[i].0@, packages@[i].1) && opt_view(r@[i].source)
                == pkg_source_spec(packages@[i].1),
{
    let n = packages.len();
    let mut out: Vec<ConvertedDep> = Vec::new();
    let mut i: usize = 0;
    while i < n
        invariant
            i <= n,
            n == packages@.len(),
            out@.len() == i,
            forall|j: int|
                0 <= j < i ==> (#[trigger] out@[j]).name@ == packages@[j].0@ && out@[j].requirement@
                    == requirement_spec(packages@[j].0@, packages@[j].1) && opt_view(out@[j].source)
                    == pkg_source_spec(packages@[j].1),
        decreases n - i,
    {
        let dep = convert_package(packages[i].0.as_str(), &packages[i].1);
        out.push(dep);
        i += 1;
    }
    out
}

/// Whether any entry of a package map carries a source override.
#[verifier::loop_isolation(false)]
fn has_override_exec(m: &Vec<(String, PipfilePackage)>) -> (r: bool)
    ensures
        r == has_override(m@),
{
    let n = m.len();
    let mut i: usize = 0;
    while i < n
        invariant
            i <= n,
            n == m@.len(),
            forall|j: int| 0 <= j < i ==> pkg_source_spec((#[trigger] m@[j]).1) is None,
        decreases n - i,
    {
        let found = match &m[i].1 {
            PipfilePackage::Simple(_) => false,
            PipfilePackage::Detailed(d) => {
                d.git.is_some() || d.path.is_some() || d.index.is_some()
            },
        };
        if found {
            proof {
                assert(pkg_source_spec(m@[i as int].1) is Some);
            }
            return true;
        }
        proof {
            assert(pkg_source_spec(m@[i as int].1) is None);
        }
        i += 1;
    }
    false
}

/// Append the dependency lines of a package map.
#[verifier::loop_isolation(false)]
fn write_dep_lines(out: &mut Vec<char>, packages: &Vec<(String, PipfilePackage)>)
    ensures
        final(out)@ == old(out)@ + render_deps(packages@),
{
    let deps = convert_packages(packages);
    let n = packages.len();
    let mut i: usize = 0;
    proof {
        assert(packages@.skip(0) =~= packages@);
        assert(out@ + render_deps(packages@.skip(0)) =~= old(out)@ + render_deps(packages@));
    }
    while i < n
        invariant
            i <= n,
            n == packages@.len(),
            deps@.len() == n,
            forall|j: int|
                0 <= j < n ==> (#[trigger] deps@[j]).requirement@ == requirement_spec(
                    packages@[j].0@,
                    packages@[j].1,
                ),
            out@ + render_deps(packages@.skip(i as int)) == old(out)@ + render_deps(packages@),
        decreases n - i,
    {
        proof {
            assert(packages@.skip(i as int)[0] == packages@[i as int]);
            assert(packages@.skip(i as int).drop_first() =~= packages@.skip(i + 1));
        }
        push_chars(out, "    \"");
        push_escaped(out, deps[i].requirement.as_str());
        push_chars(out, "\",\n");
        proof {
            assert(out@ + render_deps(packages@.skip(i + 1)) =~= old(out)@ + render_deps(
                packages@,
            ));
        }
        i += 1;
    }
    proof {
        assert(render_deps(packages@.skip(n as int)).len() == 0);
        assert(out@ =~= old(out)@ + render_deps(packages@));
    }
}

/// Append the source-override lines of a package map.
#[verifier::loop_isolation(false)]
fn write_override_lines(out: &mut Vec<char>, packages: &Vec<(String, PipfilePackage)>)
    ensures
        final(out)@ == old(out)@ + render_overrides(packages@),
{
    let n = packages.len();
    let mut i: usize = 0;
    proof {
        assert(packages@.skip(0) =~= packages@);
        assert(out@ + render_overrides(packages@.skip(0)) =~= old(out)@ + render_overrides(
            packages@,
        ));
    }
    while i < n
        invariant
            i <= n,
            n == packages@.len(),
            out@ + render_overrides(packages@.skip(i as int)) == old(out)@ + render_overrides(
                packages@,
            ),
        decreases n - i,
    {
        proof {
            assert(packages@.skip(i as int)[0] == packages@[i as int]);
            assert(packages@.skip(i as int).drop_first() =~= packages@.skip(i + 1));
        }
        let source = match &packages[i].1 {
            PipfilePackage::Simple(_) => None,
            PipfilePackage::Detailed(d) => build_uv_source(d),
        };
        if let Some(src) = source {
            push_chars(out, packages[i].0.as_str());
            push_chars(out, " = ");
            push_chars(out, src.as_str());
            push_chars(out, "\n");
        }
        proof {
            assert(out@ + render_overrides(packages@.skip(i + 1)) =~= old(out)@ + render_overrides(
                packages@,
            ));
        }
        i += 1;
    }
    proof {
        assert(render_overrides(packages@.skip(n as int)).len() == 0);
        assert(out@ =~= old(out)@ + render_overrides(packages@));
    }
}

/// Append one index declaration for a manifest source.
pub fn write_index_entry(toml: &mut Vec<char>, source: &PipfileSource, is_first: bool)
    ensures
        final(toml)@ == old(toml)@ + render_index_entry(*source, is_first),
{
    push_chars(toml, "[[tool.uv.index]]\n");
    push_chars(toml, "name = \"");
    push_escaped(toml, source.name.as_str());
    push_chars(toml, "\"\n");
    push_chars(toml, "url = \"");
    push_escaped(toml, source.url.as_str());
    push_chars(toml, "\"\n");
    // the first source of the manifest is the default index
    if is_first {
        push_chars(toml, "default = true\n");
    }
    push_chars(toml, "\n");
    proof {
        assert(toml@ =~= old(toml)@ + render_index_entry(*source, is_first));
    }
}

/// Append all index declarations, the first marked default.
#[verifier::loop_isolation(false)]
fn write_index_entries(toml: &mut Vec<char>, sources: &Vec<PipfileSource>)
    ensures
        final(toml)@ == old(toml)@ + render_index(sources@),
{
    if sources.len() == 0 {
        return ;
    }
    write_index_entry(toml, &sources[0], true);
    let n = sources.len();
    let mut i: usize = 1;
    let ghost index_base = old(toml)@ + render_index_entry(sources@[0], true);
    proof {
        assert(sources@.drop_first() =~= sources@.skip(1));
        assert(toml@ =~= index_base);
        assert(toml@ + render_index_rest(sources@.skip(1)) =~= index_base + render_index_rest(
            sources@.skip(1),
        ));
    }
    while i < n
        invariant
            1 <= i <= n,
            n == sources@.len(),
            toml@ + render_index_rest(sources@.skip(i as int)) == index_base + render_index_rest(
                sources@.skip(1),
            ),
        decreases n - i,
    {
        proof {
            assert(sources@.skip(i as int)[0] == sources@[i as int]);
            assert(sources@.skip(i as int).drop_first() =~= sources@.skip(i + 1));
        }
        write_index_entry(toml, &sources[i], false);
        proof {
            assert(toml@ + render_index_rest(sources@.skip(i + 1)) =~= index_base
                + render_index_rest(sources@.skip(1)));
        }
        i += 1;
    }
    proof {
        assert(render_index_rest(sources@.skip(n as int)).len() == 0);
        assert(toml@ =~= index_base + render_index_rest(sources@.skip(1)));
        assert(toml@ =~= old(toml)@ + render_index(sources@));
    }
}

/// Convert a manifest into a project file the resolution engine consumes.
///
/// The resulting text parses as the engine's project schema. Git, path and
/// editable packages are represented in the source-override table.
#[verifier::loop_isolation(false)]
#[verifier::rlimit(60)]
pub fn pipfile_to_pyproject_toml(pipfile: &Pipfile, project_name: &str) -> (r: String)
    ensures
        r@ == pyproject_spec(pipfile, project_name@),
{
    let mut toml: Vec<char> = Vec::new();

    // [project]
    push_chars(&mut toml, "[project]\n");
    push_chars(&mut toml, "name = \"");
    push_escaped(&mut toml, project_name);
    push_chars(&mut toml, "\"\n");
    push_chars(&mut toml, "version = \"0.0.0\"\n");

    // requires-python
    if let Some(reqs) = &pipfile.requires {
        if let Some(version) = &reqs.python_version {
            push_chars(&mut toml, "requires-python = \">=");
            push_chars(&mut toml, version.as_str());
            push_chars(&mut toml, "\"\n");
        } else if let Some(full_version) = &reqs.python_full_version {
            push_chars(&mut toml, "requires-python = \"==");
            push_chars(&mut toml, full_version.as_str());
            push_chars(&mut toml, "\"\n");
        }
    }
    let ghost after_header = "[project]\n"@ + "name = \""@ + esc_value_spec(project_name@)
        + "\"\n"@ + "version = \"0.0.0\"\n"@ + requires_python_spec(pipfile.requires);
    proof {
        assert(toml@ =~= after_header);
    }

    // dependencies
    push_chars(&mut toml, "dependencies = [\n");
    write_dep_lines(&mut toml, &pipfile.packages);
    push_chars(&mut toml, "]\n");
    let ghost after_deps = after_header + "dependencies = [\n"@ + render_deps(pipfile.packages@)
        + "]\n"@;
    proof {
        assert(toml@ =~= after_deps);
    }

    // development dependency group
    if pipfile.dev_packages.len() > 0 {
        push_chars(&mut toml, "\n[dependency-groups]\ndev = [\n");
        write_dep_lines(&mut toml, &pipfile.dev_packages);
        push_chars(&mut toml, "]\n");
    }
    let ghost after_dev = after_deps + (if pipfile.dev_packages@.len() > 0 {
        "\n[dependency-groups]\ndev = [\n"@ + render_deps(pipfile.dev_packages@) + "]\n"@
    } else {
        Seq::empty()
    });
    proof {
        assert(toml@ =~= after_dev);
    }

    // index declarations, in source order
    if pipfile.source.len() > 0 {
        push_chars(&mut toml, "\n");
        write_index_entries(&mut toml, &pipfile.source);
    }
    let ghost after_index = after_dev + (if pipfile.source@.len() > 0 {
        "\n"@ + render_index(pipfile.source@)
    } else {
        Seq::empty()
    });
    proof {
        assert(toml@ =~= after_index);
    }

    // per-package source overrides
    let any_override = has_override_exec(&pipfile.packages) || has_override_exec(
        &pipfile.dev_packages,
    );
    if any_override {
        push_chars(&mut toml, "\n[tool.uv.sources]\n");
        write_override_lines(&mut toml, &pipfile.packages);
        write_override_lines(&mut toml, &pipfile.dev_packages);
    }
    proof {
        assert(toml@ =~= pyproject_spec(pipfile, project_name@));
    }
    chars_to_string(&toml)
}

} // verus!
