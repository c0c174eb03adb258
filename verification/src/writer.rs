//! Manifest writer: serialize a [`Pipfile`] back to its on-disk TOML form.
//!
//! Preserves the standard section ordering:
//! `[[source]]`, `[packages]`, `[dev-packages]`, `[requires]`, `[scripts]`,
//! `[pipenv]`. The exact emitted text is pinned by [`render_pipfile`].

use vstd::prelude::*;
use crate::model::{Pipfile, PipfilePackage, PipfilePackageDetail, PipfileSource};
use crate::text::{push_chars, chars_to_string};

verus! {

/// The text of a boolean value.
pub open spec fn bool_str(b: bool) -> Seq<char> {
    if b {
        "true"@
    } else {
        "false"@
    }
}

/// One escaped character of a double-quoted TOML value.
pub open spec fn esc_char(c: char) -> Seq<char> {
    if c == '\\' {
        seq!['\\', '\\']
    } else if c == '"' {
        seq!['\\', '"']
    } else {
        seq![c]
    }
}

/// A string escaped for a double-quoted TOML value: backslashes and quotes
/// are escaped, all other characters pass through.
pub open spec fn esc_value_spec(s: Seq<char>) -> Seq<char>
    decreases s.len(),
{
    if s.len() == 0 {
        Seq::empty()
    } else {
        esc_char(s[0]) + esc_value_spec(s.drop_first())
    }
}

/// Append the escaped form of a string to the output.
#[verifier::loop_isolation(false)]
pub fn push_escaped(out: &mut Vec<char>, s: &str)
    ensures
        final(out)@ == old(out)@ + esc_value_spec(s@),
{
    let chars = crate::text::str_to_chars(s);
    let n = chars.len();
    let mut i: usize = 0;
    proof {
        assert(s@.skip(0) =~= s@);
        assert(out@ + esc_value_spec(s@.skip(0)) =~= old(out)@ + esc_value_spec(s@));
    }
    while i < n
        invariant
            i <= n,
            n == s@.len(),
            out@ + esc_value_spec(s@.skip(i as int)) == old(out)@ + esc_value_spec(s@),
        decreases n - i,
    {
        proof {
            assert(s@.skip(i as int)[0] == s@[i as int]);
            assert(s@.skip(i as int).drop_first() =~= s@.skip(i + 1));
        }
        let c = chars[i];
        if c == '\\' {
            out.push('\\');
            out.push('\\');
        } else if c == '"' {
            out.push('\\');
            out.push('"');
        } else {
            out.push(c);
        }
        proof {
            assert(out@ + esc_value_spec(s@.skip(i + 1)) =~= old(out)@ + esc_value_spec(s@));
        }
        i += 1;
    }
    proof {
        assert(esc_value_spec(s@.skip(n as int)).len() == 0);
        assert(out@ =~= old(out)@ + esc_value_spec(s@));
    }
}

/// Escape a string for TOML double-quoted values.
pub fn escape_toml_value(s: &str) -> (r: String)
    ensures
        r@ == esc_value_spec(s@),
{
    let mut out: Vec<char> = Vec::new();
    push_escaped(&mut out, s);
    proof {
        assert(out@ =~= esc_value_spec(s@));
    }
    chars_to_string(&out)
}

/// The views of a vector of character buffers.
pub open spec fn views_of(s: Seq<Vec<char>>) -> Seq<Seq<char>> {
    s.map_values(|v: Vec<char>| v@)
}

/// Items joined with `", "`.
pub open spec fn join_comma(items: Seq<Seq<char>>) -> Seq<char>
    decreases items.len(),
{
    if items.len() == 0 {
        Seq::empty()
    } else if items.len() == 1 {
        items[0]
    } else {
        items[0] + ", "@ + join_comma(items.drop_first())
    }
}

/// What remains of a comma-joined list once a prefix is written: a leading
/// separator and the rest, or nothing.
pub open spec fn join_comma_tail(items: Seq<Seq<char>>) -> Seq<char> {
    if items.len() == 0 {
        Seq::empty()
    } else {
        ", "@ + join_comma(items)
    }
}

/// Append a copy of a character buffer to the output.
#[verifier::loop_isolation(false)]
pub fn push_copy(out: &mut Vec<char>, s: &Vec<char>)
    ensures
        final(out)@ == old(out)@ + s@,
{
    let n = s.len();
    let mut i: usize = 0;
    while i < n
        invariant
            i <= n,
            n == s@.len(),
            out@ == old(out)@ + s@.take(i as int),
        decreases n - i,
    {
        out.push(s[i]);
        proof {
            assert(s@.take(i as int) + seq![s@[i as int]] =~= s@.take(i + 1 as int));
        }
        i += 1;
    }
    proof {
        assert(s@.take(n as int) =~= s@);
    }
}

/// Join character buffers with `", "`.
#[verifier::loop_isolation(false)]
pub fn join_comma_exec(items: &Vec<Vec<char>>) -> (r: Vec<char>)
    ensures
        r@ == join_comma(views_of(items@)),
{
    let ghost vs = views_of(items@);
    let mut out: Vec<char> = Vec::new();
    let n = items.len();
    if n == 0 {
        proof {
            assert(out@ =~= join_comma(vs));
        }
        return out;
    }
    push_copy(&mut out, &items[0]);
    proof {
        assert(vs[0] == items@[0]@);
        assert(vs.skip(1) =~= views_of(items@).skip(1));
        lemma_join_head(vs);
        assert(out@ + join_comma_tail(vs.skip(1)) =~= join_comma(vs));
    }
    let mut i: usize = 1;
    while i < n
        invariant
            1 <= i <= n,
            n == items@.len(),
            n == vs.len(),
            vs == views_of(items@),
            out@ + join_comma_tail(vs.skip(i as int)) == join_comma(vs),
        decreases n - i,
    {
        push_chars(&mut out, ", ");
        push_copy(&mut out, &items[i]);
        proof {
            let rest = vs.skip(i as int);
            assert(rest[0] == items@[i as int]@);
            assert(rest.drop_first() =~= vs.skip(i + 1));
            if rest.len() > 1 {
                assert(join_comma(rest) == rest[0] + ", "@ + join_comma(rest.drop_first()));
            }
            assert(out@ + join_comma_tail(vs.skip(i + 1)) =~= join_comma(vs));
        }
        i += 1;
    }
    proof {
        assert(vs.skip(n as int).len() == 0);
        assert(out@ =~= join_comma(vs));
    }
    out
}

/// A comma-joined nonempty list starts with its first item.
proof fn lemma_join_head(items: Seq<Seq<char>>)
    requires
        items.len() >= 1,
    ensures
        join_comma(items) =~= items[0] + join_comma_tail(items.drop_first()),
{
    if items.len() == 1 {
        assert(items.drop_first().len() == 0);
        assert(items[0] + Seq::<char>::empty() =~= items[0]);
    }
}

/// The text of one quoted extra, escaped.
pub open spec fn quoted_extra(e: String) -> Seq<char> {
    "\""@ + esc_value_spec(e@) + "\""@
}

/// The quoted texts of all extras.
pub open spec fn quoted_extras(s: Seq<String>) -> Seq<Seq<char>>
    decreases s.len(),
{
    if s.len() == 0 {
        Seq::empty()
    } else {
        seq![quoted_extra(s[0])] + quoted_extras(s.drop_first())
    }
}

/// An optional string field's view.
pub open spec fn opt_view(o: Option<String>) -> Option<Seq<char>> {
    match o {
        Some(x) => Some(x@),
        None => None,
    }
}

/// The text of one `label = "value"` field with the value escaped, or
/// nothing when absent.
pub open spec fn quoted_field(label: Seq<char>, v: Option<Seq<char>>) -> Seq<Seq<char>> {
    match v {
        Some(x) => seq![label + " = \""@ + esc_value_spec(x) + "\""@],
        None => seq![],
    }
}

/// The `extras` field text, if any extra is present.
pub open spec fn field_extras(d: PipfilePackageDetail) -> Seq<Seq<char>> {
    if d.extras@.len() > 0 {
        seq!["extras = ["@ + join_comma(quoted_extras(d.extras@)) + "]"@]
    } else {
        seq![]
    }
}

/// The `editable` field text, emitted only when set.
pub open spec fn field_editable(d: PipfilePackageDetail) -> Seq<Seq<char>> {
    if d.editable {
        seq!["editable = true"@]
    } else {
        seq![]
    }
}

/// The field texts of a detail table, in the fixed emission order: version,
/// extras, git, ref, path, editable, index, markers, sys_platform; absent
/// fields omitted.
pub open spec fn detail_fields(d: PipfilePackageDetail) -> Seq<Seq<char>> {
    quoted_field("version"@, opt_view(d.version)) + field_extras(d) + quoted_field(
        "git"@,
        opt_view(d.git),
    ) + quoted_field("ref"@, opt_view(d.git_ref)) + quoted_field("path"@, opt_view(d.path))
        + field_editable(d) + quoted_field("index"@, opt_view(d.index)) + quoted_field(
        "markers"@,
        opt_view(d.markers),
    ) + quoted_field("sys_platform"@, opt_view(d.sys_platform))
}

/// Append one optional `label = "value"` field.
pub fn push_quoted_field(fields: &mut Vec<Vec<char>>, label: &str, value: &Option<String>)
    ensures
        views_of(final(fields)@) == views_of(old(fields)@) + quoted_field(label@, opt_view(*value)),
{
    if let Some(v) = value {
        let mut f: Vec<char> = Vec::new();
        push_chars(&mut f, label);
        push_chars(&mut f, " = \"");
        push_escaped(&mut f, v.as_str());
        push_chars(&mut f, "\"");
        proof {
            assert(f@ =~= label@ + " = \""@ + esc_value_spec(v@) + "\""@);
        }
        fields.push(f);
        proof {
            assert(views_of(fields@) =~= views_of(old(fields)@) + quoted_field(
                label@,
                opt_view(*value),
            ));
        }
    } else {
        proof {
            assert(views_of(fields@) =~= views_of(old(fields)@) + quoted_field(
                label@,
                opt_view(*value),
            ));
        }
    }
}

/// Build the `extras = [...]` field text.
#[verifier::loop_isolation(false)]
pub fn write_extras_field(extras: &Vec<String>) -> (f: Vec<char>)
    ensures
        f@ == "extras = ["@ + join_comma(quoted_extras(extras@)) + "]"@,
{
    let mut quoted: Vec<Vec<char>> = Vec::new();
    let n = extras.len();
    let mut i: usize = 0;
    proof {
        assert(extras@.skip(0) =~= extras@);
        assert(views_of(quoted@) + quoted_extras(extras@.skip(0)) =~= quoted_extras(extras@));
    }
    while i < n
        invariant
            i <= n,
            n == extras@.len(),
            views_of(quoted@) + quoted_extras(extras@.skip(i as int)) == quoted_extras(extras@),
        decreases n - i,
    {
        proof {
            assert(extras@.skip(i as int)[0] == extras@[i as int]);
            assert(extras@.skip(i as int).drop_first() =~= extras@.skip(i + 1));
        }
        let mut q: Vec<char> = Vec::new();
        push_chars(&mut q, "\"");
        push_escaped(&mut q, extras[i].as_str());
        push_chars(&mut q, "\"");
        proof {
            assert(q@ =~= quoted_extra(extras@[i as int]));
        }
        quoted.push(q);
        proof {
            assert(views_of(quoted@) + quoted_extras(extras@.skip(i + 1)) =~= quoted_extras(
                extras@,
            ));
        }
        i += 1;
    }
    proof {
        assert(quoted_extras(extras@.skip(n as int)).len() == 0);
        assert(views_of(quoted@) =~= quoted_extras(extras@));
    }
    let joined = join_comma_exec(&quoted);
    let mut f: Vec<char> = Vec::new();
    push_chars(&mut f, "extras = [");
    push_copy(&mut f, &joined);
    push_chars(&mut f, "]");
    proof {
        assert(f@ =~= "extras = ["@ + join_comma(quoted_extras(extras@)) + "]"@);
    }
    f
}

/// Append the optional `extras` field.
pub fn push_extras_field(fields: &mut Vec<Vec<char>>, d: &PipfilePackageDetail)
    ensures
        views_of(final(fields)@) == views_of(old(fields)@) + field_extras(*d),
{
    if d.extras.len() > 0 {
        let f = write_extras_field(&d.extras);
        fields.push(f);
        proof {
            assert(views_of(fields@) =~= views_of(old(fields)@) + field_extras(*d));
        }
    } else {
        proof {
            assert(views_of(fields@) =~= views_of(old(fields)@) + field_extras(*d));
        }
    }
}

/// Append the optional `editable` field.
pub fn push_editable_field(fields: &mut Vec<Vec<char>>, d: &PipfilePackageDetail)
    ensures
        views_of(final(fields)@) == views_of(old(fields)@) + field_editable(*d),
{
    if d.editable {
        let mut f: Vec<char> = Vec::new();
        push_chars(&mut f, "editable = true");
        proof {
            assert(f@ =~= "editable = true"@);
        }
        fields.push(f);
        proof {
            assert(views_of(fields@) =~= views_of(old(fields)@) + field_editable(*d));
        }
    } else {
        proof {
            assert(views_of(fields@) =~= views_of(old(fields)@) + field_editable(*d));
        }
    }
}

/// Build the field texts of a detail table.
pub fn write_detail_fields(detail: &PipfilePackageDetail) -> (r: Vec<Vec<char>>)
    ensures
        views_of(r@) == detail_fields(*detail),
{
    let mut fields: Vec<Vec<char>> = Vec::new();
    proof {
        assert(views_of(fields@) =~= Seq::<Seq<char>>::empty());
    }
    push_quoted_field(&mut fields, "version", &detail.version);
    push_extras_field(&mut fields, detail);
    push_quoted_field(&mut fields, "git", &detail.git);
    push_quoted_field(&mut fields, "ref", &detail.git_ref);
    push_quoted_field(&mut fields, "path", &detail.path);
    push_editable_field(&mut fields, detail);
    push_quoted_field(&mut fields, "index", &detail.index);
    push_quoted_field(&mut fields, "markers", &detail.markers);
    push_quoted_field(&mut fields, "sys_platform", &detail.sys_platform);
    proof {
        assert(views_of(fields@) =~= detail_fields(*detail));
    }
    fields
}

/// Whether a character may stand in a bare TOML key.
pub open spec fn is_bare_key_char_spec(c: char) -> bool {
    ('a' <= c && c <= 'z') || ('A' <= c && c <= 'Z') || ('0' <= c && c <= '9') || c == '-'
        || c == '_'
}

/// Whether a key may be emitted bare: nonempty and made of bare-key
/// characters only.
pub open spec fn is_bare_key(k: Seq<char>) -> bool {
    k.len() > 0 && forall|i: int| 0 <= i < k.len() ==> is_bare_key_char_spec(#[trigger] k[i])
}

/// The emitted text of a map key: bare when it may be, quoted and escaped
/// otherwise.
pub open spec fn key_text(k: Seq<char>) -> Seq<char> {
    if is_bare_key(k) {
        k
    } else {
        "\""@ + esc_value_spec(k) + "\""@
    }
}

/// Whether a key may be emitted bare.
#[verifier::loop_isolation(false)]
fn is_bare_key_exec(k: &str) -> (r: bool)
    ensures
        r == is_bare_key(k@),
{
    let chars = crate::text::str_to_chars(k);
    let n = chars.len();
    if n == 0 {
        return false;
    }
    let mut i: usize = 0;
    while i < n
        invariant
            i <= n,
            n == k@.len(),
            chars@ == k@,
            forall|j: int| 0 <= j < i ==> is_bare_key_char_spec(#[trigger] k@[j]),
        decreases n - i,
    {
        let c = chars[i];
        let bare = ('a' <= c && c <= 'z') || ('A' <= c && c <= 'Z') || ('0' <= c && c <= '9') || c
            == '-' || c == '_';
        if !bare {
            proof {
                assert(!is_bare_key_char_spec(k@[i as int]));
            }
            return false;
        }
        i += 1;
    }
    true
}

/// Append a map key, quoting it when it is not a bare key.
pub fn push_key(out: &mut Vec<char>, k: &str)
    ensures
        final(out)@ == old(out)@ + key_text(k@),
{
    if is_bare_key_exec(k) {
        push_chars(out, k);
    } else {
        push_chars(out, "\"");
        push_escaped(out, k);
        push_chars(out, "\"");
        proof {
            assert(out@ =~= old(out)@ + key_text(k@));
        }
    }
}

/// The text of one package map entry.
pub open spec fn render_package_entry(name: String, pkg: PipfilePackage) -> Seq<char> {
    match pkg {
        PipfilePackage::Simple(v) => key_text(name@) + " = \""@ + esc_value_spec(v@) + "\"\n"@,
        PipfilePackage::Detailed(d) => key_text(name@) + " = {"@ + join_comma(detail_fields(d))
            + "}\n"@,
    }
}

/// The text of a package map, one entry per line.
pub open spec fn render_packages(m: Seq<(String, PipfilePackage)>) -> Seq<char>
    decreases m.len(),
{
    if m.len() == 0 {
        Seq::empty()
    } else {
        render_package_entry(m[0].0, m[0].1) + render_packages(m.drop_first())
    }
}

/// Append a package map to the output.
#[verifier::loop_isolation(false)]
pub fn write_packages(out: &mut Vec<char>, packages: &Vec<(String, PipfilePackage)>)
    ensures
        final(out)@ == old(out)@ + render_packages(packages@),
{
    let n = packages.len();
    let mut i: usize = 0;
    proof {
        assert(packages@.skip(0) =~= packages@);
        assert(out@ + render_packages(packages@.skip(0)) =~= old(out)@ + render_packages(
            packages@,
        ));
    }
    while i < n
        invariant
            i <= n,
            n == packages@.len(),
            out@ + render_packages(packages@.skip(i as int)) == old(out)@ + render_packages(
                packages@,
            ),
        decreases n - i,
    {
        proof {
            assert(packages@.skip(i as int)[0] == packages@[i as int]);
            assert(packages@.skip(i as int).drop_first() =~= packages@.skip(i + 1));
        }
        let name = &packages[i].0;
        push_key(out, name.as_str());
        match &packages[i].1 {
            PipfilePackage::Simple(version) => {
                push_chars(out, " = \"");
                push_escaped(out, version.as_str());
                push_chars(out, "\"\n");
            },
            PipfilePackage::Detailed(detail) => {
                push_chars(out, " = {");
                let fields = write_detail_fields(detail);
                let joined = join_comma_exec(&fields);
                push_copy(out, &joined);
                push_chars(out, "}\n");
            },
        }
        proof {
            assert(out@ + render_packages(packages@.skip(i + 1)) =~= old(out)@ + render_packages(
                packages@,
            ));
        }
        i += 1;
    }
    proof {
        assert(render_packages(packages@.skip(n as int)).len() == 0);
        assert(out@ =~= old(out)@ + render_packages(packages@));
    }
}

/// The text of one index source section.
pub open spec fn render_source(s: PipfileSource) -> Seq<char> {
    "[[source]]\n"@ + "url = \""@ + esc_value_spec(s.url@) + "\"\n"@ + "verify_ssl = "@
        + bool_str(s.verify_ssl) + "\n"@ + "name = \""@ + esc_value_spec(s.name@) + "\"\n\n"@
}

/// The text of all index source sections, in declaration order.
pub open spec fn render_sources(s: Seq<PipfileSource>) -> Seq<char>
    decreases s.len(),
{
    if s.len() == 0 {
        Seq::empty()
    } else {
        render_source(s[0]) + render_sources(s.drop_first())
    }
}

/// The text of the `[requires]` section, or nothing when it is absent.
pub open spec fn render_requires(r: Option<PipfileRequires>) -> Seq<char> {
    match r {
        None => Seq::empty(),
        Some(req) => "[requires]\n"@ + (match req.python_version {
            Some(v) => "python_version = \""@ + esc_value_spec(v@) + "\"\n"@,
            None => Seq::empty(),
        }) + (match req.python_full_version {
            Some(v) => "python_full_version = \""@ + esc_value_spec(v@) + "\"\n"@,
            None => Seq::empty(),
        }) + "\n"@,
    }
}

/// The text of the script lines.
pub open spec fn render_script_lines(s: Seq<(String, String)>) -> Seq<char>
    decreases s.len(),
{
    if s.len() == 0 {
        Seq::empty()
    } else {
        key_text(s[0].0@) + " = \""@ + esc_value_spec(s[0].1@) + "\"\n"@ + render_script_lines(
            s.drop_first(),
        )
    }
}

/// The text of the `[scripts]` section, or nothing when no script exists.
pub open spec fn render_scripts(s: Seq<(String, String)>) -> Seq<char> {
    if s.len() == 0 {
        Seq::empty()
    } else {
        "[scripts]\n"@ + render_script_lines(s) + "\n"@
    }
}

/// The text of the `[pipenv]` section, or nothing when it is absent.
pub open spec fn render_settings(p: Option<PipfileSettings>) -> Seq<char> {
    match p {
        None => Seq::empty(),
        Some(settings) => "[pipenv]\n"@ + (if settings.allow_prereleases {
            "allow_prereleases = true\n"@
        } else {
            Seq::empty()
        }) + "\n"@,
    }
}

/// The whole manifest text: sources, packages, dev-packages, requires,
/// scripts, settings, in that order.
pub open spec fn render_pipfile(pf: &Pipfile) -> Seq<char> {
    render_sources(pf.source@) + "[packages]\n"@ + render_packages(pf.packages@) + "\n"@
        + "[dev-packages]\n"@ + render_packages(pf.dev_packages@) + "\n"@ + render_requires(
        pf.requires,
    ) + render_scripts(pf.scripts@) + render_settings(pf.pipenv)
}

/// Append all index source sections to the output.
#[verifier::loop_isolation(false)]
pub fn write_sources(out: &mut Vec<char>, sources: &Vec<PipfileSource>)
    ensures
        final(out)@ == old(out)@ + render_sources(sources@),
{
    let n = sources.len();
    let mut i: usize = 0;
    proof {
        assert(sources@.skip(0) =~= sources@);
        assert(out@ + render_sources(sources@.skip(0)) =~= old(out)@ + render_sources(sources@));
    }
    while i < n
        invariant
            i <= n,
            n == sources@.len(),
            out@ + render_sources(sources@.skip(i as int)) == old(out)@ + render_sources(sources@),
        decreases n - i,
    {
        proof {
            assert(sources@.skip(i as int)[0] == sources@[i as int]);
            assert(sources@.skip(i as int).drop_first() =~= sources@.skip(i + 1));
        }
        let src = &sources[i];
        push_chars(out, "[[source]]\n");
        push_chars(out, "url = \"");
        push_escaped(out, src.url.as_str());
        push_chars(out, "\"\n");
        push_chars(out, "verify_ssl = ");
        if src.verify_ssl {
            push_chars(out, "true");
        } else {
            push_chars(out, "false");
        }
        push_chars(out, "\n");
        push_chars(out, "name = \"");
        push_escaped(out, src.name.as_str());
        push_chars(out, "\"\n\n");
        proof {
            assert(out@ + render_sources(sources@.skip(i + 1)) =~= old(out)@ + render_sources(
                sources@,
            ));
        }
        i += 1;
    }
    proof {
        assert(render_sources(sources@.skip(n as int)).len() == 0);
        assert(out@ =~= old(out)@ + render_sources(sources@));
    }
}

/// Append all script lines to the output.
#[verifier::loop_isolation(false)]
pub fn write_script_lines(out: &mut Vec<char>, scripts: &Vec<(String, String)>)
    ensures
        final(out)@ == old(out)@ + render_script_lines(scripts@),
{
    let n = scripts.len();
    let mut i: usize = 0;
    proof {
        assert(scripts@.skip(0) =~= scripts@);
        assert(out@ + render_script_lines(scripts@.skip(0)) =~= old(out)@ + render_script_lines(
            scripts@,
        ));
    }
    while i < n
        invariant
            i <= n,
            n == scripts@.len(),
            out@ + render_script_lines(scripts@.skip(i as int)) == old(out)@ + render_script_lines(
                scripts@,
            ),
        decreases n - i,
    {
        proof {
            assert(scripts@.skip(i as int)[0] == scripts@[i as int]);
            assert(scripts@.skip(i as int).drop_first() =~= scripts@.skip(i + 1));
        }
        push_key(out, scripts[i].0.as_str());
        push_chars(out, " = \"");
        push_escaped(out, scripts[i].1.as_str());
        push_chars(out, "\"\n");
        proof {
            assert(out@ + render_script_lines(scripts@.skip(i + 1)) =~= old(out)@
                + render_script_lines(scripts@));
        }
        i += 1;
    }
    proof {
        assert(render_script_lines(scripts@.skip(n as int)).len() == 0);
        assert(out@ =~= old(out)@ + render_script_lines(scripts@));
    }
}

use crate::model::PipfileRequires;
use crate::model::PipfileSettings;

impl Pipfile {
    /// Serialize the manifest to its TOML text.
    #[verifier::rlimit(60)]
    pub fn to_toml_string(&self) -> (r: String)
        ensures
            r@ == render_pipfile(self),
    {
        let mut out: Vec<char> = Vec::new();

        // [[source]] entries
        write_sources(&mut out, &self.source);
        let ghost after_sources = render_sources(self.source@);
        proof {
            assert(out@ =~= after_sources);
        }

        // [packages]
        push_chars(&mut out, "[packages]\n");
        write_packages(&mut out, &self.packages);
        push_chars(&mut out, "\n");
        let ghost after_packages = after_sources + "[packages]\n"@ + render_packages(
            self.packages@,
        ) + "\n"@;
        proof {
            assert(out@ =~= after_packages);
        }

        // [dev-packages]
        push_chars(&mut out, "[dev-packages]\n");
        write_packages(&mut out, &self.dev_packages);
        push_chars(&mut out, "\n");
        let ghost after_dev = after_packages + "[dev-packages]\n"@ + render_packages(
            self.dev_packages@,
        ) + "\n"@;
        proof {
            assert(out@ =~= after_dev);
        }

        // [requires]
        if let Some(reqs) = &self.requires {
            push_chars(&mut out, "[requires]\n");
            if let Some(version) = &reqs.python_version {
                push_chars(&mut out, "python_version = \"");
                push_escaped(&mut out, version.as_str());
                push_chars(&mut out, "\"\n");
            }
            if let Some(full_version) = &reqs.python_full_version {
                push_chars(&mut out, "python_full_version = \"");
                push_escaped(&mut out, full_version.as_str());
                push_chars(&mut out, "\"\n");
            }
            push_chars(&mut out, "\n");
        }
        let ghost after_requires = after_dev + render_requires(self.requires);
        proof {
            assert(out@ =~= after_requires);
        }

        // [scripts]
        if self.scripts.len() > 0 {
            push_chars(&mut out, "[scripts]\n");
            write_script_lines(&mut out, &self.scripts);
            push_chars(&mut out, "\n");
        }
        let ghost after_scripts = after_requires + render_scripts(self.scripts@);
        proof {
            assert(out@ =~= after_scripts);
        }

        // [pipenv]
        if let Some(settings) = &self.pipenv {
            push_chars(&mut out, "[pipenv]\n");
            if settings.allow_prereleases {
                push_chars(&mut out, "allow_prereleases = true\n");
            }
            push_chars(&mut out, "\n");
        }
        proof {
            assert(out@ =~= render_pipfile(self));
        }
        chars_to_string(&out)
    }
}

} // verus!
