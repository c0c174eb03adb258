//! Parsing of package specifications handed to the install command.
//!
//! A spec string such as `requests>=2.0` or `requests[security]` splits
//! into a name part and a version-constraint part at the first constraint
//! operator character.

use vstd::prelude::*;
use vstd::string::StrSliceExecFns;
use crate::cli::InstallArgs;
use crate::model::{PipfilePackage, PipfilePackageDetail};
use crate::text::{push_chars, chars_to_string};

verus! {

/// Whether a character begins a version constraint.
pub open spec fn is_constraint_char(c: char) -> bool {
    c == '>' || c == '<' || c == '=' || c == '!' || c == '~'
}

/// Where the version constraint begins: the first constraint character, or
/// the end when none occurs. Everything before it, including any extras
/// suffix, is the name portion.
pub open spec fn split_idx(s: Seq<char>) -> int
    decreases s.len(),
{
    if s.len() == 0 {
        0
    } else if is_constraint_char(s[0]) {
        0
    } else {
        1 + split_idx(s.drop_first())
    }
}

/// The split point lies within the text.
pub proof fn lemma_split_idx_bounds(s: Seq<char>)
    ensures
        0 <= split_idx(s) <= s.len(),
    decreases s.len(),
{
    if s.len() > 0 && !is_constraint_char(s[0]) {
        lemma_split_idx_bounds(s.drop_first());
    }
}

/// Split a package spec into its name and version parts.
#[verifier::loop_isolation(false)]
pub fn split_name_version<'a>(pkg_spec: &'a str) -> (r: (&'a str, &'a str))
    ensures
        r.0@ == pkg_spec@.take(split_idx(pkg_spec@)),
        r.1@ == pkg_spec@.skip(split_idx(pkg_spec@)),
{
    let n = pkg_spec.unicode_len();
    let mut i: usize = 0;
    proof {
        lemma_split_idx_bounds(pkg_spec@);
        assert(pkg_spec@.skip(0) =~= pkg_spec@);
        assert(split_idx(pkg_spec@) == i + split_idx(pkg_spec@.skip(i as int)));
    }
    while i < n
        invariant
            i <= n,
            n == pkg_spec@.len(),
            split_idx(pkg_spec@) == i + split_idx(pkg_spec@.skip(i as int)),
        decreases n - i,
    {
        proof {
            assert(pkg_spec@.skip(i as int)[0] == pkg_spec@[i as int]);
            assert(pkg_spec@.skip(i as int).drop_first() =~= pkg_spec@.skip(i + 1));
        }
        let c = pkg_spec.get_char(i);
        if c == '>' || c == '<' || c == '=' || c == '!' || c == '~' {
            proof {
                assert(split_idx(pkg_spec@.skip(i as int)) == 0);
            }
            let name = pkg_spec.substring_char(0, i);
            let version = pkg_spec.substring_char(i, n);
            proof {
                assert(name@ =~= pkg_spec@.take(split_idx(pkg_spec@)));
                assert(version@ =~= pkg_spec@.skip(split_idx(pkg_spec@)));
            }
            return (name, version);
        }
        i += 1;
    }
    proof {
        assert(split_idx(pkg_spec@.skip(n as int)) == 0);
        assert(split_idx(pkg_spec@) == n);
    }
    let name = pkg_spec.substring_char(0, n);
    let version = pkg_spec.substring_char(n, n);
    proof {
        assert(name@ =~= pkg_spec@.take(split_idx(pkg_spec@)));
        assert(version@ =~= pkg_spec@.skip(split_idx(pkg_spec@)));
    }
    (name, version)
}

/// Parse a package spec handed to the install command: an editable install
/// becomes a detailed local-path package, a bare name becomes the wildcard,
/// and anything else keeps its version constraint.
pub fn parse_package_spec(pkg_spec: &str, args: &InstallArgs) -> (r: (String, PipfilePackage))
    ensures
        r.0@ == pkg_spec@.take(split_idx(pkg_spec@)),
        args.editable ==> (r.1 matches PipfilePackage::Detailed(d) && d.path is Some
            && d.path->Some_0@ == pkg_spec@ && d.editable && d.version is None && d.extras@.len()
            == 0 && d.markers is None && d.sys_platform is None && d.git is None && d.git_ref
            is None && d.index is None),
        !args.editable && split_idx(pkg_spec@) == pkg_spec@.len() ==> (
        r.1 matches PipfilePackage::Simple(v) && v@ == "*"@),
        !args.editable && split_idx(pkg_spec@) < pkg_spec@.len() ==> (
        r.1 matches PipfilePackage::Simple(v) && v@ == pkg_spec@.skip(split_idx(pkg_spec@))),
{
    let (name, version) = split_name_version(pkg_spec);

    if args.editable {
        let mut detail = PipfilePackageDetail::empty();
        detail.path = Some(pkg_spec.to_owned());
        detail.editable = true;
        return (name.to_owned(), PipfilePackage::Detailed(detail));
    }

    proof {
        lemma_split_idx_bounds(pkg_spec@);
    }
    if version.unicode_len() == 0 {
        let mut buf: Vec<char> = Vec::new();
        push_chars(&mut buf, "*");
        proof {
            assert(buf@ =~= "*"@);
        }
        (name.to_owned(), PipfilePackage::Simple(chars_to_string(&buf)))
    } else {
        (name.to_owned(), PipfilePackage::Simple(version.to_owned()))
    }
}

/// Parse one line of a requirements file into a package map entry.
pub fn parse_requirement_line(line: &str) -> (r: (String, PipfilePackage))
    ensures
        r.0@ == line@.take(split_idx(line@)),
        split_idx(line@) == line@.len() ==> (r.1 matches PipfilePackage::Simple(v) && v@ == "*"@),
        split_idx(line@) < line@.len() ==> (r.1 matches PipfilePackage::Simple(v) && v@
            == line@.skip(split_idx(line@))),
{
    let (name, version) = split_name_version(line);
    proof {
        lemma_split_idx_bounds(line@);
    }
    if version.unicode_len() == 0 {
        let mut buf: Vec<char> = Vec::new();
        push_chars(&mut buf, "*");
        proof {
            assert(buf@ =~= "*"@);
        }
        (name.to_owned(), PipfilePackage::Simple(chars_to_string(&buf)))
    } else {
        (name.to_owned(), PipfilePackage::Simple(version.to_owned()))
    }
}

} // verus!
