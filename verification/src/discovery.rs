//! Project-directory naming for slash-separated paths.
//!
//! The manifest's file discovery walks the file system and stays in the
//! unverified front end; what is verified here is the pure part: taking a
//! path apart into its parent and its final component.

use vstd::prelude::*;
use crate::text::{str_to_chars, chars_to_string, push_chars};

verus! {

/// A path with its trailing slashes removed.
pub open spec fn trim_trailing_slashes(s: Seq<char>) -> Seq<char>
    decreases s.len(),
{
    if s.len() > 0 && s.last() == '/' {
        trim_trailing_slashes(s.drop_last())
    } else {
        s
    }
}

/// The characters after the last slash, or the whole text when no slash
/// occurs.
pub open spec fn after_last_slash(s: Seq<char>) -> Seq<char>
    decreases s.len(),
{
    if s.len() == 0 {
        s
    } else if s.last() == '/' {
        Seq::empty()
    } else {
        after_last_slash(s.drop_last()).push(s.last())
    }
}

/// The project name a directory path yields: its final component, or the
/// fallback `project` when the path has none.
pub open spec fn project_name_spec(s: Seq<char>) -> Seq<char> {
    if after_last_slash(trim_trailing_slashes(s)).len() == 0 {
        "project"@
    } else {
        after_last_slash(trim_trailing_slashes(s))
    }
}

/// Derive a project name from the project root directory: the directory's
/// final path component, with `project` as the fallback when the path has
/// none (the root, or an empty path).
#[verifier::loop_isolation(false)]
pub fn project_name_from_dir(project_dir: &str) -> (r: String)
    ensures
        r@ == project_name_spec(project_dir@),
{
    let chars = str_to_chars(project_dir);
    let n = chars.len();
    // drop trailing slashes
    let mut t: usize = n;
    proof {
        assert(project_dir@.take(n as int) =~= project_dir@);
        assert(trim_trailing_slashes(project_dir@.take(t as int)) == trim_trailing_slashes(
            project_dir@,
        ));
    }
    while t > 0 && chars[t - 1] == '/'
        invariant
            t <= n,
            n == project_dir@.len(),
            chars@ == project_dir@,
            trim_trailing_slashes(project_dir@.take(t as int)) == trim_trailing_slashes(
                project_dir@,
            ),
        decreases t,
    {
        proof {
            assert(project_dir@.take(t as int).last() == project_dir@[t - 1]);
            assert(project_dir@.take(t as int).drop_last() =~= project_dir@.take(t - 1));
        }
        t -= 1;
    }
    proof {
        if t > 0 {
            assert(project_dir@.take(t as int).last() == project_dir@[t - 1]);
        }
        assert(trim_trailing_slashes(project_dir@.take(t as int)) == project_dir@.take(t as int));
    }
    let ghost trimmed = project_dir@.take(t as int);
    // find the start of the final component
    let mut j: usize = t;
    proof {
        assert(trimmed.take(t as int) =~= trimmed);
        assert(after_last_slash(trimmed) =~= after_last_slash(trimmed.take(j as int)) + trimmed.subrange(
            j as int,
            t as int,
        ));
    }
    while j > 0 && chars[j - 1] != '/'
        invariant
            j <= t,
            t <= n,
            n == project_dir@.len(),
            chars@ == project_dir@,
            trimmed == project_dir@.take(t as int),
            after_last_slash(trimmed) == after_last_slash(trimmed.take(j as int))
                + trimmed.subrange(j as int, t as int),
        decreases j,
    {
        proof {
            assert(trimmed.take(j as int).last() == project_dir@[j - 1]);
            assert(trimmed.take(j as int).drop_last() =~= trimmed.take(j - 1));
            assert(after_last_slash(trimmed.take(j as int)) =~= after_last_slash(
                trimmed.take(j - 1),
            ).push(project_dir@[j - 1]));
            assert(after_last_slash(trimmed.take(j - 1)) + trimmed.subrange(j - 1, t as int) =~=
                after_last_slash(trimmed.take(j as int)) + trimmed.subrange(j as int, t as int));
        }
        j -= 1;
    }
    proof {
        if j > 0 {
            assert(trimmed.take(j as int).last() == project_dir@[j - 1]);
            assert(after_last_slash(trimmed.take(j as int)).len() == 0);
        } else {
            assert(trimmed.take(0).len() == 0);
        }
        assert(after_last_slash(trimmed) =~= trimmed.subrange(j as int, t as int));
    }
    if j == t {
        // empty component: the root or an empty path
        let mut buf: Vec<char> = Vec::new();
        push_chars(&mut buf, "project");
        proof {
            assert(buf@ =~= "project"@);
        }
        return chars_to_string(&buf);
    }
    let mut buf: Vec<char> = Vec::new();
    let mut k: usize = j;
    while k < t
        invariant
            j <= k <= t,
            t <= n,
            n == project_dir@.len(),
            chars@ == project_dir@,
            trimmed == project_dir@.take(t as int),
            buf@ == trimmed.subrange(j as int, k as int),
        decreases t - k,
    {
        buf.push(chars[k]);
        proof {
            assert(trimmed.subrange(j as int, k as int).push(project_dir@[k as int]) =~=
                trimmed.subrange(j as int, k + 1));
        }
        k += 1;
    }
    proof {
        assert(buf@ =~= after_last_slash(trimmed));
        assert(buf@.len() > 0);
    }
    chars_to_string(&buf)
}

/// The parent of a slash-separated path: the text before its final
/// component, or nothing when the path has no parent.
pub open spec fn parent_spec(s: Seq<char>) -> Option<Seq<char>> {
    let trimmed = trim_trailing_slashes(s);
    if trimmed.len() == 0 {
        None
    } else {
        let head = trimmed.take(trimmed.len() - after_last_slash(trimmed).len());
        if trim_trailing_slashes(head).len() == 0 && head.len() > 0 {
            Some("/"@)
        } else {
            Some(trim_trailing_slashes(head))
        }
    }
}

/// Return the project root directory: the parent of the manifest path,
/// with the final component and its separators removed; the root keeps its
/// one slash, and a bare filename yields the empty path.
#[verifier::loop_isolation(false)]
pub fn project_root(pipfile_path: &str) -> (r: Option<String>)
    ensures
        match r {
            Some(p) => parent_spec(pipfile_path@) == Some(p@),
            None => parent_spec(pipfile_path@) is None,
        },
{
    let chars = str_to_chars(pipfile_path);
    let n = chars.len();
    let mut t: usize = n;
    proof {
        assert(pipfile_path@.take(n as int) =~= pipfile_path@);
        assert(trim_trailing_slashes(pipfile_path@.take(t as int)) == trim_trailing_slashes(
            pipfile_path@,
        ));
    }
    while t > 0 && chars[t - 1] == '/'
        invariant
            t <= n,
            n == pipfile_path@.len(),
            chars@ == pipfile_path@,
            trim_trailing_slashes(pipfile_path@.take(t as int)) == trim_trailing_slashes(
                pipfile_path@,
            ),
        decreases t,
    {
        proof {
            assert(pipfile_path@.take(t as int).last() == pipfile_path@[t - 1]);
            assert(pipfile_path@.take(t as int).drop_last() =~= pipfile_path@.take(t - 1));
        }
        t -= 1;
    }
    proof {
        if t > 0 {
            assert(pipfile_path@.take(t as int).last() == pipfile_path@[t - 1]);
        }
        assert(trim_trailing_slashes(pipfile_path@.take(t as int)) == pipfile_path@.take(t as int));
    }
    let ghost trimmed = pipfile_path@.take(t as int);
    if t == 0 {
        return None;
    }
    let mut j: usize = t;
    proof {
        assert(trimmed.take(t as int) =~= trimmed);
        assert(after_last_slash(trimmed) =~= after_last_slash(trimmed.take(j as int))
            + trimmed.subrange(j as int, t as int));
    }
    while j > 0 && chars[j - 1] != '/'
        invariant
            j <= t,
            t <= n,
            n == pipfile_path@.len(),
            chars@ == pipfile_path@,
            trimmed == pipfile_path@.take(t as int),
            after_last_slash(trimmed) == after_last_slash(trimmed.take(j as int))
                + trimmed.subrange(j as int, t as int),
        decreases j,
    {
        proof {
            assert(trimmed.take(j as int).last() == pipfile_path@[j - 1]);
            assert(trimmed.take(j as int).drop_last() =~= trimmed.take(j - 1));
            assert(after_last_slash(trimmed.take(j as int)) =~= after_last_slash(
                trimmed.take(j - 1),
            ).push(pipfile_path@[j - 1]));
            assert(after_last_slash(trimmed.take(j - 1)) + trimmed.subrange(j - 1, t as int) =~=
                after_last_slash(trimmed.take(j as int)) + trimmed.subrange(j as int, t as int));
        }
        j -= 1;
    }
    proof {
        if j > 0 {
            assert(trimmed.take(j as int).last() == pipfile_path@[j - 1]);
            assert(after_last_slash(trimmed.take(j as int)).len() == 0);
        } else {
            assert(trimmed.take(0).len() == 0);
        }
        assert(after_last_slash(trimmed) =~= trimmed.subrange(j as int, t as int));
        assert(after_last_slash(trimmed).len() == t - j);
    }
    let ghost head = trimmed.take(j as int);
    proof {
        assert(trimmed.take(trimmed.len() - after_last_slash(trimmed).len()) =~= head);
        assert(head =~= pipfile_path@.take(j as int));
    }
    // drop the separators before the final component
    let mut h: usize = j;
    proof {
        assert(head.take(j as int) =~= head);
        assert(trim_trailing_slashes(head.take(h as int)) == trim_trailing_slashes(head));
    }
    while h > 0 && chars[h - 1] == '/'
        invariant
            h <= j,
            j <= t <= n,
            n == pipfile_path@.len(),
            chars@ == pipfile_path@,
            trimmed == pipfile_path@.take(t as int),
            head == trimmed.take(j as int),
            head == pipfile_path@.take(j as int),
            trim_trailing_slashes(head.take(h as int)) == trim_trailing_slashes(head),
        decreases h,
    {
        proof {
            assert(head.take(h as int).last() == pipfile_path@[h - 1]);
            assert(head.take(h as int).drop_last() =~= head.take(h - 1));
        }
        h -= 1;
    }
    proof {
        if h > 0 {
            assert(head.take(h as int).last() == pipfile_path@[h - 1]);
        }
        assert(trim_trailing_slashes(head) == head.take(h as int));
    }
    if h == 0 && j > 0 {
        // only separators precede the final component: the parent is the root
        let mut buf: Vec<char> = Vec::new();
        buf.push('/');
        proof {
            reveal_strlit("/");
            assert(buf@ =~= "/"@);
        }
        return Some(chars_to_string(&buf));
    }
    let mut buf: Vec<char> = Vec::new();
    let mut k: usize = 0;
    while k < h
        invariant
            k <= h,
            h <= j <= t <= n,
            n == pipfile_path@.len(),
            chars@ == pipfile_path@,
            trimmed == pipfile_path@.take(t as int),
            head == trimmed.take(j as int),
            head == pipfile_path@.take(j as int),
            buf@ == head.subrange(0, k as int),
        decreases h - k,
    {
        buf.push(chars[k]);
        proof {
            assert(head.subrange(0, k as int).push(pipfile_path@[k as int]) =~= head.subrange(
                0,
                k + 1,
            ));
        }
        k += 1;
    }
    proof {
        assert(buf@ =~= head.take(h as int));
    }
    Some(chars_to_string(&buf))
}

} // verus!
