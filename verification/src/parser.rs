//! Manifest reader: parse the on-disk TOML form into a [`Pipfile`].
//!
//! The reader handles the manifest's own grammar: `[[source]]` sections,
//! the `[packages]`, `[dev-packages]`, `[requires]`, `[scripts]` and
//! `[pipenv]` sections, with string, boolean, string-array and single-line
//! inline-table values, comments and blank lines. A package entry is read
//! with the explicit two-attempt strategy: a plain string makes a simple
//! package, an inline table the detailed form. Unknown keys and unknown
//! sections are ignored; malformed syntax and schema-incompatible values
//! yield a [`ParseError`] carrying the offending line.

use vstd::prelude::*;
use crate::model::{Pipfile, PipfilePackage, PipfilePackageDetail, PipfileRequires,
    PipfileSettings, PipfileSource, pipfile_wf};
use crate::strmap::{map_wf, map_insert, map_contains, lemma_insert_wf};
use crate::text::{str_to_chars, chars_to_string, push_chars, str_eq};

verus! {

/// Why a manifest failed to parse.
#[derive(Debug)]
pub enum ParseErrorKind {
    /// A line is neither a section header, a key-value pair, a comment nor
    /// blank.
    BadLine,
    /// A string value is unterminated or holds an unsupported escape.
    BadString,
    /// A value form the manifest schema does not use.
    BadValue,
    /// A key appears twice within one section.
    DuplicateKey,
    /// A section appears twice.
    DuplicateSection,
    /// A known key carries a value of the wrong type.
    WrongType,
    /// A source section lacks its name or its URL.
    MissingField,
}

/// A manifest parse failure: the offending line and what went wrong.
#[derive(Debug)]
pub struct ParseError {
    /// One-based line number of the failure.
    pub line: usize,
    /// What went wrong.
    pub kind: ParseErrorKind,
}

impl ParseError {
    /// A short description of the failure.
    pub fn message(&self) -> (r: String)
        ensures
            r@ == match self.kind {
                ParseErrorKind::BadLine => "malformed line"@,
                ParseErrorKind::BadString => "malformed string value"@,
                ParseErrorKind::BadValue => "unsupported value"@,
                ParseErrorKind::DuplicateKey => "duplicate key"@,
                ParseErrorKind::DuplicateSection => "duplicate section"@,
                ParseErrorKind::WrongType => "wrong value type"@,
                ParseErrorKind::MissingField => "source requires name and url"@,
            },
    {
        let mut buf: Vec<char> = Vec::new();
        match self.kind {
            ParseErrorKind::BadLine => {
                push_chars(&mut buf, "malformed line");
                proof {
                    assert(buf@ =~= "malformed line"@);
                }
            },
            ParseErrorKind::BadString => {
                push_chars(&mut buf, "malformed string value");
                proof {
                    assert(buf@ =~= "malformed string value"@);
                }
            },
            ParseErrorKind::BadValue => {
                push_chars(&mut buf, "unsupported value");
                proof {
                    assert(buf@ =~= "unsupported value"@);
                }
            },
            ParseErrorKind::DuplicateKey => {
                push_chars(&mut buf, "duplicate key");
                proof {
                    assert(buf@ =~= "duplicate key"@);
                }
            },
            ParseErrorKind::DuplicateSection => {
                push_chars(&mut buf, "duplicate section");
                proof {
                    assert(buf@ =~= "duplicate section"@);
                }
            },
            ParseErrorKind::WrongType => {
                push_chars(&mut buf, "wrong value type");
                proof {
                    assert(buf@ =~= "wrong value type"@);
                }
            },
            ParseErrorKind::MissingField => {
                push_chars(&mut buf, "source requires name and url");
                proof {
                    assert(buf@ =~= "source requires name and url"@);
                }
            },
        }
        chars_to_string(&buf)
    }
}

/// A parsed single-line TOML value of the forms the manifest uses.
pub enum TomlVal {
    /// A double-quoted string, unescaped.
    VStr(String),
    /// A boolean.
    VBool(bool),
    /// An array of strings.
    VArr(Vec<String>),
    /// An inline table, keys in file order.
    VTable(Vec<(String, TomlVal)>),
}

/// Whether a character may stand in a bare key.
fn is_bare_key_char(c: char) -> (r: bool)
    ensures
        r == crate::writer::is_bare_key_char_spec(c),
{
    ('a' <= c && c <= 'z') || ('A' <= c && c <= 'Z') || ('0' <= c && c <= '9') || c == '-'
        || c == '_'
}

/// Whether a character is horizontal whitespace.
pub open spec fn is_ws_spec(c: char) -> bool {
    c == ' ' || c == '\t' || c == '\r'
}

/// Whether a character is horizontal whitespace.
fn is_ws(c: char) -> (r: bool)
    ensures
        r == is_ws_spec(c),
{
    c == ' ' || c == '\t' || c == '\r'
}

/// Where the leading horizontal whitespace of a text ends.
pub open spec fn first_non_ws(w: Seq<char>) -> int
    decreases w.len(),
{
    if w.len() == 0 {
        0
    } else if is_ws_spec(w[0]) {
        1 + first_non_ws(w.drop_first())
    } else {
        0
    }
}

/// The whitespace prefix is within bounds.
pub proof fn lemma_first_non_ws_bounds(w: Seq<char>)
    ensures
        0 <= first_non_ws(w) <= w.len(),
    decreases w.len(),
{
    if w.len() > 0 && is_ws_spec(w[0]) {
        lemma_first_non_ws_bounds(w.drop_first());
    }
}

/// Advance past horizontal whitespace.
fn skip_ws(v: &Vec<char>, i: usize) -> (r: usize)
    requires
        i <= v@.len(),
    ensures
        i <= r <= v@.len(),
        r == i + first_non_ws(v@.skip(i as int)),
    decreases v@.len() - i,
{
    if i < v.len() && is_ws(v[i]) {
        proof {
            assert(v@.skip(i as int)[0] == v@[i as int]);
            assert(v@.skip(i as int).drop_first() =~= v@.skip(i + 1));
        }
        skip_ws(v, i + 1)
    } else {
        proof {
            if i < v@.len() {
                assert(v@.skip(i as int)[0] == v@[i as int]);
            }
            assert(first_non_ws(v@.skip(i as int)) == 0);
        }
        i
    }
}

/// Whether a line holds only whitespace or a comment.
pub open spec fn is_blank_line(w: Seq<char>) -> bool {
    first_non_ws(w) >= w.len() || w[first_non_ws(w)] == '#'
}

/// Whether every line of a text is blank or a comment.
pub open spec fn all_blank(ls: Seq<Seq<char>>) -> bool {
    forall|i: int| 0 <= i < ls.len() ==> is_blank_line(#[trigger] ls[i])
}

/// Where the first line of a text ends: the first newline, or the end.
pub open spec fn first_nl(w: Seq<char>) -> int
    decreases w.len(),
{
    if w.len() == 0 {
        0
    } else if w[0] == '\n' {
        0
    } else {
        1 + first_nl(w.drop_first())
    }
}

/// The first line is within bounds.
pub proof fn lemma_first_nl_bounds(w: Seq<char>)
    ensures
        0 <= first_nl(w) <= w.len(),
    decreases w.len(),
{
    if w.len() > 0 && w[0] != '\n' {
        lemma_first_nl_bounds(w.drop_first());
    }
}

/// The lines of a text: the segments between newlines, the final segment
/// included even when empty.
pub open spec fn lines_spec(s: Seq<char>) -> Seq<Seq<char>>
    decreases s.len(),
{
    let k = first_nl(s);
    if k < 0 || k >= s.len() {
        seq![s]
    } else {
        seq![s.take(k)] + lines_spec(s.skip(k + 1))
    }
}

/// A newline-free prefix followed by a newline is the first line.
proof fn lemma_first_nl_concat(a: Seq<char>, b: Seq<char>)
    requires
        forall|i: int| 0 <= i < a.len() ==> (#[trigger] a[i]) != '\n',
        b.len() > 0,
        b[0] == '\n',
    ensures
        first_nl(a + b) == a.len(),
    decreases a.len(),
{
    let w = a + b;
    if a.len() == 0 {
        assert(w =~= b);
    } else {
        assert(w[0] == a[0]);
        lemma_first_nl_concat(a.drop_first(), b);
        assert(w.drop_first() =~= a.drop_first() + b);
    }
}

/// A newline-free text is one line.
proof fn lemma_first_nl_none(a: Seq<char>)
    requires
        forall|i: int| 0 <= i < a.len() ==> (#[trigger] a[i]) != '\n',
    ensures
        first_nl(a) == a.len(),
    decreases a.len(),
{
    if a.len() > 0 {
        lemma_first_nl_none(a.drop_first());
    }
}

/// The unescaped character a short escape stands for, if the escape is one
/// the manifest grammar accepts.
pub open spec fn unescape_char(e: char) -> Option<char> {
    if e == '\\' {
        Some('\\')
    } else if e == '"' {
        Some('"')
    } else if e == 'n' {
        Some('\n')
    } else if e == 't' {
        Some('\t')
    } else if e == 'r' {
        Some('\r')
    } else {
        None
    }
}

/// What scanning string content yields: the text up to the closing quote,
/// unescaped, and the number of characters consumed (closing quote
/// included); nothing on an unterminated string or an unsupported escape.
pub open spec fn scan_content_spec(w: Seq<char>) -> Option<(Seq<char>, int)>
    decreases w.len(),
{
    if w.len() == 0 {
        None
    } else if w[0] == '"' {
        Some((Seq::empty(), 1))
    } else if w[0] == '\\' {
        if w.len() < 2 {
            None
        } else {
            match unescape_char(w[1]) {
                None => None,
                Some(c) => match scan_content_spec(w.skip(2)) {
                    None => None,
                    Some((s, j)) => Some((seq![c] + s, 2 + j)),
                },
            }
        }
    } else {
        match scan_content_spec(w.skip(1)) {
            None => None,
            Some((s, j)) => Some((seq![w[0]] + s, 1 + j)),
        }
    }
}

/// Scanning inverts the writer's escaping: the escaped text of any value,
/// followed by the closing quote, scans back to the value itself.
pub proof fn lemma_scan_inverts_escape(s: Seq<char>, rest: Seq<char>)
    ensures
        scan_content_spec(crate::writer::esc_value_spec(s) + seq!['"'] + rest) == Some(
            (s, crate::writer::esc_value_spec(s).len() + 1 as int),
        ),
    decreases s.len(),
{
    let esc = crate::writer::esc_value_spec(s);
    let w = esc + seq!['"'] + rest;
    if s.len() == 0 {
        assert(w[0] == '"');
        assert(scan_content_spec(w) == Some((Seq::<char>::empty(), 1int)));
        assert(s =~= Seq::<char>::empty());
    } else {
        lemma_scan_inverts_escape(s.drop_first(), rest);
        let esc_tail = crate::writer::esc_value_spec(s.drop_first());
        let w_tail = esc_tail + seq!['"'] + rest;
        let c = s[0];
        if c == '\\' || c == '"' {
            assert(w[0] == '\\');
            assert(w[1] == c);
            assert(unescape_char(c) == Some(c));
            assert(w.skip(2) =~= w_tail);
            assert(seq![c] + s.drop_first() =~= s);
        } else {
            assert(w[0] == c);
            assert(w[0] != '"' && w[0] != '\\');
            assert(w.skip(1) =~= w_tail);
            assert(seq![c] + s.drop_first() =~= s);
        }
    }
}

/// Scan a double-quoted string starting at the opening quote; returns the
/// unescaped content and the index after the closing quote.
#[verifier::loop_isolation(false)]
fn scan_string(v: &Vec<char>, start: usize) -> (r: Result<(String, usize), ()>)
    requires
        start < v@.len(),
        v@[start as int] == '"',
    ensures
        r matches Ok(p) ==> start < p.1 <= v@.len() && scan_content_spec(v@.skip(start + 1))
            == Some((p.0@, p.1 - start - 1 as int)),
        r is Err ==> scan_content_spec(v@.skip(start + 1)) is None,
{
    let n = v.len();
    let ghost w0 = v@.skip(start + 1);
    let mut out: Vec<char> = Vec::new();
    let mut i: usize = start + 1;
    proof {
        assert(v@.skip(i as int) =~= w0);
    }
    while i < n
        invariant
            start < i <= n,
            n == v@.len(),
            match scan_content_spec(v@.skip(i as int)) {
                Some((s, j)) => scan_content_spec(w0) == Some(
                    (out@ + s, i - start - 1 + j as int),
                ),
                None => scan_content_spec(w0) is None,
            },
        decreases n - i,
    {
        let ghost w = v@.skip(i as int);
        proof {
            assert(w[0] == v@[i as int]);
            assert(w.skip(1) =~= v@.skip(i + 1));
            if w.len() >= 2 {
                assert(w[1] == v@[i + 1]);
                assert(w.skip(2) =~= v@.skip(i + 2));
            }
        }
        let c = v[i];
        if c == '"' {
            proof {
                assert(scan_content_spec(w) == Some((Seq::<char>::empty(), 1int)));
                assert(out@ + Seq::<char>::empty() =~= out@);
            }
            return Ok((chars_to_string(&out), i + 1));
        }
        let ghost prev_out = out@;
        if c == '\\' {
            if i + 1 >= n {
                proof {
                    assert(w.len() < 2);
                    assert(scan_content_spec(w) is None);
                }
                return Err(());
            }
            let e = v[i + 1];
            if e == '\\' {
                out.push('\\');
            } else if e == '"' {
                out.push('"');
            } else if e == 'n' {
                out.push('\n');
            } else if e == 't' {
                out.push('\t');
            } else if e == 'r' {
                out.push('\r');
            } else {
                proof {
                    assert(unescape_char(w[1]) is None);
                    assert(scan_content_spec(w) is None);
                }
                return Err(());
            }
            proof {
                let uc = unescape_char(w[1])->Some_0;
                assert(out@ == prev_out.push(uc));
                match scan_content_spec(v@.skip(i + 2)) {
                    Some((s, j)) => {
                        assert(scan_content_spec(w) == Some((seq![uc] + s, 2 + j)));
                        assert(prev_out + (seq![uc] + s) =~= out@ + s);
                    },
                    None => {
                        assert(scan_content_spec(w) is None);
                    },
                }
            }
            i += 2;
        } else {
            out.push(c);
            proof {
                assert(out@ == prev_out.push(c));
                match scan_content_spec(v@.skip(i + 1)) {
                    Some((s, j)) => {
                        assert(scan_content_spec(w) == Some((seq![c] + s, 1 + j)));
                        assert(prev_out + (seq![c] + s) =~= out@ + s);
                    },
                    None => {
                        assert(scan_content_spec(w) is None);
                    },
                }
            }
            i += 1;
        }
    }
    proof {
        assert(v@.skip(n as int).len() == 0);
        assert(scan_content_spec(v@.skip(n as int)) is None);
    }
    Err(())
}

/// Scan an array of strings starting at the opening bracket; returns the
/// items and the index after the closing bracket.
#[verifier::loop_isolation(false)]
fn scan_str_array(v: &Vec<char>, start: usize) -> (r: Result<(Vec<String>, usize), ()>)
    requires
        start < v@.len(),
        v@[start as int] == '[',
    ensures
        r matches Ok(p) ==> start < p.1 <= v@.len(),
{
    let n = v.len();
    let mut items: Vec<String> = Vec::new();
    let mut i: usize = skip_ws(v, start + 1);
    let mut expect_item = true;
    while i < n
        invariant
            start < i <= n,
            n == v@.len(),
        decreases n - i,
    {
        if v[i] == ']' {
            return Ok((items, i + 1));
        }
        if !expect_item {
            if v[i] == ',' {
                i = skip_ws(v, i + 1);
                expect_item = true;
                continue ;
            }
            return Err(());
        }
        if v[i] != '"' {
            return Err(());
        }
        match scan_string(v, i) {
            Ok((s, j)) => {
                items.push(s);
                i = skip_ws(v, j);
                expect_item = false;
            },
            Err(()) => {
                return Err(());
            },
        }
    }
    Err(())
}

/// How many leading characters of a text may stand in a bare key.
pub open spec fn bare_prefix_len(w: Seq<char>) -> int
    decreases w.len(),
{
    if w.len() == 0 {
        0
    } else if !crate::writer::is_bare_key_char_spec(w[0]) {
        0
    } else {
        1 + bare_prefix_len(w.drop_first())
    }
}

/// The bare prefix is within bounds.
pub proof fn lemma_bare_prefix_bounds(w: Seq<char>)
    ensures
        0 <= bare_prefix_len(w) <= w.len(),
    decreases w.len(),
{
    if w.len() > 0 && crate::writer::is_bare_key_char_spec(w[0]) {
        lemma_bare_prefix_bounds(w.drop_first());
    }
}

/// What scanning a key yields: a quoted key's unescaped content, or the
/// maximal bare prefix; nothing when neither form starts here.
pub open spec fn scan_key_spec(w: Seq<char>) -> Option<(Seq<char>, int)> {
    if w.len() == 0 {
        None
    } else if w[0] == '"' {
        match scan_content_spec(w.skip(1)) {
            None => None,
            Some((s, j)) => Some((s, 1 + j)),
        }
    } else if !crate::writer::is_bare_key_char_spec(w[0]) {
        None
    } else {
        Some((w.take(bare_prefix_len(w)), bare_prefix_len(w)))
    }
}

/// Scan a key at the cursor: bare or quoted; returns the key text and the
/// index after it.
#[verifier::loop_isolation(false)]
fn scan_key(v: &Vec<char>, start: usize) -> (r: Result<(String, usize), ()>)
    requires
        start <= v@.len(),
    ensures
        r matches Ok(p) ==> start < p.1 <= v@.len() && scan_key_spec(v@.skip(start as int))
            == Some((p.0@, p.1 - start as int)),
        r is Err ==> scan_key_spec(v@.skip(start as int)) is None,
{
    let ghost w = v@.skip(start as int);
    let n = v.len();
    if start >= n {
        return Err(());
    }
    proof {
        assert(w[0] == v@[start as int]);
        assert(w.skip(1) =~= v@.skip(start + 1));
    }
    if v[start] == '"' {
        return match scan_string(v, start) {
            Ok(p) => Ok(p),
            Err(()) => Err(()),
        };
    }
    if !is_bare_key_char(v[start]) {
        return Err(());
    }
    let mut out: Vec<char> = Vec::new();
    out.push(v[start]);
    let mut i: usize = start + 1;
    proof {
        assert(w.drop_first() =~= v@.skip(start + 1));
        assert(bare_prefix_len(w) == 1 + bare_prefix_len(v@.skip(start + 1)));
        assert(out@ =~= v@.subrange(start as int, i as int));
    }
    while i < n && is_bare_key_char(v[i])
        invariant
            start < i <= n,
            n == v@.len(),
            out@ == v@.subrange(start as int, i as int),
            bare_prefix_len(w) == (i - start) + bare_prefix_len(v@.skip(i as int)),
        decreases n - i,
    {
        proof {
            assert(v@.skip(i as int)[0] == v@[i as int]);
            assert(v@.skip(i as int).drop_first() =~= v@.skip(i + 1));
            assert(bare_prefix_len(v@.skip(i as int)) == 1 + bare_prefix_len(v@.skip(i + 1)));
        }
        out.push(v[i]);
        proof {
            assert(out@ =~= v@.subrange(start as int, i + 1));
        }
        i += 1;
    }
    proof {
        if i < n {
            assert(v@.skip(i as int)[0] == v@[i as int]);
        }
        assert(bare_prefix_len(v@.skip(i as int)) == 0);
        assert(bare_prefix_len(w) == i - start);
        assert(out@ =~= w.take(bare_prefix_len(w)));
    }
    Ok((chars_to_string(&out), i))
}

/// Scan a value at the cursor: a string, boolean, string array or inline
/// table; returns the value and the index after it.
#[verifier::loop_isolation(false)]
fn scan_value(v: &Vec<char>, start: usize, depth: usize) -> (r: Result<(TomlVal, usize), ()>)
    requires
        start <= v@.len(),
    ensures
        r matches Ok(p) ==> start < p.1 <= v@.len(),
        start < v@.len() && v@[start as int] == '"' ==> match r {
            Ok(p) => p.0 matches TomlVal::VStr(x) && scan_content_spec(v@.skip(start + 1)) == Some(
                (x@, p.1 - start - 1 as int),
            ),
            Err(()) => scan_content_spec(v@.skip(start + 1)) is None,
        },
    decreases v@.len() - start, depth,
{
    let n = v.len();
    if start >= n {
        return Err(());
    }
    let c = v[start];
    if c == '"' {
        return match scan_string(v, start) {
            Ok((s, j)) => Ok((TomlVal::VStr(s), j)),
            Err(()) => Err(()),
        };
    }
    if c == '[' {
        return match scan_str_array(v, start) {
            Ok((items, j)) => Ok((TomlVal::VArr(items), j)),
            Err(()) => Err(()),
        };
    }
    if c == '{' {
        if depth == 0 {
            return Err(());
        }
        let mut pairs: Vec<(String, TomlVal)> = Vec::new();
        let mut i: usize = skip_ws(v, start + 1);
        let mut expect_pair = true;
        while i < n
            invariant
                start < i <= n,
                n == v@.len(),
                depth >= 1,
            decreases n - i,
        {
            if v[i] == '}' {
                return Ok((TomlVal::VTable(pairs), i + 1));
            }
            if !expect_pair {
                if v[i] == ',' {
                    i = skip_ws(v, i + 1);
                    expect_pair = true;
                    continue ;
                }
                return Err(());
            }
            let (key, after_key) = match scan_key(v, i) {
                Ok(p) => p,
                Err(()) => {
                    return Err(());
                },
            };
            let eq_at = skip_ws(v, after_key);
            if eq_at >= n || v[eq_at] != '=' {
                return Err(());
            }
            let val_at = skip_ws(v, eq_at + 1);
            let (val, after_val) = match scan_value(v, val_at, (depth - 1) as usize) {
                Ok(p) => p,
                Err(()) => {
                    return Err(());
                },
            };
            pairs.push((key, val));
            i = skip_ws(v, after_val);
            expect_pair = false;
        }
        return Err(());
    }
    // boolean: the only remaining value form the manifest uses
    if c == 't' {
        if n - start >= 4 && v[start + 1] == 'r' && v[start + 2] == 'u' && v[start + 3] == 'e' {
            return Ok((TomlVal::VBool(true), start + 4));
        }
        return Err(());
    }
    if c == 'f' {
        if n - start >= 5 && v[start + 1] == 'a' && v[start + 2] == 'l' && v[start + 3] == 's'
            && v[start + 4] == 'e' {
            return Ok((TomlVal::VBool(false), start + 5));
        }
        return Err(());
    }
    Err(())
}

/// Whether only whitespace or a comment remains at the cursor.
#[verifier::loop_isolation(false)]
fn rest_is_blank(v: &Vec<char>, start: usize) -> (r: bool)
    requires
        start <= v@.len(),
    ensures
        r == is_blank_line(v@.skip(start as int)),
{
    proof {
        lemma_first_non_ws_bounds(v@.skip(start as int));
    }
    let i = skip_ws(v, start);
    proof {
        if i < v@.len() {
            assert(v@.skip(start as int)[i - start] == v@[i as int]);
        }
    }
    i >= v.len() || v[i] == '#'
}

/// Which section the reader is inside.
enum Section {
    Root,
    SourceEntry,
    Packages,
    DevPackages,
    Requires,
    Scripts,
    Pipenv,
    Unknown,
}

/// The pending fields of a `[[source]]` section being read.
struct PendingSource {
    name: Option<String>,
    url: Option<String>,
    verify_ssl: bool,
}

/// Build a detailed package from inline-table pairs: known keys are
/// type-checked, unknown keys are ignored.
#[verifier::loop_isolation(false)]
fn detail_from_pairs(pairs: &Vec<(String, TomlVal)>) -> (r: Result<PipfilePackageDetail, ()>)
{
    let mut detail = PipfilePackageDetail::empty();
    let n = pairs.len();
    let mut i: usize = 0;
    while i < n
        invariant
            i <= n,
            n == pairs@.len(),
        decreases n - i,
    {
        let key = &pairs[i].0;
        let val = &pairs[i].1;
        if str_eq(key.as_str(), "version") {
            match val {
                TomlVal::VStr(x) => {
                    detail.version = Some(x.clone());
                },
                _ => {
                    return Err(());
                },
            }
        } else if str_eq(key.as_str(), "extras") {
            match val {
                TomlVal::VArr(items) => {
                    detail.extras = crate::lockfile::clone_string_vec(items);
                },
                _ => {
                    return Err(());
                },
            }
        } else if str_eq(key.as_str(), "markers") {
            match val {
                TomlVal::VStr(x) => {
                    detail.markers = Some(x.clone());
                },
                _ => {
                    return Err(());
                },
            }
        } else if str_eq(key.as_str(), "sys_platform") {
            match val {
                TomlVal::VStr(x) => {
                    detail.sys_platform = Some(x.clone());
                },
                _ => {
                    return Err(());
                },
            }
        } else if str_eq(key.as_str(), "git") {
            match val {
                TomlVal::VStr(x) => {
                    detail.git = Some(x.clone());
                },
                _ => {
                    return Err(());
                },
            }
        } else if str_eq(key.as_str(), "ref") {
            match val {
                TomlVal::VStr(x) => {
                    detail.git_ref = Some(x.clone());
                },
                _ => {
                    return Err(());
                },
            }
        } else if str_eq(key.as_str(), "path") {
            match val {
                TomlVal::VStr(x) => {
                    detail.path = Some(x.clone());
                },
                _ => {
                    return Err(());
                },
            }
        } else if str_eq(key.as_str(), "editable") {
            match val {
                TomlVal::VBool(b) => {
                    detail.editable = *b;
                },
                _ => {
                    return Err(());
                },
            }
        } else if str_eq(key.as_str(), "index") {
            match val {
                TomlVal::VStr(x) => {
                    detail.index = Some(x.clone());
                },
                _ => {
                    return Err(());
                },
            }
        }
        i += 1;
    }
    Ok(detail)
}

/// Close a pending source section, requiring its name and URL.
fn finalize_source(pending: Option<PendingSource>, sources: &mut Vec<PipfileSource>) -> (r: Result<
    (),
    (),
>)
    ensures
        pending is None ==> (r is Ok && final(sources)@ == old(sources)@),
{
    match pending {
        None => Ok(()),
        Some(p) => {
            match (p.name, p.url) {
                (Some(name), Some(url)) => {
                    sources.push(PipfileSource { name, url, verify_ssl: p.verify_ssl });
                    Ok(())
                },
                _ => Err(()),
            }
        },
    }
}

/// Parse a manifest from its on-disk text.
///
/// Unknown or absent sections default to empty collections; `verify_ssl`
/// defaults to true when omitted; a plain-string package entry is tried
/// first and the structured table second. Malformed syntax or
/// schema-incompatible values yield a [`ParseError`] and no partial model.
/// The package, dev-package and script maps of the result are sorted by
/// key, so a parsed manifest is always well-formed.
#[verifier::loop_isolation(false)]
pub fn parse(text: &str) -> (r: Result<Pipfile, ParseError>)
    ensures
        r matches Ok(pf) ==> pipfile_wf(&pf),
        all_blank(lines_spec(text@)) ==> (r matches Ok(pf) && pf.source@.len() == 0
            && pf.packages@.len() == 0 && pf.dev_packages@.len() == 0 && pf.scripts@.len() == 0
            && pf.requires is None && pf.pipenv is None),
{
    let chars = str_to_chars(text);
    // split into lines
    let mut lines: Vec<Vec<char>> = Vec::new();
    let mut cur: Vec<char> = Vec::new();
    let cn = chars.len();
    let mut ci: usize = 0;
    proof {
        assert(cur@ + text@.skip(0) =~= text@);
        assert(crate::writer::views_of(lines@) + lines_spec(cur@ + text@.skip(0)) =~= lines_spec(
            text@,
        ));
    }
    while ci < cn
        invariant
            ci <= cn,
            cn == chars@.len(),
            chars@ == text@,
            forall|j: int| 0 <= j < cur@.len() ==> (#[trigger] cur@[j]) != '\n',
            crate::writer::views_of(lines@) + lines_spec(cur@ + text@.skip(ci as int))
                == lines_spec(text@),
        decreases cn - ci,
    {
        let ghost prev_cur = cur@;
        let ghost prev_lines = lines@;
        let c = chars[ci];
        proof {
            assert(text@.skip(ci as int)[0] == text@[ci as int]);
            assert(text@.skip(ci as int).drop_first() =~= text@.skip(ci + 1));
        }
        if c == '\n' {
            lines.push(cur);
            cur = Vec::new();
            proof {
                let a = prev_cur;
                let b = text@.skip(ci as int);
                lemma_first_nl_concat(a, b);
                assert((a + b).take(a.len() as int) =~= a);
                assert((a + b).skip(a.len() as int + 1) =~= text@.skip(ci + 1));
                assert(lines_spec(a + b) == seq![a] + lines_spec(text@.skip(ci + 1)));
                assert(crate::writer::views_of(lines@) =~= crate::writer::views_of(prev_lines)
                    + seq![a]);
                assert(cur@ + text@.skip(ci + 1) =~= text@.skip(ci + 1));
                assert(crate::writer::views_of(lines@) + lines_spec(cur@ + text@.skip(ci + 1)) =~=
                    lines_spec(text@));
            }
        } else {
            cur.push(c);
            proof {
                assert(prev_cur + text@.skip(ci as int) =~= cur@ + text@.skip(ci + 1));
            }
        }
        ci += 1;
    }
    proof {
        assert(text@.skip(cn as int).len() == 0);
        assert(cur@ + text@.skip(cn as int) =~= cur@);
        lemma_first_nl_none(cur@);
        assert(lines_spec(cur@) == seq![cur@]);
    }
    let ghost lines_before_last = lines@;
    lines.push(cur);
    proof {
        assert(crate::writer::views_of(lines@) =~= crate::writer::views_of(lines_before_last)
            + seq![lines@[lines@.len() - 1]@]);
        assert(crate::writer::views_of(lines@) =~= lines_spec(text@));
    }

    let mut section = Section::Root;
    let mut sources: Vec<PipfileSource> = Vec::new();
    let mut pending: Option<PendingSource> = None;
    let mut packages: Vec<(String, PipfilePackage)> = Vec::new();
    let mut dev_packages: Vec<(String, PipfilePackage)> = Vec::new();
    let mut scripts: Vec<(String, String)> = Vec::new();
    let mut python_version: Option<String> = None;
    let mut python_full_version: Option<String> = None;
    let mut allow_prereleases = false;
    let mut packages_seen = false;
    let mut dev_packages_seen = false;
    let mut requires_seen = false;
    let mut scripts_seen = false;
    let mut pipenv_seen = false;

    let ln = lines.len();
    let mut li: usize = 0;
    while li < ln
        invariant
            li <= ln,
            ln == lines@.len(),
            map_wf(packages@),
            map_wf(dev_packages@),
            map_wf(scripts@),
            crate::writer::views_of(lines@) == lines_spec(text@),
            all_blank(lines_spec(text@)) ==> (sources@.len() == 0 && packages@.len() == 0
                && dev_packages@.len() == 0 && scripts@.len() == 0 && pending is None
                && !requires_seen && !pipenv_seen),
        decreases ln - li,
    {
        let lineno = li + 1;
        let line = &lines[li];
        proof {
            if all_blank(lines_spec(text@)) {
                assert(lines_spec(text@)[li as int] == line@);
                assert(is_blank_line(line@));
            }
            lemma_first_non_ws_bounds(line@);
            assert(line@.skip(0) =~= line@);
        }
        let start = skip_ws(line, 0);
        if start >= line.len() || line[start] == '#' {
            li += 1;
            continue ;
        }
        proof {
            // past the blank check, the line holds content
            assert(!is_blank_line(line@));
        }
        if line[start] == '[' {
            // section header
            let double = start + 1 < line.len() && line[start + 1] == '[';
            let name_at = if double {
                start + 2
            } else {
                start + 1
            };
            let (name, after_name) = match scan_key(line, name_at) {
                Ok(p) => p,
                Err(()) => {
                    return Err(ParseError { line: lineno, kind: ParseErrorKind::BadLine });
                },
            };
            let mut close_at = after_name;
            if close_at >= line.len() || line[close_at] != ']' {
                return Err(ParseError { line: lineno, kind: ParseErrorKind::BadLine });
            }
            close_at += 1;
            if double {
                if close_at >= line.len() || line[close_at] != ']' {
                    return Err(ParseError { line: lineno, kind: ParseErrorKind::BadLine });
                }
                close_at += 1;
            }
            if !rest_is_blank(line, close_at) {
                return Err(ParseError { line: lineno, kind: ParseErrorKind::BadLine });
            }
            // a new section closes a pending source
            let closed = finalize_source(pending, &mut sources);
            pending = None;
            if let Err(()) = closed {
                return Err(ParseError { line: lineno, kind: ParseErrorKind::MissingField });
            }
            if double {
                if str_eq(name.as_str(), "source") {
                    pending = Some(PendingSource { name: None, url: None, verify_ssl: true });
                    section = Section::SourceEntry;
                } else {
                    section = Section::Unknown;
                }
            } else {
                if str_eq(name.as_str(), "packages") {
                    if packages_seen {
                        return Err(
                            ParseError { line: lineno, kind: ParseErrorKind::DuplicateSection },
                        );
                    }
                    packages_seen = true;
                    section = Section::Packages;
                } else if str_eq(name.as_str(), "dev-packages") {
                    if dev_packages_seen {
                        return Err(
                            ParseError { line: lineno, kind: ParseErrorKind::DuplicateSection },
                        );
                    }
                    dev_packages_seen = true;
                    section = Section::DevPackages;
                } else if str_eq(name.as_str(), "requires") {
                    if requires_seen {
                        return Err(
                            ParseError { line: lineno, kind: ParseErrorKind::DuplicateSection },
                        );
                    }
                    requires_seen = true;
                    section = Section::Requires;
                } else if str_eq(name.as_str(), "scripts") {
                    if scripts_seen {
                        return Err(
                            ParseError { line: lineno, kind: ParseErrorKind::DuplicateSection },
                        );
                    }
                    scripts_seen = true;
                    section = Section::Scripts;
                } else if str_eq(name.as_str(), "pipenv") {
                    if pipenv_seen {
                        return Err(
                            ParseError { line: lineno, kind: ParseErrorKind::DuplicateSection },
                        );
                    }
                    pipenv_seen = true;
                    section = Section::Pipenv;
                } else {
                    section = Section::Unknown;
                }
            }
            li += 1;
            continue ;
        }
        // key-value line
        let (key, after_key) = match scan_key(line, start) {
            Ok(p) => p,
            Err(()) => {
                return Err(ParseError { line: lineno, kind: ParseErrorKind::BadLine });
            },
        };
        let eq_at = skip_ws(line, after_key);
        if eq_at >= line.len() || line[eq_at] != '=' {
            return Err(ParseError { line: lineno, kind: ParseErrorKind::BadLine });
        }
        let val_at = skip_ws(line, eq_at + 1);
        let (val, after_val) = match scan_value(line, val_at, 2) {
            Ok(p) => p,
            Err(()) => {
                return Err(ParseError { line: lineno, kind: ParseErrorKind::BadValue });
            },
        };
        if !rest_is_blank(line, after_val) {
            return Err(ParseError { line: lineno, kind: ParseErrorKind::BadLine });
        }
        match section {
            Section::Root => {
                // a root-level key the schema does not know: ignored
            },
            Section::Unknown => {
                // inside an unknown section: ignored
            },
            Section::SourceEntry => {
                if let Some(p) = &mut pending {
                    if str_eq(key.as_str(), "name") {
                        if p.name.is_some() {
                            return Err(
                                ParseError { line: lineno, kind: ParseErrorKind::DuplicateKey },
                            );
                        }
                        match val {
                            TomlVal::VStr(x) => {
                                p.name = Some(x);
                            },
                            _ => {
                                return Err(
                                    ParseError { line: lineno, kind: ParseErrorKind::WrongType },
                                );
                            },
                        }
                    } else if str_eq(key.as_str(), "url") {
                        if p.url.is_some() {
                            return Err(
                                ParseError { line: lineno, kind: ParseErrorKind::DuplicateKey },
                            );
                        }
                        match val {
                            TomlVal::VStr(x) => {
                                p.url = Some(x);
                            },
                            _ => {
                                return Err(
                                    ParseError { line: lineno, kind: ParseErrorKind::WrongType },
                                );
                            },
                        }
                    } else if str_eq(key.as_str(), "verify_ssl") {
                        match val {
                            TomlVal::VBool(b) => {
                                p.verify_ssl = b;
                            },
                            _ => {
                                return Err(
                                    ParseError { line: lineno, kind: ParseErrorKind::WrongType },
                                );
                            },
                        }
                    }
                }
            },
            Section::Packages => {
                if map_contains(&packages, key.as_str()) {
                    return Err(ParseError { line: lineno, kind: ParseErrorKind::DuplicateKey });
                }
                let pkg = match val {
                    TomlVal::VStr(x) => PipfilePackage::Simple(x),
                    TomlVal::VTable(pairs) => {
                        match detail_from_pairs(&pairs) {
                            Ok(d) => PipfilePackage::Detailed(d),
                            Err(()) => {
                                return Err(
                                    ParseError { line: lineno, kind: ParseErrorKind::WrongType },
                                );
                            },
                        }
                    },
                    _ => {
                        return Err(ParseError { line: lineno, kind: ParseErrorKind::WrongType });
                    },
                };
                proof {
                    lemma_insert_wf(packages@, key, pkg);
                }
                packages = map_insert(packages, key, pkg);
            },
            Section::DevPackages => {
                if map_contains(&dev_packages, key.as_str()) {
                    return Err(ParseError { line: lineno, kind: ParseErrorKind::DuplicateKey });
                }
                let pkg = match val {
                    TomlVal::VStr(x) => PipfilePackage::Simple(x),
                    TomlVal::VTable(pairs) => {
                        match detail_from_pairs(&pairs) {
                            Ok(d) => PipfilePackage::Detailed(d),
                            Err(()) => {
                                return Err(
                                    ParseError { line: lineno, kind: ParseErrorKind::WrongType },
                                );
                            },
                        }
                    },
                    _ => {
                        return Err(ParseError { line: lineno, kind: ParseErrorKind::WrongType });
                    },
                };
                proof {
                    lemma_insert_wf(dev_packages@, key, pkg);
                }
                dev_packages = map_insert(dev_packages, key, pkg);
            },
            Section::Requires => {
                if str_eq(key.as_str(), "python_version") {
                    if python_version.is_some() {
                        return Err(ParseError { line: lineno, kind: ParseErrorKind::DuplicateKey });
                    }
                    match val {
                        TomlVal::VStr(x) => {
                            python_version = Some(x);
                        },
                        _ => {
                            return Err(ParseError { line: lineno, kind: ParseErrorKind::WrongType });
                        },
                    }
                } else if str_eq(key.as_str(), "python_full_version") {
                    if python_full_version.is_some() {
                        return Err(ParseError { line: lineno, kind: ParseErrorKind::DuplicateKey });
                    }
                    match val {
                        TomlVal::VStr(x) => {
                            python_full_version = Some(x);
                        },
                        _ => {
                            return Err(ParseError { line: lineno, kind: ParseErrorKind::WrongType });
                        },
                    }
                }
            },
            Section::Scripts => {
                if map_contains(&scripts, key.as_str()) {
                    return Err(ParseError { line: lineno, kind: ParseErrorKind::DuplicateKey });
                }
                let command = match val {
                    TomlVal::VStr(x) => x,
                    _ => {
                        return Err(ParseError { line: lineno, kind: ParseErrorKind::WrongType });
                    },
                };
                proof {
                    lemma_insert_wf(scripts@, key, command);
                }
                scripts = map_insert(scripts, key, command);
            },
            Section::Pipenv => {
                if str_eq(key.as_str(), "allow_prereleases") {
                    match val {
                        TomlVal::VBool(b) => {
                            allow_prereleases = b;
                        },
                        _ => {
                            return Err(ParseError { line: lineno, kind: ParseErrorKind::WrongType });
                        },
                    }
                }
            },
        }
        li += 1;
    }
    // the end of the text closes a pending source
    if let Err(()) = finalize_source(pending, &mut sources) {
        return Err(ParseError { line: ln, kind: ParseErrorKind::MissingField });
    }
    let reqs = if requires_seen {
        Some(PipfileRequires { python_version, python_full_version })
    } else {
        None
    };
    let settings = if pipenv_seen {
        Some(PipfileSettings { allow_prereleases })
    } else {
        None
    };
    Ok(
        Pipfile {
            source: sources,
            packages,
            dev_packages,
            requires: reqs,
            scripts,
            pipenv: settings,
        },
    )
}

} // verus!
