//! JSON text emission: escaping, quoting, hex digests, and line joining.
//!
//! Both the canonical compact document that feeds the content hash and the
//! pretty lock artifact are assembled from these pieces, so their exact
//! text is pinned by the spec functions here.

use vstd::prelude::*;
use crate::text::push_chars;

verus! {

/// One hex digit, lowercase.
pub open spec fn hex_digit(n: u8) -> char {
    if n < 10 {
        (48 + n) as char
    } else {
        (87 + n) as char
    }
}

/// Two hex digits of one byte.
pub open spec fn hex_byte(b: u8) -> Seq<char> {
    seq![hex_digit(b / 16), hex_digit(b % 16)]
}

/// The lowercase hex text of a byte string.
pub open spec fn hex_seq(bytes: Seq<u8>) -> Seq<char>
    decreases bytes.len(),
{
    if bytes.len() == 0 {
        Seq::empty()
    } else {
        hex_byte(bytes[0]) + hex_seq(bytes.drop_first())
    }
}

/// Hex text is twice as long as its bytes.
pub proof fn lemma_hex_seq_len(bytes: Seq<u8>)
    ensures
        hex_seq(bytes).len() == 2 * bytes.len(),
    decreases bytes.len(),
{
    if bytes.len() > 0 {
        lemma_hex_seq_len(bytes.drop_first());
    }
}

/// Append the lowercase hex text of a byte string.
#[verifier::loop_isolation(false)]
pub fn push_hex(out: &mut Vec<char>, bytes: &Vec<u8>)
    ensures
        final(out)@ == old(out)@ + hex_seq(bytes@),
{
    let n = bytes.len();
    let mut i: usize = 0;
    proof {
        assert(bytes@.skip(0) =~= bytes@);
        assert(out@ + hex_seq(bytes@.skip(0)) =~= old(out)@ + hex_seq(bytes@));
    }
    while i < n
        invariant
            i <= n,
            n == bytes@.len(),
            out@ + hex_seq(bytes@.skip(i as int)) == old(out)@ + hex_seq(bytes@),
        decreases n - i,
    {
        proof {
            assert(bytes@.skip(i as int)[0] == bytes@[i as int]);
            assert(bytes@.skip(i as int).drop_first() =~= bytes@.skip(i + 1));
        }
        let b = bytes[i];
        let hi = b / 16;
        let lo = b % 16;
        if hi < 10 {
            out.push((48 + hi) as char);
        } else {
            out.push((87 + hi) as char);
        }
        if lo < 10 {
            out.push((48 + lo) as char);
        } else {
            out.push((87 + lo) as char);
        }
        proof {
            assert(out@ + hex_seq(bytes@.skip(i + 1)) =~= old(out)@ + hex_seq(bytes@));
        }
        i += 1;
    }
    proof {
        assert(hex_seq(bytes@.skip(n as int)).len() == 0);
        assert(out@ =~= old(out)@ + hex_seq(bytes@));
    }
}

/// One escaped character of a JSON string: quote, backslash and the named
/// control characters get short escapes, other control characters get a
/// `\u00..` escape, everything else passes through.
pub open spec fn json_esc_char(c: char) -> Seq<char> {
    if c == '"' {
        seq!['\\', '"']
    } else if c == '\\' {
        seq!['\\', '\\']
    } else if c == '\u{8}' {
        seq!['\\', 'b']
    } else if c == '\u{c}' {
        seq!['\\', 'f']
    } else if c == '\n' {
        seq!['\\', 'n']
    } else if c == '\r' {
        seq!['\\', 'r']
    } else if c == '\t' {
        seq!['\\', 't']
    } else if (c as int) < 32 {
        seq!['\\', 'u', '0', '0', hex_digit((c as u8) / 16), hex_digit((c as u8) % 16)]
    } else {
        seq![c]
    }
}

/// A string escaped for a JSON string literal.
pub open spec fn json_esc(s: Seq<char>) -> Seq<char>
    decreases s.len(),
{
    if s.len() == 0 {
        Seq::empty()
    } else {
        json_esc_char(s[0]) + json_esc(s.drop_first())
    }
}

/// A JSON string literal: the escaped text in double quotes.
pub open spec fn json_str(s: Seq<char>) -> Seq<char> {
    "\""@ + json_esc(s) + "\""@
}

/// Append the escaped form of one character.
pub fn push_json_esc_char(out: &mut Vec<char>, c: char)
    ensures final(out)@ == old(out)@ + json_esc_char(c),
{
    if c == '"' {
        out.push('\\');
        out.push('"');
        proof { assert(out@ =~= old(out)@ + json_esc_char(c)); }
    } else if c == '\\' {
        out.push('\\');
        out.push('\\');
        proof { assert(out@ =~= old(out)@ + json_esc_char(c)); }
    } else if c == '\u{8}' {
        out.push('\\');
        out.push('b');
        proof { assert(out@ =~= old(out)@ + json_esc_char(c)); }
    } else if c == '\u{c}' {
        out.push('\\');
        out.push('f');
        proof { assert(out@ =~= old(out)@ + json_esc_char(c)); }
    } else if c == '\n' {
        out.push('\\');
        out.push('n');
        proof { assert(out@ =~= old(out)@ + json_esc_char(c)); }
    } else if c == '\r' {
        out.push('\\');
        out.push('r');
        proof { assert(out@ =~= old(out)@ + json_esc_char(c)); }
    } else if c == '\t' {
        out.push('\\');
        out.push('t');
        proof { assert(out@ =~= old(out)@ + json_esc_char(c)); }
    } else if (c as u32) < 32 {
        let b = c as u8;
        proof { assert(b as int == c as int); }
        out.push('\\');
        out.push('u');
        out.push('0');
        out.push('0');
        let hi = b / 16;
        let lo = b % 16;
        proof { assert(hex_digit(b / 16) == hex_digit(hi)); }
        if hi < 10 {
            out.push((48 + hi) as char);
        } else {
            out.push((87 + hi) as char);
        }
        if lo < 10 {
            out.push((48 + lo) as char);
        } else {
            out.push((87 + lo) as char);
        }
        proof { assert(out@ =~= old(out)@ + json_esc_char(c)); }
    } else {
        out.push(c);
        proof { assert(out@ =~= old(out)@ + json_esc_char(c)); }
    }
}

/// Append the escaped form of a string.
#[verifier::loop_isolation(false)]
pub fn push_json_escaped(out: &mut Vec<char>, s: &str)
    ensures
        final(out)@ == old(out)@ + json_esc(s@),
{
    let chars = crate::text::str_to_chars(s);
    let n = chars.len();
    let mut i: usize = 0;
    proof {
        assert(s@.skip(0) =~= s@);
        assert(out@ + json_esc(s@.skip(0)) =~= old(out)@ + json_esc(s@));
    }
    while i < n
        invariant
            i <= n,
            n == s@.len(),
            chars@ == s@,
            out@ + json_esc(s@.skip(i as int)) == old(out)@ + json_esc(s@),
        decreases n - i,
    {
        proof {
            assert(s@.skip(i as int)[0] == s@[i as int]);
            assert(s@.skip(i as int).drop_first() =~= s@.skip(i + 1));
        }
        push_json_esc_char(out, chars[i]);
        proof {
            assert(out@ + json_esc(s@.skip(i + 1)) =~= old(out)@ + json_esc(s@));
        }
        i += 1;
    }
    proof {
        assert(json_esc(s@.skip(n as int)).len() == 0);
        assert(out@ =~= old(out)@ + json_esc(s@));
    }
}

/// Append a JSON string literal.
pub fn push_json_str(out: &mut Vec<char>, s: &str)
    ensures
        final(out)@ == old(out)@ + json_str(s@),
{
    push_chars(out, "\"");
    push_json_escaped(out, s);
    push_chars(out, "\"");
    proof {
        assert(out@ =~= old(out)@ + json_str(s@));
    }
}

/// A JSON string literal, or `null` when the value is absent.
pub open spec fn json_opt_str(o: Option<String>) -> Seq<char> {
    match o {
        Some(s) => json_str(s@),
        None => "null"@,
    }
}

/// Append a JSON string literal or `null`.
pub fn push_json_opt_str(out: &mut Vec<char>, o: &Option<String>)
    ensures
        final(out)@ == old(out)@ + json_opt_str(*o),
{
    match o {
        Some(s) => {
            push_json_str(out, s.as_str());
        },
        None => {
            push_chars(out, "null");
        },
    }
}

/// Items joined with `",\n"`, as consecutive lines of a pretty document.
pub open spec fn join_lines(items: Seq<Seq<char>>) -> Seq<char>
    decreases items.len(),
{
    if items.len() == 0 {
        Seq::empty()
    } else if items.len() == 1 {
        items[0]
    } else {
        items[0] + ",\n"@ + join_lines(items.drop_first())
    }
}

/// What remains of a joined list once a prefix is written.
pub open spec fn join_lines_tail(items: Seq<Seq<char>>) -> Seq<char> {
    if items.len() == 0 {
        Seq::empty()
    } else {
        ",\n"@ + join_lines(items)
    }
}

/// A joined nonempty list starts with its first item.
pub proof fn lemma_join_lines_head(items: Seq<Seq<char>>)
    requires
        items.len() >= 1,
    ensures
        join_lines(items) =~= items[0] + join_lines_tail(items.drop_first()),
{
    if items.len() == 1 {
        assert(items.drop_first().len() == 0);
        assert(items[0] + Seq::<char>::empty() =~= items[0]);
    }
}

/// Append character buffers joined with `",\n"`.
#[verifier::loop_isolation(false)]
pub fn push_joined_lines(out: &mut Vec<char>, items: &Vec<Vec<char>>)
    ensures
        final(out)@ == old(out)@ + join_lines(crate::writer::views_of(items@)),
{
    let ghost vs = crate::writer::views_of(items@);
    let n = items.len();
    if n == 0 {
        proof {
            assert(out@ =~= old(out)@ + join_lines(vs));
        }
        return ;
    }
    crate::writer::push_copy(out, &items[0]);
    proof {
        assert(vs[0] == items@[0]@);
        lemma_join_lines_head(vs);
        assert(vs.drop_first() =~= vs.skip(1));
        assert(out@ + join_lines_tail(vs.skip(1)) =~= old(out)@ + join_lines(vs));
    }
    let mut i: usize = 1;
    while i < n
        invariant
            1 <= i <= n,
            n == items@.len(),
            n == vs.len(),
            vs == crate::writer::views_of(items@),
            out@ + join_lines_tail(vs.skip(i as int)) == old(out)@ + join_lines(vs),
        decreases n - i,
    {
        push_chars(out, ",\n");
        crate::writer::push_copy(out, &items[i]);
        proof {
            let rest = vs.skip(i as int);
            assert(rest[0] == items@[i as int]@);
            assert(rest.drop_first() =~= vs.skip(i + 1));
            if rest.len() > 1 {
                assert(join_lines(rest) == rest[0] + ",\n"@ + join_lines(rest.drop_first()));
            }
            assert(out@ + join_lines_tail(vs.skip(i + 1)) =~= old(out)@ + join_lines(vs));
        }
        i += 1;
    }
    proof {
        assert(vs.skip(n as int).len() == 0);
        assert(out@ =~= old(out)@ + join_lines(vs));
    }
}

} // verus!
