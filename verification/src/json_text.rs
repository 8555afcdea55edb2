//! JSON string literals, written the way serde_json writes a `str`: in
//! double quotes, with `"` and `\` escaped, the control characters
//! `\b \t \n \f \r` in short form, the other characters below U+0020 as
//! `\u00XX` with lowercase hex digits, and everything else as it is.

use vstd::prelude::*;
use crate::text::{chars_of, push_char};

verus! {

broadcast use crate::text::group_concat;

/// Lowercase hex digit of `n` (below 16).
pub open spec fn hex_digit(n: u32) -> char {
    if n < 10 {
        (48 + n) as char
    } else {
        (87 + n) as char
    }
}

/// How one character is written inside a JSON string.
pub open spec fn json_escape_char(c: char) -> Seq<char> {
    if c == '"' {
        seq!['\\', '"']
    } else if c == '\\' {
        seq!['\\', '\\']
    } else if c == '\u{8}' {
        seq!['\\', 'b']
    } else if c == '\t' {
        seq!['\\', 't']
    } else if c == '\n' {
        seq!['\\', 'n']
    } else if c == '\u{c}' {
        seq!['\\', 'f']
    } else if c == '\r' {
        seq!['\\', 'r']
    } else if (c as u32) < 0x20 {
        seq!['\\', 'u', '0', '0', hex_digit((c as u32) / 16), hex_digit((c as u32) % 16)]
    } else {
        seq![c]
    }
}

/// The escaped characters of `s`, in order.
pub open spec fn json_escaped(s: Seq<char>) -> Seq<char>
    decreases s.len(),
{
    if s.len() == 0 {
        Seq::<char>::empty()
    } else {
        json_escaped(s.drop_last()) + json_escape_char(s.last())
    }
}

/// The JSON string literal of `s`.
pub open spec fn json_quoted(s: Seq<char>) -> Seq<char> {
    seq!['"'] + json_escaped(s) + seq!['"']
}

fn hex_digit_exec(n: u32) -> (c: char)
    requires
        n < 16,
    ensures
        c == hex_digit(n),
{
    if n < 10 {
        let b: u8 = 48 + n as u8;
        proof {
            assert(b as u32 == 48 + n);
        }
        b as char
    } else {
        let b: u8 = 87 + n as u8;
        proof {
            assert(b as u32 == 87 + n);
        }
        b as char
    }
}

fn push_escaped(out: &mut String, c: char)
    ensures
        final(out)@ == old(out)@ + json_escape_char(c),
{
    let ghost start = out@;
    if c == '"' {
        push_char(out, '\\');
        push_char(out, '"');
    } else if c == '\\' {
        push_char(out, '\\');
        push_char(out, '\\');
    } else if c == '\u{8}' {
        push_char(out, '\\');
        push_char(out, 'b');
    } else if c == '\t' {
        push_char(out, '\\');
        push_char(out, 't');
    } else if c == '\n' {
        push_char(out, '\\');
        push_char(out, 'n');
    } else if c == '\u{c}' {
        push_char(out, '\\');
        push_char(out, 'f');
    } else if c == '\r' {
        push_char(out, '\\');
        push_char(out, 'r');
    } else if (c as u32) < 0x20 {
        let v = c as u32;
        push_char(out, '\\');
        push_char(out, 'u');
        push_char(out, '0');
        push_char(out, '0');
        push_char(out, hex_digit_exec(v / 16));
        push_char(out, hex_digit_exec(v % 16));
    } else {
        push_char(out, c);
    }
    assert(out@ =~= start + json_escape_char(c));
}

/// `text` as a JSON string literal, as serde_json writes it.
pub fn json_string_literal(text: &str) -> (r: String)
    ensures
        r@ == json_quoted(text@),
{
    let cs = chars_of(text);
    let mut out = String::new();
    push_char(&mut out, '"');
    let mut i: usize = 0;
    while i < cs.len()
        invariant
            0 <= i <= cs.len(),
            cs@ == text@,
            out@ == seq!['"'] + json_escaped(text@.take(i as int)),
        decreases cs.len() - i,
    {
        proof {
            let t = text@.take(i + 1);
            assert(t.drop_last() =~= text@.take(i as int));
            assert(t.last() == cs@[i as int]);
        }
        push_escaped(&mut out, cs[i]);
        i = i + 1;
    }
    assert(text@.take(i as int) =~= text@);
    push_char(&mut out, '"');
    out
}

} // verus!
