//! The notification text and its JSON webhook body.
//!
//! A notification is one HTTP POST whose body is the JSON object
//! `{"text": "WARNING: <filesystem>: used <percent>"}`. The body is framed
//! here character by character, with JSON string escaping, so that the
//! delivering side only has to send the bytes.

use vstd::prelude::*;
use vstd::string::StringExecFns;
use crate::text::push_char;

verus! {

/// The human-readable warning text for one over-threshold filesystem.
pub open spec fn warning_message(filesystem: Seq<char>, used_percent: Seq<char>) -> Seq<char> {
    "WARNING: "@ + filesystem + ": used "@ + used_percent
}

/// The lower-case hexadecimal digit of `n`.
pub open spec fn hex_digit_char(n: int) -> char {
    if n == 0 {
        '0'
    } else if n == 1 {
        '1'
    } else if n == 2 {
        '2'
    } else if n == 3 {
        '3'
    } else if n == 4 {
        '4'
    } else if n == 5 {
        '5'
    } else if n == 6 {
        '6'
    } else if n == 7 {
        '7'
    } else if n == 8 {
        '8'
    } else if n == 9 {
        '9'
    } else if n == 10 {
        'a'
    } else if n == 11 {
        'b'
    } else if n == 12 {
        'c'
    } else if n == 13 {
        'd'
    } else if n == 14 {
        'e'
    } else {
        'f'
    }
}

/// How one character stands inside a JSON string literal: quotation mark,
/// reverse solidus and control characters are escaped, every other character
/// stands as itself.
pub open spec fn json_escape_char(c: char) -> Seq<char> {
    if c == '"' {
        seq!['\\', '"']
    } else if c == '\\' {
        seq!['\\', '\\']
    } else if c == '\n' {
        seq!['\\', 'n']
    } else if c == '\r' {
        seq!['\\', 'r']
    } else if c == '\t' {
        seq!['\\', 't']
    } else if (c as u32) < 32 {
        seq![
            '\\',
            'u',
            '0',
            '0',
            hex_digit_char((c as u32) as int / 16),
            hex_digit_char((c as u32) as int % 16),
        ]
    } else {
        seq![c]
    }
}

/// `s` escaped for use inside a JSON string literal.
pub open spec fn json_escaped(s: Seq<char>) -> Seq<char>
    decreases s.len(),
{
    if s.len() == 0 {
        Seq::empty()
    } else {
        json_escape_char(s[0]) + json_escaped(s.drop_first())
    }
}

/// The full JSON body of the webhook notification for one filesystem.
pub open spec fn webhook_body_view(filesystem: Seq<char>, used_percent: Seq<char>) -> Seq<char> {
    "{\"text\":\""@ + json_escaped(warning_message(filesystem, used_percent)) + "\"}"@
}

/// The lower-case hexadecimal digit of `n`.
pub fn hex_digit(n: u32) -> (c: char)
    requires
        n < 16,
    ensures
        c == hex_digit_char(n as int),
{
    match n {
        0 => '0',
        1 => '1',
        2 => '2',
        3 => '3',
        4 => '4',
        5 => '5',
        6 => '6',
        7 => '7',
        8 => '8',
        9 => '9',
        10 => 'a',
        11 => 'b',
        12 => 'c',
        13 => 'd',
        14 => 'e',
        _ => 'f',
    }
}

fn escape_char_into(out: &mut String, c: char)
    ensures
        final(out)@ == old(out)@ + json_escape_char(c),
{
    let ghost pre = old(out)@;
    if c == '"' {
        push_char(out, '\\');
        push_char(out, '"');
        assert(pre.push('\\').push('"') =~= pre + json_escape_char(c));
    } else if c == '\\' {
        push_char(out, '\\');
        push_char(out, '\\');
        assert(pre.push('\\').push('\\') =~= pre + json_escape_char(c));
    } else if c == '\n' {
        push_char(out, '\\');
        push_char(out, 'n');
        assert(pre.push('\\').push('n') =~= pre + json_escape_char(c));
    } else if c == '\r' {
        push_char(out, '\\');
        push_char(out, 'r');
        assert(pre.push('\\').push('r') =~= pre + json_escape_char(c));
    } else if c == '\t' {
        push_char(out, '\\');
        push_char(out, 't');
        assert(pre.push('\\').push('t') =~= pre + json_escape_char(c));
    } else {
        let u: u32 = c as u32;
        if u < 32 {
            push_char(out, '\\');
            push_char(out, 'u');
            push_char(out, '0');
            push_char(out, '0');
            push_char(out, hex_digit(u / 16));
            push_char(out, hex_digit(u % 16));
            assert(pre.push('\\').push('u').push('0').push('0').push(
                hex_digit_char(u as int / 16),
            ).push(hex_digit_char(u as int % 16)) =~= pre + json_escape_char(c));
        } else {
            push_char(out, c);
            assert(pre.push(c) =~= pre + json_escape_char(c));
        }
    }
}

/// `s` escaped for use inside a JSON string literal.
pub fn json_escaped_string(s: &str) -> (r: String)
    ensures
        r@ == json_escaped(s@),
{
    let len: usize = s.unicode_len();
    let mut out = String::new();
    let mut i: usize = 0;
    assert(s@.skip(0) =~= s@);
    assert(out@ + json_escaped(s@) =~= json_escaped(s@));
    while i < len
        invariant
            len == s@.len(),
            i <= len,
            out@ + json_escaped(s@.skip(i as int)) == json_escaped(s@),
        decreases len - i,
    {
        let ghost pre = out@;
        assert(s@.skip(i as int)[0] == s@[i as int]);
        assert(s@.skip(i as int).drop_first() =~= s@.skip(i + 1));
        let c = s.get_char(i);
        escape_char_into(&mut out, c);
        proof {
            let esc = json_escape_char(c);
            let rest = json_escaped(s@.skip(i + 1));
            assert(json_escaped(s@.skip(i as int)) == esc + rest);
            assert((pre + esc) + rest =~= pre + (esc + rest));
        }
        i += 1;
    }
    assert(s@.skip(len as int) =~= Seq::<char>::empty());
    assert(out@ + Seq::<char>::empty() =~= out@);
    out
}

/// The warning text for one over-threshold filesystem, e.g.
/// "WARNING: /dev/sda1: used 85%".
pub fn warning_message_string(filesystem: &str, used_percent: &str) -> (r: String)
    ensures
        r@ == warning_message(filesystem@, used_percent@),
{
    String::from_str("WARNING: ").concat(filesystem).concat(": used ").concat(used_percent)
}

/// The JSON body of the webhook notification for one filesystem.
pub fn webhook_body(filesystem: &str, used_percent: &str) -> (r: String)
    ensures
        r@ == webhook_body_view(filesystem@, used_percent@),
{
    let msg = warning_message_string(filesystem, used_percent);
    let esc = json_escaped_string(msg.as_str());
    String::from_str("{\"text\":\"").concat(esc.as_str()).concat("\"}")
}

} // verus!
