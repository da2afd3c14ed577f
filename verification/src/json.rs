//! Writing JSON text: decimal numbers and escaped strings.

use vstd::prelude::*;
use crate::encoding::{chars_of, push_char};

verus! {

/// The decimal digit for `d` (`0 <= d < 10`).
pub open spec fn digit_char(d: nat) -> char {
    if d == 0 { '0' }
    else if d == 1 { '1' }
    else if d == 2 { '2' }
    else if d == 3 { '3' }
    else if d == 4 { '4' }
    else if d == 5 { '5' }
    else if d == 6 { '6' }
    else if d == 7 { '7' }
    else if d == 8 { '8' }
    else { '9' }
}

/// The decimal representation of `n`, without leading zeros.
pub open spec fn decimal(n: nat) -> Seq<char>
    decreases n,
{
    if n < 10 {
        seq![digit_char(n)]
    } else {
        decimal(n / 10) + seq![digit_char(n % 10)]
    }
}

/// The lower-case hexadecimal digit for `d` (`0 <= d < 16`).
pub open spec fn hex_char(d: nat) -> char {
    if d < 10 { digit_char(d) }
    else if d == 10 { 'a' }
    else if d == 11 { 'b' }
    else if d == 12 { 'c' }
    else if d == 13 { 'd' }
    else if d == 14 { 'e' }
    else { 'f' }
}

/// How one character stands inside a JSON string literal.
pub open spec fn escape_char(c: char) -> Seq<char> {
    if c == '"' {
        seq!['\\', '"']
    } else if c == '\\' {
        seq!['\\', '\\']
    } else if c == '\n' {
        seq!['\\', 'n']
    } else if c == '\r' {
        seq!['\\', 'r']
    } else if c == '\t' {
        seq!['\\', 't']
    } else if (c as u32) < 0x20 {
        seq!['\\', 'u', '0', '0', hex_char((c as u32 / 16) as nat), hex_char((c as u32 % 16) as nat)]
    } else {
        seq![c]
    }
}

/// The escaped characters of `s`.
pub open spec fn escape_seq(s: Seq<char>) -> Seq<char>
    decreases s.len(),
{
    if s.len() == 0 {
        Seq::empty()
    } else {
        escape_seq(s.drop_last()) + escape_char(s.last())
    }
}

/// `s` as a JSON string literal, quotes included.
pub open spec fn json_string(s: Seq<char>) -> Seq<char> {
    seq!['"'] + escape_seq(s) + seq!['"']
}

/// The decimal digit for `d`.
fn digit(d: u64) -> (c: char)
    requires
        d < 10,
    ensures
        c == digit_char(d as nat),
{
    match d {
        0 => '0',
        1 => '1',
        2 => '2',
        3 => '3',
        4 => '4',
        5 => '5',
        6 => '6',
        7 => '7',
        8 => '8',
        _ => '9',
    }
}

/// The lower-case hexadecimal digit for `d`.
fn hex_digit(d: u32) -> (c: char)
    requires
        d < 16,
    ensures
        c == hex_char(d as nat),
{
    if d < 10 {
        digit(d as u64)
    } else if d == 10 {
        'a'
    } else if d == 11 {
        'b'
    } else if d == 12 {
        'c'
    } else if d == 13 {
        'd'
    } else if d == 14 {
        'e'
    } else {
        'f'
    }
}

/// Appends the decimal representation of `n`.
pub fn push_decimal(out: &mut String, n: u64)
    ensures
        final(out)@ == old(out)@ + decimal(n as nat),
    decreases n,
{
    if n >= 10 {
        push_decimal(out, n / 10);
    }
    push_char(out, digit(n % 10));
    assert(final(out)@ =~= old(out)@ + decimal(n as nat));
}

/// Appends `s` as a JSON string literal.
pub fn push_json_string(out: &mut String, s: &str)
    ensures
        final(out)@ == old(out)@ + json_string(s@),
{
    let chars = chars_of(s);
    push_char(out, '"');
    let ghost start = out@;
    let mut i: usize = 0;
    while i < chars.len()
        invariant
            i <= chars@.len(),
            chars@ == s@,
            out@ == start + escape_seq(chars@.subrange(0, i as int)),
        decreases chars@.len() - i,
    {
        let c = chars[i];
        let ghost before = out@;
        if c == '"' {
            push_char(out, '\\');
            push_char(out, '"');
        } else if c == '\\' {
            push_char(out, '\\');
            push_char(out, '\\');
        } else if c == '\n' {
            push_char(out, '\\');
            push_char(out, 'n');
        } else if c == '\r' {
            push_char(out, '\\');
            push_char(out, 'r');
        } else if c == '\t' {
            push_char(out, '\\');
            push_char(out, 't');
        } else if (c as u32) < 0x20 {
            push_char(out, '\\');
            push_char(out, 'u');
            push_char(out, '0');
            push_char(out, '0');
            push_char(out, hex_digit(c as u32 / 16));
            push_char(out, hex_digit(c as u32 % 16));
        } else {
            push_char(out, c);
        }
        assert(out@ =~= before + escape_char(c));
        assert(chars@.subrange(0, i + 1).drop_last() =~= chars@.subrange(0, i as int));
        i = i + 1;
    }
    assert(chars@.subrange(0, chars@.len() as int) =~= s@);
    push_char(out, '"');
    assert(out@ =~= old(out)@ + json_string(s@));
}

/// `s` as a JSON string literal.
pub fn json_escape(s: &str) -> (r: String)
    ensures
        r@ == json_string(s@),
{
    let mut r = String::new();
    push_json_string(&mut r, s);
    assert(r@ =~= json_string(s@));
    r
}

/// `s` with a backslash put before each backslash and each double quote
/// (and nothing else escaped).
pub open spec fn quote_escape(s: Seq<char>) -> Seq<char>
    decreases s.len(),
{
    if s.len() == 0 {
        Seq::empty()
    } else {
        let c = s.last();
        quote_escape(s.drop_last()) + if c == '\\' || c == '"' {
            seq!['\\', c]
        } else {
            seq![c]
        }
    }
}

/// The answer to a request that failed with `message`.
pub open spec fn failure_answer(message: Seq<char>) -> Seq<char> {
    "{\"ok\":false,\"error\":\""@ + quote_escape(message) + "\"}"@
}

/// `{"ok":false,"error":"<message>"}`, with the backslashes and double
/// quotes of `message` escaped.
pub fn failure_json(message: &str) -> (r: String)
    ensures
        r@ == failure_answer(message@),
{
    let chars = chars_of(message);
    let mut out = String::from_str("{\"ok\":false,\"error\":\"");
    let ghost start = out@;
    let mut i: usize = 0;
    while i < chars.len()
        invariant
            i <= chars@.len(),
            chars@ == message@,
            out@ == start + quote_escape(chars@.subrange(0, i as int)),
        decreases chars@.len() - i,
    {
        let c = chars[i];
        let ghost before = out@;
        if c == '\\' || c == '"' {
            push_char(&mut out, '\\');
        }
        push_char(&mut out, c);
        assert(chars@.subrange(0, i + 1).drop_last() =~= chars@.subrange(0, i as int));
        assert(out@ =~= start + quote_escape(chars@.subrange(0, i + 1)));
        i = i + 1;
    }
    assert(chars@.subrange(0, chars@.len() as int) =~= message@);
    out.append("\"}");
    out
}

/// The value of a lower-case hexadecimal digit.
pub open spec fn hex_value(c: char) -> nat {
    if c == '1' { 1 }
    else if c == '2' { 2 }
    else if c == '3' { 3 }
    else if c == '4' { 4 }
    else if c == '5' { 5 }
    else if c == '6' { 6 }
    else if c == '7' { 7 }
    else if c == '8' { 8 }
    else if c == '9' { 9 }
    else if c == 'a' { 10 }
    else if c == 'b' { 11 }
    else if c == 'c' { 12 }
    else if c == 'd' { 13 }
    else if c == 'e' { 14 }
    else if c == 'f' { 15 }
    else { 0 }
}

/// The character that the escape `\` followed by `e` stands for in a JSON
/// string literal (other than `\u`).
pub open spec fn unescape_char(e: char) -> char {
    if e == 'n' {
        '\n'
    } else if e == 'r' {
        '\r'
    } else if e == 't' {
        '\t'
    } else if e == 'b' {
        '\u{8}'
    } else if e == 'f' {
        '\u{c}'
    } else {
        e
    }
}

/// The characters that the contents `s` of a JSON string literal stand
/// for: each escape decoded (`\uXXXX` by its four hexadecimal digits),
/// every other character as it is.
pub open spec fn json_unescape(s: Seq<char>) -> Seq<char>
    decreases s.len(),
{
    if s.len() == 0 {
        Seq::empty()
    } else if s[0] == '\\' && s.len() >= 2 {
        if s[1] == 'u' && s.len() >= 6 {
            seq![
                (hex_value(s[2]) * 4096 + hex_value(s[3]) * 256 + hex_value(s[4]) * 16 + hex_value(s[5])) as char,
            ] + json_unescape(s.skip(6))
        } else {
            seq![unescape_char(s[1])] + json_unescape(s.skip(2))
        }
    } else {
        seq![s[0]] + json_unescape(s.drop_first())
    }
}

/// Escaping is done character by character.
proof fn lemma_escape_seq_concat(a: Seq<char>, b: Seq<char>)
    ensures
        escape_seq(a + b) == escape_seq(a) + escape_seq(b),
    decreases b.len(),
{
    if b.len() == 0 {
        assert(a + b =~= a);
        assert(escape_seq(a) + Seq::empty() =~= escape_seq(a));
    } else {
        assert((a + b).drop_last() =~= a + b.drop_last());
        assert((a + b).last() == b.last());
        lemma_escape_seq_concat(a, b.drop_last());
        assert(escape_seq(a) + escape_seq(b.drop_last()) + escape_char(b.last()) =~= escape_seq(a) + (escape_seq(
            b.drop_last(),
        ) + escape_char(b.last())));
    }
}

/// Decoding an escaped character, then more, gives the character back,
/// then what the rest decodes to.
proof fn lemma_unescape_char(c: char, rest: Seq<char>)
    ensures
        json_unescape(escape_char(c) + rest) == seq![c] + json_unescape(rest),
{
    let e = escape_char(c);
    if c == '"' || c == '\\' || c == '\n' || c == '\r' || c == '\t' {
        assert((e + rest).skip(2) =~= rest);
    } else if (c as u32) < 0x20 {
        let v = c as u32;
        let hi = (v / 16) as nat;
        let lo = (v % 16) as nat;
        assert(hex_value(hex_char(hi)) == hi);
        assert(hex_value(hex_char(lo)) == lo);
        assert((e + rest)[2] == '0' && (e + rest)[3] == '0');
        assert(hex_value('0') == 0);
        assert(hi * 16 + lo == v);
        vstd::utf8::char_u32_cast(c, v);
        assert((e + rest).skip(6) =~= rest);
    } else {
        assert((e + rest).drop_first() =~= rest);
    }
}

/// What `json_escape` writes decodes back to the string: the contents of
/// `json_string(s)`, between its quotes, decode to `s`.
pub proof fn lemma_json_escape_round_trip(s: Seq<char>)
    ensures
        json_unescape(escape_seq(s)) == s,
        json_string(s) == seq!['"'] + escape_seq(s) + seq!['"'],
    decreases s.len(),
{
    if s.len() > 0 {
        let rest = s.drop_first();
        assert(s =~= seq![s[0]] + rest);
        lemma_escape_seq_concat(seq![s[0]], rest);
        let one = seq![s[0]];
        assert(one.drop_last() =~= Seq::<char>::empty());
        assert(one.last() == s[0]);
        assert(escape_seq(Seq::<char>::empty()) == Seq::<char>::empty());
        assert(escape_seq(one) == escape_seq(one.drop_last()) + escape_char(one.last()));
        assert(escape_seq(one) =~= escape_char(s[0]));
        lemma_unescape_char(s[0], escape_seq(rest));
        lemma_json_escape_round_trip(rest);
    }
}

/// How serde_json writes one character inside a string literal: as
/// `escape_char` does, except that backspace and form feed get the
/// two-character escapes `\b` and `\f`.
pub open spec fn serde_escape_char(c: char) -> Seq<char> {
    if c == '\u{8}' {
        seq!['\\', 'b']
    } else if c == '\u{c}' {
        seq!['\\', 'f']
    } else {
        escape_char(c)
    }
}

/// The characters of `s`, each as serde_json writes it.
pub open spec fn serde_escape_seq(s: Seq<char>) -> Seq<char>
    decreases s.len(),
{
    if s.len() == 0 {
        Seq::empty()
    } else {
        serde_escape_seq(s.drop_last()) + serde_escape_char(s.last())
    }
}

/// The strings of `items` as serde_json's string literals, separated by
/// commas.
pub open spec fn serde_string_items(items: Seq<Seq<char>>) -> Seq<char>
    decreases items.len(),
{
    if items.len() == 0 {
        Seq::empty()
    } else if items.len() == 1 {
        seq!['"'] + serde_escape_seq(items[0]) + seq!['"']
    } else {
        serde_string_items(items.drop_last()) + seq![','] + seq!['"'] + serde_escape_seq(items.last()) + seq!['"']
    }
}

/// The compact JSON text of a list of strings, as serde_json writes it.
pub open spec fn serde_strings_json(items: Seq<Seq<char>>) -> Seq<char> {
    seq!['['] + serde_string_items(items) + seq![']']
}

} // verus!
