//! Decoding of the byte and UTF-16 strings that firmware stores embed, and
//! the one comparison the walkers need (ASCII case folding).

use vstd::prelude::*;
use vstd::utf8::{decode_utf8, valid_utf8};

verus! {

/// What `String::from_utf8_lossy` makes of `b`.
pub uninterp spec fn spec_utf8_lossy(b: Seq<u8>) -> Seq<char>;

/// What `String::from_utf16_lossy` makes of `units`.
pub uninterp spec fn spec_utf16_lossy(units: Seq<u16>) -> Seq<char>;

/// The text of bytes `b`: their UTF-8 decoding when they are valid UTF-8
/// (ASCII among them), else what lossy decoding makes of them.
pub open spec fn utf8_text(b: Seq<u8>) -> Seq<char> {
    if valid_utf8(b) {
        decode_utf8(b)
    } else {
        spec_utf8_lossy(b)
    }
}

/// The text of UTF-16 units: one character per unit when no unit is half of
/// a surrogate pair, else what lossy decoding makes of them.
pub open spec fn utf16_text(units: Seq<u16>) -> Seq<char> {
    if forall|i: int| 0 <= i < units.len() ==> is_plain_utf16_unit(#[trigger] units[i]) {
        Seq::new(units.len(), |i: int| units[i] as char)
    } else {
        spec_utf16_lossy(units)
    }
}

/// A UTF-16 unit that is not half of a surrogate pair stands for itself.
pub open spec fn is_plain_utf16_unit(u: u16) -> bool {
    u < 0xD800 || u >= 0xE000
}

/// Calls `String::from_utf8_lossy`: the bytes decoded as UTF-8, each invalid
/// sequence replaced by U+FFFD. The contract names the result and states
/// that valid UTF-8 decodes as such; what replacement gives is left unsaid.
#[verifier::external_body]
pub fn utf8_lossy(b: &[u8]) -> (s: String)
    ensures
        s@ == spec_utf8_lossy(b@),
        valid_utf8(b@) ==> s@ == decode_utf8(b@),
        s@ == utf8_text(b@),
{
    String::from_utf8_lossy(b).into_owned()
}

/// Calls `String::from_utf16_lossy`: UTF-16 decoding with unpaired
/// surrogates replaced by U+FFFD. The contract names the result and states
/// that units outside the surrogate range decode one for one to the
/// character of the same value; surrogate handling is left unsaid.
#[verifier::external_body]
pub fn utf16_lossy(units: &[u16]) -> (s: String)
    ensures
        s@ == spec_utf16_lossy(units@),
        (forall|i: int| 0 <= i < units@.len() ==> is_plain_utf16_unit(#[trigger] units@[i])) ==> s@
            == Seq::new(units@.len(), |i: int| units@[i] as char),
        s@ == utf16_text(units@),
{
    String::from_utf16_lossy(units)
}

/// Calls `String::push_str`, which appends `t` to `s`.
#[verifier::external_body]
pub fn string_push_str(s: &mut String, t: &str)
    ensures
        final(s)@ == old(s)@ + t@,
{
    s.push_str(t)
}

/// Calls `String::push`, which appends `c` to `s`.
#[verifier::external_body]
pub fn string_push(s: &mut String, c: char)
    ensures
        final(s)@ == old(s)@.push(c),
{
    s.push(c)
}

/// The decimal digits of `v`, as characters.
pub open spec fn dec_chars(v: nat) -> Seq<char>
    decreases v,
{
    if v < 10 {
        seq![(48 + v) as char]
    } else {
        dec_chars(v / 10).push((48 + v % 10) as char)
    }
}

/// Appends the decimal digits of `v`.
pub fn push_dec_chars(s: &mut String, v: u64)
    ensures
        final(s)@ == old(s)@ + dec_chars(v as nat),
    decreases v,
{
    if v >= 10 {
        push_dec_chars(s, v / 10);
    }
    let ghost mid = s@;
    let d: u8 = 48 + (v % 10) as u8;
    string_push(s, d as char);
    if v >= 10 {
        assert(s@ =~= old(s)@ + dec_chars(v as nat));
    } else {
        assert(s@ =~= old(s)@ + dec_chars(v as nat));
    }
}

/// The lower-case hexadecimal digit `d` (`d < 16`), as a character.
pub open spec fn hex_char(d: int) -> char {
    if d < 10 {
        (48 + d) as char
    } else {
        (87 + d) as char
    }
}

/// `v` in lower-case hexadecimal without leading zeros, as characters.
pub open spec fn hex_chars(v: nat) -> Seq<char>
    decreases v,
{
    if v < 16 {
        seq![hex_char(v as int)]
    } else {
        hex_chars(v / 16).push(hex_char((v % 16) as int))
    }
}

/// Appends the lower-case hexadecimal digits of `v`.
pub fn push_hex_chars(s: &mut String, v: u64)
    ensures
        final(s)@ == old(s)@ + hex_chars(v as nat),
    decreases v,
{
    if v >= 16 {
        push_hex_chars(s, v / 16);
    }
    let d: u8 = (v % 16) as u8;
    let c: u8 = if d < 10 {
        48 + d
    } else {
        87 + d
    };
    string_push(s, c as char);
    assert(s@ =~= old(s)@ + hex_chars(v as nat));
}

/// Character equality; spelled out so callers need not reason about `char`'s
/// `PartialEq` impl.
pub fn char_eq(a: char, b: char) -> (r: bool)
    ensures
        r == (a == b),
{
    (a as u32) == (b as u32)
}

/// `a` and `b` hold the same characters.
pub fn string_eq_str(a: &String, b: &str) -> (r: bool)
    ensures
        r == (a@ == b@),
{
    let s = a.as_str();
    let n = s.unicode_len();
    if n != b.unicode_len() {
        return false;
    }
    let mut i: usize = 0;
    while i < n
        invariant
            n == s@.len(),
            n == b@.len(),
            s@ == a@,
            i <= n,
            forall|j: int| 0 <= j < i ==> s@[j] == b@[j],
        decreases n - i,
    {
        if !char_eq(s.get_char(i), b.get_char(i)) {
            return false;
        }
        i = i + 1;
    }
    assert(s@ =~= b@);
    true
}

/// `a` and `b` hold the same characters.
pub fn str_eq(a: &str, b: &str) -> (r: bool)
    ensures
        r == (a@ == b@),
{
    let n = a.unicode_len();
    if n != b.unicode_len() {
        return false;
    }
    let mut i: usize = 0;
    while i < n
        invariant
            n == a@.len(),
            n == b@.len(),
            i <= n,
            forall|j: int| 0 <= j < i ==> a@[j] == b@[j],
        decreases n - i,
    {
        if !char_eq(a.get_char(i), b.get_char(i)) {
            return false;
        }
        i = i + 1;
    }
    assert(a@ =~= b@);
    true
}

/// ASCII lower-casing of one character; everything else is left alone.
pub open spec fn ascii_lower(c: char) -> char {
    if 'A' <= c <= 'Z' {
        ((c as u32) + 32) as char
    } else {
        c
    }
}

/// Equality up to ASCII case, as `str::eq_ignore_ascii_case` defines it.
pub open spec fn eq_ignore_ascii_case(a: Seq<char>, b: Seq<char>) -> bool {
    a.len() == b.len() && forall|i: int| 0 <= i < a.len() ==> ascii_lower(a[i]) == ascii_lower(b[i])
}

fn ascii_lower_exec(c: char) -> (r: u32)
    ensures
        r == ascii_lower(c) as u32,
{
    let v = c as u32;
    if 0x41 <= v && v <= 0x5A {
        v + 32
    } else {
        v
    }
}

/// `a` equals `b` up to ASCII case.
pub fn eq_ignore_ascii_case_exec(a: &str, b: &str) -> (r: bool)
    ensures
        r == eq_ignore_ascii_case(a@, b@),
{
    let n = a.unicode_len();
    if n != b.unicode_len() {
        return false;
    }
    let mut i: usize = 0;
    while i < n
        invariant
            n == a@.len(),
            n == b@.len(),
            i <= n,
            forall|j: int| 0 <= j < i ==> ascii_lower(a@[j]) == ascii_lower(b@[j]),
        decreases n - i,
    {
        let x = ascii_lower_exec(a.get_char(i));
        let y = ascii_lower_exec(b.get_char(i));
        if x != y {
            return false;
        }
        i = i + 1;
    }
    true
}


/// The UTF-16 code units of one character.
pub open spec fn utf16_of_char(c: char) -> Seq<u16> {
    if (c as u32) < 0x10000 {
        seq![(c as u32) as u16]
    } else {
        seq![
            (0xD800 + ((c as u32) - 0x10000) / 1024) as u16,
            (0xDC00 + ((c as u32) - 0x10000) % 1024) as u16,
        ]
    }
}

/// The UTF-16 encoding of a character sequence, as `str::encode_utf16` yields it.
pub open spec fn utf16_encode(s: Seq<char>) -> Seq<u16>
    decreases s.len(),
{
    if s.len() == 0 {
        Seq::empty()
    } else {
        utf16_encode(s.drop_last()) + utf16_of_char(s.last())
    }
}

/// The UTF-16 code units of `s`.
pub fn encode_utf16(s: &str) -> (r: Vec<u16>)
    ensures
        r@ == utf16_encode(s@),
{
    let n = s.unicode_len();
    let mut r: Vec<u16> = Vec::new();
    let mut i: usize = 0;
    while i < n
        invariant
            n == s@.len(),
            i <= n,
            r@ == utf16_encode(s@.subrange(0, i as int)),
        decreases n - i,
    {
        let c = s.get_char(i);
        let v = c as u32;
        let ghost before = r@;
        if v < 0x10000 {
            r.push(v as u16);
        } else {
            let w = v - 0x10000;
            r.push((0xD800 + w / 1024) as u16);
            r.push((0xDC00 + w % 1024) as u16);
        }
        proof {
            let p = s@.subrange(0, i + 1);
            assert(p.drop_last() =~= s@.subrange(0, i as int));
            assert(p.last() == c);
            assert(r@ =~= before + utf16_of_char(c));
        }
        i = i + 1;
    }
    assert(s@.subrange(0, n as int) =~= s@);
    r
}

} // verus!
