//! ASCII rendering of numbers and byte runs for diagnostics, stated as byte
//! sequences so that the messages the library returns have exact contracts.

use vstd::prelude::*;
use vstd::string::StringSliceAdditionalSpecFns;
use crate::bytes::push_all;
use crate::text::{utf8_text, utf8_lossy};

verus! {

/// ASCII code of the lower-case hexadecimal digit `d` (`d < 16`).
pub open spec fn hex_digit(d: int) -> u8 {
    if d < 10 {
        (48 + d) as u8
    } else {
        (87 + d) as u8
    }
}

/// `v` in lower-case hexadecimal, no leading zeros (`0` is "0").
pub open spec fn hex_text(v: nat) -> Seq<u8>
    decreases v,
{
    if v < 16 {
        seq![hex_digit(v as int)]
    } else {
        hex_text(v / 16).push(hex_digit((v % 16) as int))
    }
}

/// `v` in decimal, no leading zeros.
pub open spec fn dec_text(v: nat) -> Seq<u8>
    decreases v,
{
    if v < 10 {
        seq![(48 + v) as u8]
    } else {
        dec_text(v / 10).push((48 + v % 10) as u8)
    }
}

/// A byte as two lower-case hexadecimal digits.
pub open spec fn hex2_text(b: u8) -> Seq<u8> {
    seq![hex_digit(b as int / 16), hex_digit(b as int % 16)]
}

/// Each byte as two hexadecimal digits, separated by single spaces.
pub open spec fn hex_run_text(s: Seq<u8>) -> Seq<u8>
    decreases s.len(),
{
    if s.len() == 0 {
        Seq::empty()
    } else if s.len() == 1 {
        hex2_text(s[0])
    } else {
        hex_run_text(s.drop_last()) + seq![32u8] + hex2_text(s.last())
    }
}

fn hex_digit_exec(d: u8) -> (c: u8)
    requires
        d < 16,
    ensures
        c == hex_digit(d as int),
{
    if d < 10 {
        48 + d
    } else {
        87 + d
    }
}

/// Appends `v` in hexadecimal.
pub fn push_hex(out: &mut Vec<u8>, v: usize)
    ensures
        final(out)@ == old(out)@ + hex_text(v as nat),
    decreases v,
{
    if v >= 16 {
        push_hex(out, v / 16);
    }
    out.push(hex_digit_exec((v % 16) as u8));
}

/// Appends `v` in decimal.
pub fn push_dec(out: &mut Vec<u8>, v: u16)
    ensures
        final(out)@ == old(out)@ + dec_text(v as nat),
    decreases v,
{
    if v >= 10 {
        push_dec(out, v / 10);
    }
    out.push(48 + (v % 10) as u8);
}

/// Appends `b` as two hexadecimal digits.
pub fn push_hex2(out: &mut Vec<u8>, b: u8)
    ensures
        final(out)@ == old(out)@ + hex2_text(b),
{
    out.push(hex_digit_exec(b / 16));
    out.push(hex_digit_exec(b % 16));
}

/// Appends the bytes of `s` as space-separated hexadecimal pairs.
pub fn push_hex_run(out: &mut Vec<u8>, s: &[u8])
    ensures
        final(out)@ == old(out)@ + hex_run_text(s@),
{
    let n = s.len();
    let mut k: usize = 0;
    while k < n
        invariant
            n == s@.len(),
            k <= n,
            out@ == old(out)@ + hex_run_text(s@.subrange(0, k as int)),
        decreases n - k,
    {
        let ghost before = out@;
        if k > 0 {
            out.push(32u8);
        }
        push_hex2(out, s[k]);
        proof {
            let p = s@.subrange(0, k + 1);
            assert(p.drop_last() =~= s@.subrange(0, k as int));
            assert(p.last() == s@[k as int]);
            if k == 0 {
                assert(out@ =~= old(out)@ + hex_run_text(p));
            } else {
                assert(out@ =~= old(out)@ + hex_run_text(p));
            }
        }
        k = k + 1;
    }
    assert(s@.subrange(0, n as int) =~= s@);
}

/// Appends the bytes of the literal `lit`.
pub fn push_str(out: &mut Vec<u8>, lit: &str)
    ensures
        final(out)@ == old(out)@ + lit.spec_bytes(),
{
    push_all(out, lit.as_bytes());
}

/// The text of ASCII bytes, as a `String`.
pub fn ascii_string(b: &Vec<u8>) -> (s: String)
    ensures
        s@ == utf8_text(b@),
{
    utf8_lossy(b.as_slice())
}

} // verus!
