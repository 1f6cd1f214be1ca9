//! Resource quantities in the Kubernetes notation.
//!
//! Memory: a decimal integer, optionally followed by `k`, `M`, `G`, `T`,
//! `P`, `E` (powers of 1000) or `Ki`, `Mi`, `Gi`, `Ti`, `Pi`, `Ei` (powers of
//! 1024); no suffix means bytes. CPU: a decimal integer followed by `m`
//! (millicores), or a decimal fraction of cores, truncated to millicores.
//! Surrounding white space is ignored. A quantity that does not fit the
//! result type does not parse.

use vstd::prelude::*;
use crate::text::{
    all_digits, chars_of, copy_range, digits_value, only_digits, parse_digits, parse_unsigned,
    split_chars, split_on, trim, trim_range, unsigned_digits, unsigned_value, CharClass,
};

verus! {

pub open spec fn ends_with1(t: Seq<char>, a: char) -> bool {
    t.len() >= 1 && t[t.len() - 1] == a
}

pub open spec fn ends_with2(t: Seq<char>, a: char, b: char) -> bool {
    t.len() >= 2 && t[t.len() - 2] == a && t[t.len() - 1] == b
}

/// The unit suffix of memory text: its length and the multiplier it stands for.
pub open spec fn memory_suffix(t: Seq<char>) -> (nat, nat) {
    if ends_with2(t, 'E', 'i') {
        (2, 0x1000_0000_0000_0000)
    } else if ends_with2(t, 'P', 'i') {
        (2, 0x4_0000_0000_0000)
    } else if ends_with2(t, 'T', 'i') {
        (2, 0x100_0000_0000)
    } else if ends_with2(t, 'G', 'i') {
        (2, 0x4000_0000)
    } else if ends_with2(t, 'M', 'i') {
        (2, 0x10_0000)
    } else if ends_with2(t, 'K', 'i') {
        (2, 0x400)
    } else if ends_with1(t, 'E') {
        (1, 1_000_000_000_000_000_000)
    } else if ends_with1(t, 'P') {
        (1, 1_000_000_000_000_000)
    } else if ends_with1(t, 'T') {
        (1, 1_000_000_000_000)
    } else if ends_with1(t, 'G') {
        (1, 1_000_000_000)
    } else if ends_with1(t, 'M') {
        (1, 1_000_000)
    } else if ends_with1(t, 'k') {
        (1, 1_000)
    } else {
        (0, 1)
    }
}

/// The number of bytes that memory text `s` gives, if it parses and fits `usize`.
pub open spec fn memory_bytes(s: Seq<char>) -> Option<nat> {
    let t = trim(s, CharClass::WhiteSpace);
    let (k, m) = memory_suffix(t);
    match unsigned_value(t.subrange(0, t.len() - k), usize::MAX as nat) {
        Some(n) => if n * m <= usize::MAX {
            Some(n * m)
        } else {
            None
        },
        None => None,
    }
}

/// Parses a memory quantity to bytes.
pub fn parse_memory_quantity(s: &str) -> (r: Option<usize>)
    ensures
        match r {
            Some(v) => memory_bytes(s@) == Some(v as nat),
            None => memory_bytes(s@) is None,
        },
{
    let c = chars_of(s);
    let n = c.len();
    let (lo, hi) = trim_range(&c, 0, n, CharClass::WhiteSpace);
    assert(c@.subrange(0, n as int) =~= c@);
    let ghost t = c@.subrange(lo as int, hi as int);
    let len = hi - lo;
    let two = len >= 2 && c[hi - 1] == 'i';
    let (k, m): (usize, u64) = if two && c[hi - 2] == 'E' {
        (2, 0x1000_0000_0000_0000)
    } else if two && c[hi - 2] == 'P' {
        (2, 0x4_0000_0000_0000)
    } else if two && c[hi - 2] == 'T' {
        (2, 0x100_0000_0000)
    } else if two && c[hi - 2] == 'G' {
        (2, 0x4000_0000)
    } else if two && c[hi - 2] == 'M' {
        (2, 0x10_0000)
    } else if two && c[hi - 2] == 'K' {
        (2, 0x400)
    } else if len >= 1 && c[hi - 1] == 'E' {
        (1, 1_000_000_000_000_000_000)
    } else if len >= 1 && c[hi - 1] == 'P' {
        (1, 1_000_000_000_000_000)
    } else if len >= 1 && c[hi - 1] == 'T' {
        (1, 1_000_000_000_000)
    } else if len >= 1 && c[hi - 1] == 'G' {
        (1, 1_000_000_000)
    } else if len >= 1 && c[hi - 1] == 'M' {
        (1, 1_000_000)
    } else if len >= 1 && c[hi - 1] == 'k' {
        (1, 1_000)
    } else {
        (0, 1)
    };
    assert(memory_suffix(t) == (k as nat, m as nat));
    assert(t.subrange(0, t.len() - k) =~= c@.subrange(lo as int, hi - k));
    match parse_unsigned(&c, lo, hi - k, usize::MAX as u64) {
        Some(v) => {
            assert(v as nat * m as nat <= 0xffff_ffff_ffff_ffff * 0x1000_0000_0000_0000)
                by (nonlinear_arith)
                requires
                    v <= 0xffff_ffff_ffff_ffffu64,
                    m <= 0x1000_0000_0000_0000u64,
            ;
            let bytes: u128 = v as u128 * m as u128;
            if bytes > usize::MAX as u128 {
                None
            } else {
                Some(bytes as usize)
            }
        },
        None => None,
    }
}

/// `10` to the power `3 - k`: the weight of a fraction of `k` digits in
/// thousandths.
pub open spec fn thousandths_scale(k: nat) -> nat {
    if k == 0 {
        1000
    } else if k == 1 {
        100
    } else if k == 2 {
        10
    } else {
        1
    }
}

/// The millicores that a decimal fraction of cores writes, truncated:
/// an optional `+`, digits, optionally `.` and more digits, with at least
/// one digit in all.
pub open spec fn cores_millis(t: Seq<char>) -> Option<nat> {
    let p = split_on(unsigned_digits(t), '.');
    let ip = p[0];
    let fp = if p.len() == 2 {
        p[1]
    } else {
        Seq::empty()
    };
    let f3 = if fp.len() <= 3 {
        fp
    } else {
        fp.subrange(0, 3)
    };
    let v = digits_value(ip) * 1000 + digits_value(f3) * thousandths_scale(f3.len());
    if p.len() <= 2 && ip.len() + fp.len() > 0 && all_digits(ip) && all_digits(fp) && v
        <= u64::MAX {
        Some(v)
    } else {
        None
    }
}

/// The millicores that CPU text `s` gives.
pub open spec fn cpu_millis(s: Seq<char>) -> Option<nat> {
    let t = trim(s, CharClass::WhiteSpace);
    if t.len() > 0 && t.last() == 'm' {
        unsigned_value(t.drop_last(), u64::MAX as nat)
    } else {
        cores_millis(t)
    }
}

/// Parses a CPU quantity to millicores.
pub fn parse_cpu_quantity(s: &str) -> (r: Option<u64>)
    ensures
        match r {
            Some(v) => cpu_millis(s@) == Some(v as nat),
            None => cpu_millis(s@) is None,
        },
{
    let c = chars_of(s);
    let n = c.len();
    let (lo, hi) = trim_range(&c, 0, n, CharClass::WhiteSpace);
    assert(c@.subrange(0, n as int) =~= c@);
    let ghost t = c@.subrange(lo as int, hi as int);
    if hi > lo && c[hi - 1] == 'm' {
        assert(t.drop_last() =~= c@.subrange(lo as int, hi - 1));
        return parse_unsigned(&c, lo, hi - 1, u64::MAX);
    }
    assert(!(t.len() > 0 && t.last() == 'm')) by {
        if t.len() > 0 {
            assert(t.last() == c@[hi - 1]);
        }
    }
    let start = if hi > lo && c[lo] == '+' {
        lo + 1
    } else {
        lo
    };
    let w = copy_range(&c, start, hi);
    assert(w@ =~= unsigned_digits(t));
    let parts = split_chars(&w, '.');
    let ghost p = split_on(w@, '.');
    if parts.len() > 2 {
        return None;
    }
    let ip = &parts[0];
    let empty: Vec<char> = Vec::new();
    let fp = if parts.len() == 2 {
        &parts[1]
    } else {
        &empty
    };
    let ghost gfp = if p.len() == 2 {
        p[1]
    } else {
        Seq::empty()
    };
    assert(fp@ == gfp);
    if ip.len() == 0 && fp.len() == 0 {
        return None;
    }
    let whole = match parse_digits(ip, 0, ip.len(), u64::MAX) {
        Some(v) => v,
        None => {
            assert(ip@.subrange(0, ip@.len() as int) =~= ip@);
            return None;
        },
    };
    assert(ip@.subrange(0, ip@.len() as int) =~= ip@);
    if !only_digits(fp, 0, fp.len()) {
        assert(fp@.subrange(0, fp@.len() as int) =~= fp@);
        return None;
    }
    assert(fp@.subrange(0, fp@.len() as int) =~= fp@);
    let k: usize = if fp.len() <= 3 {
        fp.len()
    } else {
        3
    };
    let ghost f3 = fp@.subrange(0, k as int);
    assert(f3 == if gfp.len() <= 3 { gfp } else { gfp.subrange(0, 3) }) by {
        if gfp.len() <= 3 {
            assert(fp@.subrange(0, k as int) =~= fp@);
        }
    }
    assert(all_digits(f3));
    proof {
        crate::text::lemma_digits_value_bound(f3);
        reveal_with_fuel(crate::text::ten_pow, 4);
    }
    let frac = match parse_digits(fp, 0, k, 999) {
        Some(v) => v,
        None => {
            return None;
        },
    };
    let scale: u128 = if k == 0 {
        1000
    } else if k == 1 {
        100
    } else if k == 2 {
        10
    } else {
        1
    };
    assert(scale == thousandths_scale(f3.len()));
    let v: u128 = whole as u128 * 1000 + frac as u128 * scale;
    assert(v == digits_value(p[0]) * 1000 + digits_value(f3) * thousandths_scale(f3.len()));
    if v > u64::MAX as u128 {
        None
    } else {
        Some(v as u64)
    }
}

} // verus!
