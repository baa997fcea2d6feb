//! Number formatting: byte sizes, fixed-point decimals and rounding.
use vstd::prelude::*;
use crate::text::{dec, digit, push_char, push_dec};

verus! {

/// `1024^k`.
pub open spec fn pow1024(k: nat) -> nat
    decreases k,
{
    if k == 0 {
        1
    } else {
        1024 * pow1024((k - 1) as nat)
    }
}

/// `10^k`.
pub open spec fn pow10(k: nat) -> nat
    decreases k,
{
    if k == 0 {
        1
    } else {
        10 * pow10((k - 1) as nat)
    }
}

/// The unit that `format_size` picks: the largest `k <= 4` with `1024^k <= bytes`.
pub open spec fn size_unit(bytes: nat) -> nat {
    if bytes >= pow1024(4) {
        4
    } else if bytes >= pow1024(3) {
        3
    } else if bytes >= pow1024(2) {
        2
    } else if bytes >= pow1024(1) {
        1
    } else {
        0
    }
}

/// The name of unit `k`.
pub open spec fn unit_name(k: nat) -> Seq<char> {
    if k == 0 {
        seq!['B']
    } else if k == 1 {
        seq!['K', 'B']
    } else if k == 2 {
        seq!['M', 'B']
    } else if k == 3 {
        seq!['G', 'B']
    } else {
        seq!['T', 'B']
    }
}

/// `num / den` rounded to the nearest integer, ties to the even neighbour.
pub open spec fn round_div(num: nat, den: nat) -> nat {
    let q = num / den;
    let r = num % den;
    if 2 * r > den {
        q + 1
    } else if 2 * r < den {
        q
    } else if q % 2 == 0 {
        q
    } else {
        q + 1
    }
}

/// `n` written with exactly `width` digits, leading zeros kept (`n < 10^width`).
pub open spec fn padded(n: nat, width: nat) -> Seq<char>
    decreases width,
{
    if width == 0 {
        Seq::empty()
    } else {
        padded(n / 10, (width - 1) as nat).push(digit(n % 10))
    }
}

/// `units / 10^places` written with `places` decimals.
pub open spec fn fixed(units: nat, places: nat) -> Seq<char> {
    if places == 0 {
        dec(units)
    } else {
        dec(units / pow10(places)) + seq!['.'] + padded(units % pow10(places), places)
    }
}

/// `num / den` written with `places` decimals, as `{:.places}` writes it (0 when `den == 0`).
pub open spec fn ratio_text(num: nat, den: nat, places: nat) -> Seq<char> {
    if den == 0 {
        fixed(0, places)
    } else {
        fixed(round_div(num * pow10(places), den), places)
    }
}

/// A byte count in B, KB, MB, GB or TB, two decimals above bytes.
pub open spec fn size_text(bytes: nat) -> Seq<char> {
    let k = size_unit(bytes);
    if k == 0 {
        dec(bytes) + seq![' ', 'B']
    } else {
        fixed(round_div(100 * bytes, pow1024(k)), 2) + seq![' '] + unit_name(k)
    }
}

/// The unit a size is written in: bytes below 1 KiB, then KB from 1024 bytes, MB from
/// 1024^2, GB from 1024^3 and TB from 1024^4 on, the value in hundredths of the unit
/// rounded half to even.
pub proof fn lemma_size_units(bytes: nat)
    ensures
        bytes < 1024 ==> size_text(bytes) == dec(bytes) + seq![' ', 'B'],
        1024 <= bytes < 1048576 ==> size_text(bytes) == fixed(round_div(100 * bytes, 1024), 2) + seq![' ', 'K', 'B'],
        1048576 <= bytes < 1073741824 ==> size_text(bytes) == fixed(round_div(100 * bytes, 1048576), 2)
            + seq![' ', 'M', 'B'],
        1073741824 <= bytes < 1099511627776 ==> size_text(bytes) == fixed(round_div(100 * bytes, 1073741824), 2)
            + seq![' ', 'G', 'B'],
        1099511627776 <= bytes ==> size_text(bytes) == fixed(round_div(100 * bytes, 1099511627776), 2)
            + seq![' ', 'T', 'B'],
{
    assert(pow1024(0) == 1);
    assert(pow1024(1) == 1024);
    assert(pow1024(2) == 1048576);
    assert(pow1024(3) == 1073741824);
    assert(pow1024(4) == 1099511627776);
    assert(seq![' '] + seq!['K', 'B'] =~= seq![' ', 'K', 'B']);
    assert(seq![' '] + seq!['M', 'B'] =~= seq![' ', 'M', 'B']);
    assert(seq![' '] + seq!['G', 'B'] =~= seq![' ', 'G', 'B']);
    assert(seq![' '] + seq!['T', 'B'] =~= seq![' ', 'T', 'B']);
}

/// `10^k` for `k <= 18`.
pub fn pow10_exec(k: u32) -> (p: u128)
    requires
        k <= 18,
    ensures
        p == pow10(k as nat),
        1 <= p <= 1_000_000_000_000_000_000u128,
    decreases k,
{
    proof {
        lemma_pow10_bound(k as nat);
    }
    if k == 0 {
        1
    } else {
        let q = pow10_exec(k - 1);
        10 * q
    }
}

/// `1 <= 10^k <= 10^18` for `k <= 18`.
pub proof fn lemma_pow10_bound(k: nat)
    requires
        k <= 18,
    ensures
        1 <= pow10(k) <= 1_000_000_000_000_000_000u128,
{
    lemma_pow10_mono(0, k);
    lemma_pow10_mono(k, 18);
    reveal_with_fuel(pow10, 19);
}

/// Nearest-integer division, ties to even.
pub fn round_div_exec(num: u128, den: u128) -> (q: u128)
    requires
        den > 0,
    ensures
        q == round_div(num as nat, den as nat),
{
    let q = num / den;
    let r = num % den;
    proof {
        vstd::arithmetic::div_mod::lemma_fundamental_div_mod(num as int, den as int);
        assert(q <= num);
    }
    if r > den - r {
        assert(q < u128::MAX) by (nonlinear_arith)
            requires
                q * den + r == num,
                r > 0,
                den > 0,
                num <= u128::MAX,
        ;
        q + 1
    } else if r < den - r {
        q
    } else if q % 2 == 0 {
        q
    } else {
        assert(q < u128::MAX) by (nonlinear_arith)
            requires
                q * den + r == num,
                r > 0,
                den > 0,
                num <= u128::MAX,
        ;
        q + 1
    }
}

/// Appends `n` as `width` digits with leading zeros.
pub fn push_padded(out: &mut String, n: u128, width: u32)
    ensures
        final(out)@ == old(out)@ + padded(n as nat, width as nat),
    decreases width,
{
    if width > 0 {
        push_padded(out, n / 10, width - 1);
        let d: u8 = (n % 10) as u8;
        push_char(out, (d + 48) as char);
    }
}

/// Appends `units / 10^places` with `places` decimals.
pub fn push_fixed(out: &mut String, units: u128, places: u32)
    requires
        places <= 18,
    ensures
        final(out)@ == old(out)@ + fixed(units as nat, places as nat),
{
    if places == 0 {
        push_dec(out, units);
    } else {
        let p = pow10_exec(places);
        push_dec(out, units / p);
        push_char(out, '.');
        push_padded(out, units % p, places);
    }
}

/// Appends `num / den` with `places` decimals, nearest with ties to even; 0 when `den == 0`.
pub fn push_ratio(out: &mut String, num: u128, den: u128, places: u32)
    requires
        places <= 8,
        num <= 0x10_0000_0000_0000_0000_0000_0000u128,
    ensures
        final(out)@ == old(out)@ + ratio_text(num as nat, den as nat, places as nat),
{
    if den == 0 {
        push_fixed(out, 0, places);
    } else {
        let p = pow10_exec(places);
        proof {
            lemma_pow10_mono(places as nat, 8);
            reveal_with_fuel(pow10, 9);
        }
        assert(num * p <= u128::MAX) by (nonlinear_arith)
            requires
                num <= 0x10_0000_0000_0000_0000_0000_0000u128,
                p <= 100_000_000,
        ;
        let q = round_div_exec(num * p, den);
        push_fixed(out, q, places);
    }
}

/// `10^a <= 10^b` when `a <= b`.
pub proof fn lemma_pow10_mono(a: nat, b: nat)
    requires
        a <= b,
    ensures
        pow10(a) <= pow10(b),
    decreases b,
{
    if a < b {
        lemma_pow10_mono(a, (b - 1) as nat);
    }
}

/// A byte count as a short text: `"512 B"`, `"1.50 KB"`, `"50.00 MB"`.
pub fn format_size(bytes: u64) -> (s: String)
    ensures
        s@ == size_text(bytes as nat),
{
    let mut s = String::new();
    let k: u32 = if bytes >= 1024u64 * 1024 * 1024 * 1024 {
        4
    } else if bytes >= 1024u64 * 1024 * 1024 {
        3
    } else if bytes >= 1024u64 * 1024 {
        2
    } else if bytes >= 1024u64 {
        1
    } else {
        0
    };
    proof {
        reveal_with_fuel(pow1024, 5);
    }
    if k == 0 {
        push_dec(&mut s, bytes as u128);
        push_char(&mut s, ' ');
        push_char(&mut s, 'B');
        assert(s@ == size_text(bytes as nat));
        return s;
    }
    let den: u128 = if k == 4 {
        1024u128 * 1024 * 1024 * 1024
    } else if k == 3 {
        1024u128 * 1024 * 1024
    } else if k == 2 {
        1024u128 * 1024
    } else {
        1024u128
    };
    let q = round_div_exec(100 * (bytes as u128), den);
    push_fixed(&mut s, q, 2);
    push_char(&mut s, ' ');
    let name: char = if k == 1 {
        'K'
    } else if k == 2 {
        'M'
    } else if k == 3 {
        'G'
    } else {
        'T'
    };
    push_char(&mut s, name);
    push_char(&mut s, 'B');
    assert(s@ == size_text(bytes as nat));
    s
}

} // verus!
