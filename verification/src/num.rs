//! Decimal and hexadecimal text conversions used by the codecs: unsigned and
//! signed integers, and fixed-point decimals with a per-field scale (the
//! formats print die pitches with three fraction digits, yields with two,
//! and die sizes with five).

use vstd::prelude::*;
use crate::text::find_char;
use crate::text::find_char_spec;
use crate::text::lemma_find_char;
use crate::text::subrange_vec;

verus! {

pub open spec fn is_digit(c: char) -> bool {
    48 <= c as u32 <= 57
}

pub open spec fn digit_val(c: char) -> int {
    c as u32 - 48
}

pub open spec fn all_digits(s: Seq<char>) -> bool {
    forall|i: int| 0 <= i < s.len() ==> is_digit(s[i])
}

/// The numeric value of a digit string, read most-significant first.
pub open spec fn dec_val(s: Seq<char>) -> int
    decreases s.len(),
{
    if s.len() == 0 {
        0
    } else {
        dec_val(s.drop_last()) * 10 + digit_val(s.last())
    }
}

pub open spec fn pow10(n: nat) -> int
    decreases n,
{
    if n == 0 {
        1
    } else {
        10 * pow10((n - 1) as nat)
    }
}

pub proof fn lemma_pow10_pos(n: nat)
    ensures
        pow10(n) >= 1,
    decreases n,
{
    if n > 0 {
        lemma_pow10_pos((n - 1) as nat);
    }
}

pub proof fn lemma_pow10_adds(a: nat, b: nat)
    ensures
        pow10(a + b) == pow10(a) * pow10(b),
    decreases a,
{
    if a == 0 {
    } else {
        lemma_pow10_adds((a - 1) as nat, b);
        assert(pow10(a + b) == 10 * pow10((a + b - 1) as nat));
        assert(pow10(a) * pow10(b) == 10 * (pow10((a - 1) as nat) * pow10(b)))
            by (nonlinear_arith)
            requires
                pow10(a) == 10 * pow10((a - 1) as nat),
        ;
    }
}

pub proof fn lemma_dec_val_bounds(s: Seq<char>)
    requires
        all_digits(s),
    ensures
        0 <= dec_val(s) < pow10(s.len()),
    decreases s.len(),
{
    if s.len() == 0 {
    } else {
        assert(all_digits(s.drop_last()));
        lemma_dec_val_bounds(s.drop_last());
        assert(is_digit(s.last()));
        assert(dec_val(s.drop_last()) * 10 + digit_val(s.last()) < pow10(s.len()))
            by (nonlinear_arith)
            requires
                0 <= dec_val(s.drop_last()) < pow10((s.len() - 1) as nat),
                0 <= digit_val(s.last()) <= 9,
                pow10(s.len()) == 10 * pow10((s.len() - 1) as nat),
        ;
    }
}

pub proof fn lemma_dec_val_lower(s: Seq<char>)
    requires
        all_digits(s),
        s.len() >= 1,
        s[0] != '0',
    ensures
        dec_val(s) >= pow10((s.len() - 1) as nat),
    decreases s.len(),
{
    if s.len() == 1 {
        assert(is_digit(s[0]));
        crate::text::lemma_char_eq_cp(s[0], '0');
        assert(digit_val(s[0]) >= 1);
    } else {
        assert(all_digits(s.drop_last()));
        assert(s.drop_last()[0] == s[0]);
        lemma_dec_val_lower(s.drop_last());
        lemma_dec_val_bounds(s);
        assert(dec_val(s.drop_last()) * 10 + digit_val(s.last()) >= pow10((s.len() - 1) as nat))
            by (nonlinear_arith)
            requires
                dec_val(s.drop_last()) >= pow10((s.len() - 2) as nat),
                digit_val(s.last()) >= 0,
                pow10((s.len() - 1) as nat) == 10 * pow10((s.len() - 2) as nat),
        ;
    }
}

/// Splitting a digit string: the value is the prefix value shifted by the
/// suffix length, plus the suffix value.
pub proof fn lemma_dec_val_split(s: Seq<char>, i: int)
    requires
        0 <= i <= s.len(),
    ensures
        dec_val(s) == dec_val(s.subrange(0, i)) * pow10((s.len() - i) as nat) + dec_val(
            s.subrange(i, s.len() as int),
        ),
    decreases s.len() - i,
{
    if i == s.len() {
        assert(s.subrange(0, i) =~= s);
        assert(dec_val(s.subrange(i, s.len() as int)) == 0);
    } else {
        lemma_dec_val_split(s.drop_last(), i);
        assert(s.drop_last().subrange(0, i) =~= s.subrange(0, i));
        assert(s.drop_last().subrange(i, s.len() - 1) =~= s.subrange(i, s.len() as int).drop_last());
        let p = dec_val(s.subrange(0, i));
        let q = dec_val(s.subrange(i, s.len() as int).drop_last());
        let d = digit_val(s.last());
        let k = (s.len() - 1 - i) as nat;
        assert(s.subrange(i, s.len() as int).last() == s.last());
        assert(dec_val(s.subrange(i, s.len() as int)) == q * 10 + d);
        assert(dec_val(s) == (p * pow10(k) + q) * 10 + d);
        assert((p * pow10(k) + q) * 10 + d == p * (10 * pow10(k)) + (q * 10 + d))
            by (nonlinear_arith)
        ;
        assert(pow10(k + 1) == 10 * pow10(k));
    }
}

pub proof fn lemma_dec_val_zeros(s: Seq<char>)
    requires
        forall|i: int| 0 <= i < s.len() ==> s[i] == '0',
    ensures
        dec_val(s) == 0,
    decreases s.len(),
{
    if s.len() > 0 {
        lemma_dec_val_zeros(s.drop_last());
        assert(digit_val('0') == 0);
    }
}

/// A `u32` read from decimal text the way `str::parse::<u32>` reads it: an
/// optional leading `+`, then one or more digits, and a value that fits.
pub open spec fn parse_u32_spec(s: Seq<char>) -> Option<u32> {
    let ds = if s.len() > 0 && s[0] == '+' {
        s.drop_first()
    } else {
        s
    };
    if ds.len() > 0 && all_digits(ds) && dec_val(ds) <= u32::MAX {
        Some(dec_val(ds) as u32)
    } else {
        None
    }
}

/// Parses the digit run `v[from..]` as a `u64` bounded by `max`; `None` when
/// empty, when a non-digit occurs, or when the value exceeds `max`.
pub fn parse_digits_bounded(v: &Vec<char>, from: usize, max: u64) -> (r: Option<u64>)
    requires
        from <= v@.len(),
        max >= 9,
    ensures
        ({
            let ds = v@.subrange(from as int, v@.len() as int);
            match r {
                Some(n) => ds.len() > 0 && all_digits(ds) && dec_val(ds) == n && n <= max,
                None => !(ds.len() > 0 && all_digits(ds) && dec_val(ds) <= max),
            }
        }),
{
    let ghost ds = v@.subrange(from as int, v@.len() as int);
    if from == v.len() {
        return None;
    }
    let mut acc: u64 = 0;
    let mut j: usize = from;
    while j < v.len()
        invariant
            from <= j <= v@.len(),
            max >= 9,
            ds == v@.subrange(from as int, v@.len() as int),
            acc == dec_val(v@.subrange(from as int, j as int)),
            acc <= max,
            all_digits(v@.subrange(from as int, j as int)),
        decreases v@.len() - j,
    {
        let c = v[j];
        let cp = c as u32;
        proof {
            assert(v@.subrange(from as int, j + 1 as int).drop_last() =~= v@.subrange(
                from as int,
                j as int,
            ));
            assert(v@.subrange(from as int, j + 1 as int).last() == v@[j as int]);
        }
        if !(48 <= cp && cp <= 57) {
            proof {
                assert(ds[j - from] == v@[j as int]);
                assert(!is_digit(ds[j - from]));
            }
            return None;
        }
        let d = (cp - 48) as u64;
        let q = (max - d) / 10;
        proof {
            assert(10 * q <= max - d < 10 * q + 10) by (nonlinear_arith)
                requires
                    q == (max - d) / 10,
                    0 <= max - d,
            ;
        }
        if acc > q {
            proof {
                let pre = v@.subrange(from as int, j + 1 as int);
                assert(all_digits(pre));
                assert(dec_val(pre) == acc * 10 + d);
                assert(acc * 10 + d > max) by (nonlinear_arith)
                    requires
                        acc >= q + 1,
                        10 * q + 10 > max - d,
                        d >= 0,
                ;
                if all_digits(ds) && dec_val(ds) <= max {
                    lemma_dec_val_split(ds, j + 1 - from);
                    assert(ds.subrange(0, j + 1 - from) =~= pre);
                    let rest = ds.subrange(j + 1 - from, ds.len() as int);
                    assert(all_digits(rest)) by {
                        assert(forall|t: int|
                            0 <= t < rest.len() ==> rest[t] == ds[j + 1 - from + t]);
                    }
                    lemma_dec_val_bounds(rest);
                    lemma_pow10_pos(rest.len());
                    assert(dec_val(ds) >= dec_val(pre)) by (nonlinear_arith)
                        requires
                            dec_val(ds) == dec_val(pre) * pow10(rest.len()) + dec_val(rest),
                            pow10(rest.len()) >= 1,
                            dec_val(rest) >= 0,
                            dec_val(pre) >= 0,
                    ;
                    assert(false);
                }
            }
            return None;
        }
        proof {
            assert(acc * 10 + d <= max) by (nonlinear_arith)
                requires
                    acc <= q,
                    10 * q <= max - d,
                    d >= 0,
            ;
        }
        acc = acc * 10 + d;
        j = j + 1;
    }
    proof {
        assert(v@.subrange(from as int, j as int) =~= ds);
    }
    Some(acc)
}

/// A `u32` read from the whole of `v`, as `str::parse::<u32>` would read it.
pub fn parse_u32(v: &Vec<char>) -> (r: Option<u32>)
    ensures
        r == parse_u32_spec(v@),
{
    let from: usize = if v.len() > 0 && v[0] == '+' {
        1
    } else {
        0
    };
    proof {
        if from == 1 {
            assert(v@.subrange(1, v@.len() as int) =~= v@.drop_first());
        } else {
            assert(v@.subrange(0, v@.len() as int) =~= v@);
        }
    }
    match parse_digits_bounded(v, from, u32::MAX as u64) {
        Some(n) => Some(n as u32),
        None => None,
    }
}

/// An `i32` read from decimal text the way `str::parse::<i32>` reads it: an
/// optional sign, then one or more digits, and a value that fits.
pub open spec fn parse_i32_spec(s: Seq<char>) -> Option<i32> {
    let neg = s.len() > 0 && s[0] == '-';
    let ds = if s.len() > 0 && (s[0] == '-' || s[0] == '+') {
        s.drop_first()
    } else {
        s
    };
    if ds.len() > 0 && all_digits(ds) {
        let m = if neg {
            -dec_val(ds)
        } else {
            dec_val(ds)
        };
        if i32::MIN <= m <= i32::MAX {
            Some(m as i32)
        } else {
            None
        }
    } else {
        None
    }
}

pub fn parse_i32(v: &Vec<char>) -> (r: Option<i32>)
    ensures
        r == parse_i32_spec(v@),
{
    let neg = v.len() > 0 && v[0] == '-';
    let from: usize = if v.len() > 0 && (v[0] == '-' || v[0] == '+') {
        1
    } else {
        0
    };
    proof {
        if from == 1 {
            assert(v@.subrange(1, v@.len() as int) =~= v@.drop_first());
        } else {
            assert(v@.subrange(0, v@.len() as int) =~= v@);
        }
    }
    if neg {
        match parse_digits_bounded(v, from, 0x8000_0000u64) {
            Some(n) => {
                if n == 0x8000_0000u64 {
                    Some(i32::MIN)
                } else {
                    Some(-(n as i32))
                }
            },
            None => None,
        }
    } else {
        match parse_digits_bounded(v, from, i32::MAX as u64) {
            Some(n) => Some(n as i32),
            None => None,
        }
    }
}

/// Whether every character of `v` is a decimal digit.
pub fn check_digits(v: &Vec<char>) -> (r: bool)
    ensures
        r == all_digits(v@),
{
    let mut i: usize = 0;
    while i < v.len()
        invariant
            i <= v@.len(),
            forall|j: int| 0 <= j < i ==> is_digit(v@[j]),
        decreases v@.len() - i,
    {
        let cp = v[i] as u32;
        if !(48 <= cp && cp <= 57) {
            return false;
        }
        i = i + 1;
    }
    true
}

/// The decimal digit character for `d`.
pub open spec fn digit_char(d: int) -> char {
    if d == 0 {
        '0'
    } else if d == 1 {
        '1'
    } else if d == 2 {
        '2'
    } else if d == 3 {
        '3'
    } else if d == 4 {
        '4'
    } else if d == 5 {
        '5'
    } else if d == 6 {
        '6'
    } else if d == 7 {
        '7'
    } else if d == 8 {
        '8'
    } else {
        '9'
    }
}

/// The decimal text of `n`, most-significant digit first, no sign, no
/// leading zeros (a single `0` for zero).
pub open spec fn dec_str(n: nat) -> Seq<char>
    decreases n,
{
    if n < 10 {
        seq![digit_char(n as int)]
    } else {
        dec_str(n / 10).push(digit_char((n % 10) as int))
    }
}

/// The decimal text of `n` with a leading `-` when `n` is negative.
pub open spec fn int_str(n: int) -> Seq<char> {
    if n < 0 {
        seq!['-'] + dec_str((-n) as nat)
    } else {
        dec_str(n as nat)
    }
}

fn digit_char_exec(d: u64) -> (c: char)
    requires
        d <= 9,
    ensures
        c == digit_char(d as int),
{
    match d {
        0 => '0',
        1 => '1',
        2 => '2',
        3 => '3',
        4 => '4',
        5 => '5',
        6 => '6',
        7 => '7',
        8 => '8',
        _ => '9',
    }
}

/// The decimal text of `n`.
pub fn fmt_u64(n: u64) -> (v: Vec<char>)
    ensures
        v@ == dec_str(n as nat),
    decreases n,
{
    if n < 10 {
        let mut v: Vec<char> = Vec::new();
        v.push(digit_char_exec(n));
        proof {
            assert(v@ =~= dec_str(n as nat));
        }
        v
    } else {
        let mut v = fmt_u64(n / 10);
        v.push(digit_char_exec(n % 10));
        v
    }
}

/// The decimal text of `n`, signed.
pub fn fmt_i64(n: i64) -> (v: Vec<char>)
    requires
        n > i64::MIN,
    ensures
        v@ == int_str(n as int),
{
    if n < 0 {
        let mut v: Vec<char> = Vec::new();
        v.push('-');
        let mut d = fmt_u64((-n) as u64);
        let ghost dv = d@;
        v.append(&mut d);
        proof {
            assert(v@ =~= seq!['-'] + dv);
        }
        v
    } else {
        fmt_u64(n as u64)
    }
}

pub proof fn lemma_dec_str_digits(n: nat)
    ensures
        dec_str(n).len() >= 1,
        all_digits(dec_str(n)),
        dec_val(dec_str(n)) == n,
    decreases n,
{
    if n < 10 {
        assert(dec_str(n) == seq![digit_char(n as int)]);
        assert(is_digit(digit_char(n as int)));
        assert(digit_val(digit_char(n as int)) == n);
        assert(dec_str(n).drop_last() =~= Seq::<char>::empty());
        assert(dec_val(dec_str(n)) == dec_val(dec_str(n).drop_last()) * 10 + digit_val(
            dec_str(n).last(),
        ));
        assert(dec_val(dec_str(n)) == n);
    } else {
        lemma_dec_str_digits(n / 10);
        let s = dec_str(n);
        assert(s == dec_str(n / 10).push(digit_char((n % 10) as int)));
        assert(s.drop_last() =~= dec_str(n / 10));
        assert(is_digit(digit_char((n % 10) as int)));
        assert(digit_val(digit_char((n % 10) as int)) == n % 10);
        assert(forall|i: int| 0 <= i < s.len() - 1 ==> s[i] == dec_str(n / 10)[i]);
        assert(dec_val(s) == dec_val(dec_str(n / 10)) * 10 + (n % 10));
        assert(n == (n / 10) * 10 + n % 10) by (nonlinear_arith);
    }
}

pub proof fn lemma_pow10_mono(a: nat, b: nat)
    requires
        a <= b,
    ensures
        pow10(a) <= pow10(b),
    decreases b,
{
    if a < b {
        lemma_pow10_mono(a, (b - 1) as nat);
        lemma_pow10_pos((b - 1) as nat);
    }
}

/// `pow10(19)` is the largest power of ten that fits in a `u64`.
pub proof fn lemma_pow10_19()
    ensures
        pow10(19) == 10_000_000_000_000_000_000,
{
    reveal_with_fuel(pow10, 21);
}

pub fn pow10_u64(e: u32) -> (r: u64)
    requires
        e <= 19,
    ensures
        r as int == pow10(e as nat),
{
    proof {
        lemma_pow10_19();
    }
    let mut r: u64 = 1;
    let mut i: u32 = 0;
    while i < e
        invariant
            i <= e <= 19,
            r as int == pow10(i as nat),
            pow10(19) == 10_000_000_000_000_000_000,
        decreases e - i,
    {
        proof {
            lemma_pow10_mono((i + 1) as nat, 19);
            lemma_pow10_pos(i as nat);
        }
        r = r * 10;
        i = i + 1;
    }
    r
}

/// The value of a fraction-digit string scaled to `scale` places: digits
/// beyond `scale` are dropped, missing places count as zeros.
pub open spec fn frac_val(f: Seq<char>, scale: nat) -> int {
    if f.len() >= scale {
        dec_val(f.subrange(0, scale as int))
    } else {
        dec_val(f) * pow10((scale - f.len()) as nat)
    }
}

/// A fixed-point decimal read from text: an optional sign, digits with at
/// most one point, at least one digit in all, and a scaled value
/// `round-toward-zero(text * 10^scale)` that fits symmetrically in an `i64`.
pub open spec fn parse_scaled_spec(s: Seq<char>, scale: nat) -> Option<i64> {
    let neg = s.len() > 0 && s[0] == '-';
    let body = if s.len() > 0 && (s[0] == '-' || s[0] == '+') {
        s.drop_first()
    } else {
        s
    };
    let dot = find_char_spec(body, '.');
    let ip = if dot == -1 {
        body
    } else {
        body.subrange(0, dot)
    };
    let fp = if dot == -1 {
        Seq::<char>::empty()
    } else {
        body.subrange(dot + 1, body.len() as int)
    };
    if ip.len() + fp.len() > 0 && all_digits(ip) && all_digits(fp) {
        let m = dec_val(ip) * pow10(scale) + frac_val(fp, scale);
        let v = if neg {
            -m
        } else {
            m
        };
        if -(i64::MAX as int) <= v <= i64::MAX as int {
            Some(v as i64)
        } else {
            None
        }
    } else {
        None
    }
}

#[verifier::rlimit(100)]
pub fn parse_scaled(v: &Vec<char>, scale: u32) -> (r: Option<i64>)
    requires
        1 <= scale <= 9,
    ensures
        r == parse_scaled_spec(v@, scale as nat),
{
    let neg = v.len() > 0 && v[0] == '-';
    let from: usize = if v.len() > 0 && (v[0] == '-' || v[0] == '+') {
        1
    } else {
        0
    };
    let body = subrange_vec(v, from, v.len());
    proof {
        if from == 1 {
            assert(body@ =~= v@.drop_first());
        } else {
            assert(body@ =~= v@);
        }
        lemma_find_char(body@, '.');
    }
    let (ip, fp): (Vec<char>, Vec<char>) = match find_char(&body, '.') {
        Some(d) => {
            let a = subrange_vec(&body, 0, d);
            let b = subrange_vec(&body, d + 1, body.len());
            (a, b)
        },
        None => {
            proof {
                assert(body@.subrange(0, body@.len() as int) =~= body@);
            }
            (body, Vec::new())
        },
    };
    if ip.len() == 0 && fp.len() == 0 {
        return None;
    }
    if !check_digits(&ip) {
        return None;
    }
    if !check_digits(&fp) {
        return None;
    }
    match scaled_magnitude(&ip, &fp, scale) {
        Some(mi) => {
            if neg {
                Some(-mi)
            } else {
                Some(mi)
            }
        },
        None => None,
    }
}

/// The scaled magnitude `dec_val(ip) * 10^scale + frac_val(fp, scale)` when
/// it fits an `i64`, for digit strings `ip` and `fp`.
#[verifier::rlimit(100)]
fn scaled_magnitude(ip: &Vec<char>, fp: &Vec<char>, scale: u32) -> (r: Option<i64>)
    requires
        all_digits(ip@),
        all_digits(fp@),
        1 <= scale <= 9,
    ensures
        ({
            let m = dec_val(ip@) * pow10(scale as nat) + frac_val(fp@, scale as nat);
            match r {
                Some(n) => n >= 0 && n as int == m,
                None => m > i64::MAX as int,
            }
        }),
{
    proof {
        lemma_dec_val_bounds(ip@);
        lemma_dec_val_bounds(fp@);
        lemma_pow10_pos(scale as nat);
        lemma_pow10_19();
    }
    // Strip the leading zeros of the integer part so that its digit count
    // bounds its value.
    let mut z: usize = 0;
    while z < ip.len() && ip[z] == '0'
        invariant
            z <= ip@.len(),
            forall|j: int| 0 <= j < z ==> ip@[j] == '0',
        decreases ip@.len() - z,
    {
        z = z + 1;
    }
    let ghost ip2 = ip@.subrange(z as int, ip@.len() as int);
    proof {
        lemma_dec_val_split(ip@, z as int);
        lemma_dec_val_zeros(ip@.subrange(0, z as int));
        assert(dec_val(ip@) == dec_val(ip2)) by (nonlinear_arith)
            requires
                dec_val(ip@) == dec_val(ip@.subrange(0, z as int)) * pow10(
                    (ip@.len() - z) as nat,
                ) + dec_val(ip2),
                dec_val(ip@.subrange(0, z as int)) == 0,
        ;
        assert(all_digits(ip2)) by {
            assert(forall|t: int| 0 <= t < ip2.len() ==> ip2[t] == ip@[z + t]);
        }
    }
    let iplen2 = ip.len() - z;
    let limit = 19 - scale as usize;
    if iplen2 > limit {
        proof {
            assert(ip2.len() > 0);
            assert(ip2[0] == ip@[z as int]);
            crate::text::lemma_char_eq_cp(ip2[0], '0');
            lemma_dec_val_lower(ip2);
            lemma_pow10_adds((ip2.len() - 1) as nat, scale as nat);
            lemma_pow10_mono(19, (ip2.len() - 1 + scale) as nat);
            let m = dec_val(ip@) * pow10(scale as nat) + frac_val(fp@, scale as nat);
            assert(frac_val(fp@, scale as nat) >= 0) by {
                if fp@.len() >= scale as nat {
                    lemma_dec_val_bounds(fp@.subrange(0, scale as int));
                } else {
                    lemma_pow10_pos((scale - fp@.len()) as nat);
                    assert(dec_val(fp@) * pow10((scale - fp@.len()) as nat) >= 0)
                        by (nonlinear_arith)
                        requires
                            dec_val(fp@) >= 0,
                            pow10((scale - fp@.len()) as nat) >= 0,
                    ;
                }
            }
            assert(m > i64::MAX as int) by (nonlinear_arith)
                requires
                    dec_val(ip@) == dec_val(ip2),
                    dec_val(ip2) >= pow10((ip2.len() - 1) as nat),
                    pow10((ip2.len() - 1) as nat) * pow10(scale as nat) == pow10(
                        (ip2.len() - 1 + scale) as nat,
                    ),
                    pow10((ip2.len() - 1 + scale) as nat) >= pow10(19),
                    pow10(19) == 10_000_000_000_000_000_000,
                    pow10(scale as nat) >= 1,
                    frac_val(fp@, scale as nat) >= 0,
                    m == dec_val(ip@) * pow10(scale as nat) + frac_val(fp@, scale as nat),
            ;
        }
        return None;
    }
    // Integer-part value: fewer than twenty digits, so it fits a `u64`.
    let ipv: u64 = if z == ip.len() {
        proof {
            assert(ip2.len() == 0);
        }
        0
    } else {
        proof {
            lemma_dec_val_bounds(ip2);
            lemma_pow10_mono(ip2.len(), 18);
            lemma_pow10_19();
            lemma_pow10_mono(18, 19);
        }
        match parse_digits_bounded(&ip, z, u64::MAX) {
            Some(n) => n,
            None => {
                proof {
                    assert(false);
                }
                return None;
            },
        }
    };
    proof {
        assert(ipv == dec_val(ip@));
        assert(ipv < pow10((19 - scale) as nat)) by {
            lemma_dec_val_bounds(ip2);
            lemma_pow10_mono(ip2.len(), (19 - scale) as nat);
        }
    }
    // Fraction value, scaled to exactly `scale` places.
    let take: usize = if fp.len() >= scale as usize {
        scale as usize
    } else {
        fp.len()
    };
    let fq = subrange_vec(&fp, 0, take);
    proof {
        assert(all_digits(fq@)) by {
            assert(forall|t: int| 0 <= t < fq@.len() ==> fq@[t] == fp@[t]);
        }
        lemma_dec_val_bounds(fq@);
        lemma_pow10_mono(fq@.len(), 9);
        lemma_pow10_mono(9, 19);
    }
    let f0: u64 = if take == 0 {
        0
    } else {
        match parse_digits_bounded(&fq, 0, u64::MAX) {
            Some(n) => n,
            None => {
                proof {
                    assert(fq@.subrange(0, fq@.len() as int) =~= fq@);
                    assert(false);
                }
                return None;
            },
        }
    };
    proof {
        assert(fq@.subrange(0, fq@.len() as int) =~= fq@);
        assert(f0 == dec_val(fq@));
    }
    let fv: u64 = if fp.len() >= scale as usize {
        proof {
            assert(fq@ =~= fp@.subrange(0, scale as int));
        }
        f0
    } else {
        proof {
            assert(fq@ =~= fp@);
            lemma_pow10_mono((scale - fp@.len()) as nat, 9);
            lemma_pow10_pos((scale - fp@.len()) as nat);
            assert(dec_val(fp@) * pow10((scale - fp@.len()) as nat) < pow10(scale as nat)) by {
                lemma_pow10_adds(fp@.len(), (scale - fp@.len()) as nat);
                assert(dec_val(fp@) * pow10((scale - fp@.len()) as nat) < pow10(fp@.len())
                    * pow10((scale - fp@.len()) as nat)) by (nonlinear_arith)
                    requires
                        dec_val(fp@) < pow10(fp@.len()),
                        pow10((scale - fp@.len()) as nat) >= 1,
                ;
            }
            lemma_pow10_mono(scale as nat, 9);
        }
        f0 * pow10_u64(scale - fp.len() as u32)
    };
    proof {
        assert(fv == frac_val(fp@, scale as nat));
        assert(fv < pow10(scale as nat)) by {
            if fp@.len() >= scale as nat {
                lemma_dec_val_bounds(fp@.subrange(0, scale as int));
            }
        }
        lemma_pow10_mono(scale as nat, 9);
    }
    let p = pow10_u64(scale);
    proof {
        lemma_pow10_adds((19 - scale) as nat, scale as nat);
        lemma_pow10_19();
        assert(ipv * p < pow10(19)) by (nonlinear_arith)
            requires
                ipv < pow10((19 - scale) as nat),
                p >= 1,
                p == pow10(scale as nat),
                pow10((19 - scale) as nat) * pow10(scale as nat) == pow10(19),
                ipv >= 0,
        ;
        assert(pow10(9) == 1_000_000_000) by {
            reveal_with_fuel(pow10, 11);
        }
        lemma_pow10_mono(scale as nat, 9);
    }
    let m: u64 = ipv * p + fv;
    if m > i64::MAX as u64 {
        return None;
    }
    Some(m as i64)
}

pub proof fn lemma_dec_str_len(n: nat, k: nat)
    requires
        k >= 1,
        n < pow10(k),
    ensures
        dec_str(n).len() <= k,
    decreases n,
{
    if n >= 10 {
        assert(pow10(k) == 10 * pow10((k - 1) as nat));
        lemma_pow10_pos((k - 1) as nat);
        assert(n / 10 < pow10((k - 1) as nat)) by (nonlinear_arith)
            requires
                n < 10 * pow10((k - 1) as nat),
                n >= 10,
                pow10((k - 1) as nat) >= 1,
        ;
        lemma_dec_str_len(n / 10, (k - 1) as nat);
    }
}

/// `n` copies of the character `c`.
pub open spec fn char_repeat(c: char, n: nat) -> Seq<char> {
    Seq::new(n, |i: int| c)
}

/// `s` left-padded with `c` up to width `w`.
pub open spec fn pad_left(s: Seq<char>, c: char, w: nat) -> Seq<char> {
    if s.len() >= w {
        s
    } else {
        char_repeat(c, (w - s.len()) as nat) + s
    }
}

/// `s` right-padded with spaces up to width `w`.
pub open spec fn pad_right(s: Seq<char>, w: nat) -> Seq<char> {
    if s.len() >= w {
        s
    } else {
        s + char_repeat(' ', (w - s.len()) as nat)
    }
}

/// Appends `n` copies of `c` to `out`.
pub fn push_repeat(out: &mut Vec<char>, c: char, n: usize)
    ensures
        final(out)@ == old(out)@ + char_repeat(c, n as nat),
{
    let mut i: usize = 0;
    while i < n
        invariant
            i <= n,
            out@ == old(out)@ + char_repeat(c, i as nat),
        decreases n - i,
    {
        out.push(c);
        proof {
            assert(out@ =~= old(out)@ + char_repeat(c, (i + 1) as nat));
        }
        i = i + 1;
    }
}

/// `v` rendered with exactly `scale` fraction digits, as the equipment
/// formats print their fixed-point fields.
pub open spec fn scaled_str(v: int, scale: nat) -> Seq<char> {
    let a = if v < 0 {
        -v
    } else {
        v
    };
    let sign: Seq<char> = if v < 0 {
        seq!['-']
    } else {
        Seq::<char>::empty()
    };
    sign + dec_str((a / pow10(scale)) as nat) + seq!['.'] + pad_left(
        dec_str((a % pow10(scale)) as nat),
        '0',
        scale,
    )
}

pub fn fmt_scaled(v: i64, scale: u32) -> (out: Vec<char>)
    requires
        v > i64::MIN,
        1 <= scale <= 9,
    ensures
        out@ == scaled_str(v as int, scale as nat),
{
    let a: u64 = if v < 0 {
        (-v) as u64
    } else {
        v as u64
    };
    let p = pow10_u64(scale);
    proof {
        lemma_pow10_pos(scale as nat);
    }
    let ipart = a / p;
    let fpart = a % p;
    let mut out: Vec<char> = Vec::new();
    if v < 0 {
        out.push('-');
    }
    let mut ds = fmt_u64(ipart);
    let ghost dsv = ds@;
    out.append(&mut ds);
    out.push('.');
    let mut fs = fmt_u64(fpart);
    proof {
        lemma_dec_str_len(fpart as nat, scale as nat);
    }
    let pad = scale as usize - fs.len();
    push_repeat(&mut out, '0', pad);
    let ghost fsv = fs@;
    out.append(&mut fs);
    proof {
        assert(char_repeat('0', pad as nat) + fsv =~= pad_left(fsv, '0', scale as nat));
        if v < 0 {
            assert(out@ =~= seq!['-'] + dsv + seq!['.'] + pad_left(fsv, '0', scale as nat));
        } else {
            assert(out@ =~= dsv + seq!['.'] + pad_left(fsv, '0', scale as nat));
            assert(Seq::<char>::empty() + dsv =~= dsv);
        }
    }
    out
}

/// The value of a hexadecimal digit, or -1 for any other character.
pub open spec fn hex_val(c: char) -> int {
    if 48 <= c as u32 <= 57 {
        c as u32 - 48
    } else if 97 <= c as u32 <= 102 {
        c as u32 - 87
    } else if 65 <= c as u32 <= 70 {
        c as u32 - 55
    } else {
        -1
    }
}

pub open spec fn is_hex_digit(c: char) -> bool {
    hex_val(c) >= 0
}

/// The byte encoded by two hexadecimal digits, case-insensitively.
pub open spec fn hex_pair_val(a: char, b: char) -> int {
    hex_val(a) * 16 + hex_val(b)
}

/// The byte value of the two hex digits `a`, `b`, if both are hex digits.
pub fn parse_hex_pair(a: char, b: char) -> (r: Option<u8>)
    ensures
        match r {
            Some(n) => is_hex_digit(a) && is_hex_digit(b) && n == hex_pair_val(a, b),
            None => !(is_hex_digit(a) && is_hex_digit(b)),
        },
{
    let x = hex_digit_exec(a);
    let y = hex_digit_exec(b);
    if x > 15 || y > 15 {
        return None;
    }
    Some(x * 16 + y)
}

fn hex_digit_exec(c: char) -> (r: u8)
    ensures
        is_hex_digit(c) ==> r == hex_val(c),
        !is_hex_digit(c) ==> r == 255,
{
    let cp = c as u32;
    if 48 <= cp && cp <= 57 {
        (cp - 48) as u8
    } else if 97 <= cp && cp <= 102 {
        (cp - 87) as u8
    } else if 65 <= cp && cp <= 70 {
        (cp - 55) as u8
    } else {
        255
    }
}

/// The upper-case hexadecimal digit character for `d`.
pub open spec fn hex_digit_upper(d: int) -> char {
    if d < 10 {
        digit_char(d)
    } else if d == 10 {
        'A'
    } else if d == 11 {
        'B'
    } else if d == 12 {
        'C'
    } else if d == 13 {
        'D'
    } else if d == 14 {
        'E'
    } else {
        'F'
    }
}

/// A byte as two upper-case hexadecimal digits.
pub open spec fn hex2_str(b: int) -> Seq<char> {
    seq![hex_digit_upper(b / 16), hex_digit_upper(b % 16)]
}

fn hex_digit_upper_exec(d: u8) -> (c: char)
    requires
        d <= 15,
    ensures
        c == hex_digit_upper(d as int),
{
    match d {
        0 => '0',
        1 => '1',
        2 => '2',
        3 => '3',
        4 => '4',
        5 => '5',
        6 => '6',
        7 => '7',
        8 => '8',
        9 => '9',
        10 => 'A',
        11 => 'B',
        12 => 'C',
        13 => 'D',
        14 => 'E',
        _ => 'F',
    }
}

/// `b` as two upper-case hex digits, appended to `out`.
pub fn push_hex2(out: &mut Vec<char>, b: u8)
    ensures
        final(out)@ == old(out)@ + hex2_str(b as int),
{
    out.push(hex_digit_upper_exec(b / 16));
    out.push(hex_digit_upper_exec(b % 16));
    proof {
        assert(out@ =~= old(out)@ + hex2_str(b as int));
    }
}

/// A character that can occur in a formatted number: a digit, a sign, or a
/// decimal point.
pub open spec fn is_plain_char(c: char) -> bool {
    is_digit(c) || c == '-' || c == '.'
}

pub open spec fn all_plain(s: Seq<char>) -> bool {
    forall|i: int| 0 <= i < s.len() ==> is_plain_char(#[trigger] s[i])
}

/// Plain characters are not whitespace, newlines, percent signs or colons.
pub proof fn lemma_plain_char_props(c: char)
    requires
        is_plain_char(c),
    ensures
        !crate::text::is_ws_char(c),
        c != '\n',
        c != '%',
        c != ':',
{
    if is_digit(c) {
        crate::text::lemma_char_eq_cp(c, ' ');
        crate::text::lemma_char_eq_cp(c, '\t');
        crate::text::lemma_char_eq_cp(c, '\r');
        crate::text::lemma_char_eq_cp(c, '\n');
        crate::text::lemma_char_eq_cp(c, '\u{000B}');
        crate::text::lemma_char_eq_cp(c, '\u{000C}');
        crate::text::lemma_char_eq_cp(c, '%');
        crate::text::lemma_char_eq_cp(c, ':');
    }
}

pub proof fn lemma_dec_str_plain(n: nat)
    ensures
        all_plain(dec_str(n)),
    decreases n,
{
    if n < 10 {
    } else {
        lemma_dec_str_plain(n / 10);
        let s = dec_str(n);
        assert forall|i: int| 0 <= i < s.len() implies is_plain_char(#[trigger] s[i]) by {
            if i < s.len() - 1 {
                assert(s[i] == dec_str(n / 10)[i]);
            }
        }
    }
}

pub proof fn lemma_int_str_plain(n: int)
    ensures
        all_plain(int_str(n)),
{
    if n < 0 {
        lemma_dec_str_plain((-n) as nat);
        let s = int_str(n);
        assert forall|i: int| 0 <= i < s.len() implies is_plain_char(#[trigger] s[i]) by {
            if i > 0 {
                assert(s[i] == dec_str((-n) as nat)[i - 1]);
            }
        }
    } else {
        lemma_dec_str_plain(n as nat);
    }
}

pub proof fn lemma_scaled_str_plain(v: int, scale: nat)
    ensures
        all_plain(scaled_str(v, scale)),
{
    let a = if v < 0 {
        -v
    } else {
        v
    };
    let d = dec_str((a / pow10(scale)) as nat);
    let f0 = dec_str((a % pow10(scale)) as nat);
    let f = pad_left(f0, '0', scale);
    lemma_dec_str_plain((a / pow10(scale)) as nat);
    lemma_dec_str_plain((a % pow10(scale)) as nat);
    assert(all_plain(f)) by {
        assert forall|i: int| 0 <= i < f.len() implies is_plain_char(#[trigger] f[i]) by {
            if f0.len() < scale {
                if i < scale - f0.len() {
                    assert(f[i] == '0');
                } else {
                    assert(f[i] == f0[i - (scale - f0.len())]);
                }
            }
        }
    }
    let s = scaled_str(v, scale);
    let sign: Seq<char> = if v < 0 {
        seq!['-']
    } else {
        Seq::<char>::empty()
    };
    assert(s == sign + d + seq!['.'] + f);
    assert forall|i: int| 0 <= i < s.len() implies is_plain_char(#[trigger] s[i]) by {
        if i < sign.len() {
            assert(s[i] == '-');
        } else if i < sign.len() + d.len() {
            assert(s[i] == d[i - sign.len()]);
        } else if i == sign.len() + d.len() {
            assert(s[i] == '.');
        } else {
            assert(s[i] == f[i - sign.len() - d.len() - 1]);
        }
    }
}

/// A scale of at least one puts a digit at the very end of a formatted
/// fixed-point number.
pub proof fn lemma_scaled_str_last_digit(v: int, scale: nat)
    requires
        scale >= 1,
    ensures
        scaled_str(v, scale).len() > 0,
        is_digit(scaled_str(v, scale).last()),
{
    let a = if v < 0 {
        -v
    } else {
        v
    };
    let f0 = dec_str((a % pow10(scale)) as nat);
    let f = pad_left(f0, '0', scale);
    lemma_dec_str_digits((a % pow10(scale)) as nat);
    assert(f.len() > 0);
    assert(f.last() == f0.last()) by {
        if f0.len() < scale {
            assert(f[f.len() - 1] == f0[f0.len() - 1]);
        }
    }
    assert(is_digit(f0.last()));
    let s = scaled_str(v, scale);
    assert(s.last() == f.last());
}

/// Parsing inverts formatting for unsigned decimals.
pub proof fn lemma_parse_u32_round_trip(n: u32)
    ensures
        parse_u32_spec(dec_str(n as nat)) == Some(n),
{
    lemma_dec_str_digits(n as nat);
    assert(dec_str(n as nat)[0] != '+') by {
        assert(is_digit(dec_str(n as nat)[0]));
        crate::text::lemma_char_eq_cp(dec_str(n as nat)[0], '+');
    }
}

/// Parsing inverts formatting for signed decimals.
pub proof fn lemma_parse_i32_round_trip(n: i32)
    ensures
        parse_i32_spec(int_str(n as int)) == Some(n),
{
    let s = int_str(n as int);
    if n < 0 {
        let d = dec_str((-n) as nat);
        lemma_dec_str_digits((-n) as nat);
        assert(s == seq!['-'] + d);
        assert(s[0] == '-');
        assert(s.drop_first() =~= d);
    } else {
        lemma_dec_str_digits(n as nat);
        assert(s == dec_str(n as nat));
        assert(is_digit(s[0]));
        crate::text::lemma_char_eq_cp(s[0], '-');
        crate::text::lemma_char_eq_cp(s[0], '+');
    }
}

/// Parsing inverts formatting for fixed-point decimals.
pub proof fn lemma_parse_scaled_round_trip(v: i64, scale: nat)
    requires
        v > i64::MIN,
        1 <= scale <= 9,
    ensures
        parse_scaled_spec(scaled_str(v as int, scale), scale) == Some(v),
{
    let a = if v < 0 {
        -(v as int)
    } else {
        v as int
    };
    lemma_pow10_pos(scale);
    let p = pow10(scale);
    let ipn = (a / p) as nat;
    let frn = (a % p) as nat;
    vstd::arithmetic::div_mod::lemma_fundamental_div_mod(a, p);
    vstd::arithmetic::div_mod::lemma_mod_bound(a, p);
    let d = dec_str(ipn);
    let f = pad_left(dec_str(frn), '0', scale);
    lemma_dec_str_digits(ipn);
    lemma_dec_str_digits(frn);
    lemma_dec_str_len(frn, scale);
    assert(all_digits(f) && f.len() == scale) by {
        assert(forall|i: int|
            0 <= i < scale - dec_str(frn).len() ==> f[i] == '0');
        assert(forall|i: int|
            scale - dec_str(frn).len() <= i < scale ==> f[i] == dec_str(frn)[i - (scale
                - dec_str(frn).len())]);
    }
    assert(dec_val(f) == frn) by {
        lemma_dec_val_split(f, (f.len() - dec_str(frn).len()) as int);
        lemma_dec_val_zeros(f.subrange(0, (f.len() - dec_str(frn).len()) as int));
        assert(f.subrange((f.len() - dec_str(frn).len()) as int, f.len() as int) =~= dec_str(
            frn,
        ));
        assert(f.subrange(0, (f.len() - dec_str(frn).len()) as int) =~= char_repeat(
            '0',
            (scale - dec_str(frn).len()) as nat,
        ));
        assert(dec_val(f) == 0 * pow10(dec_str(frn).len()) + frn) by (nonlinear_arith)
            requires
                dec_val(f) == dec_val(f.subrange(0, (f.len() - dec_str(frn).len()) as int))
                    * pow10(dec_str(frn).len()) + dec_val(
                    f.subrange((f.len() - dec_str(frn).len()) as int, f.len() as int),
                ),
                dec_val(f.subrange(0, (f.len() - dec_str(frn).len()) as int)) == 0,
                dec_val(f.subrange((f.len() - dec_str(frn).len()) as int, f.len() as int))
                    == frn,
        ;
    }
    let s = scaled_str(v as int, scale);
    let body = if v < 0 {
        s.drop_first()
    } else {
        s
    };
    assert(body =~= d + seq!['.'] + f);
    let dot = d.len() as int;
    assert(body[dot] == '.');
    assert(forall|j: int| 0 <= j < dot ==> body[j] == d[j]);
    assert(forall|j: int| 0 <= j < dot ==> body[j] != '.') by {
        assert forall|j: int| 0 <= j < dot implies body[j] != '.' by {
            assert(is_digit(d[j]));
            crate::text::lemma_char_eq_cp(d[j], '.');
        }
    }
    crate::text::lemma_find_char_at(body, '.', dot);
    assert(body.subrange(0, dot) =~= d);
    assert(body.subrange(dot + 1, body.len() as int) =~= f);
    if v < 0 {
        assert(s[0] == '-');
        assert(s.len() > 0);
    } else {
        assert(s[0] == d[0]);
        assert(is_digit(d[0]));
        crate::text::lemma_char_eq_cp(s[0], '-');
        crate::text::lemma_char_eq_cp(s[0], '+');
    }
    assert(dec_val(d) * pow10(scale) + frac_val(f, scale) == a) by {
        assert(f.subrange(0, scale as int) =~= f);
        assert(frac_val(f, scale) == dec_val(f.subrange(0, scale as int)));
        assert(frac_val(f, scale) == frn);
        assert(dec_val(d) == ipn);
        assert(a == p * (a / p) + a % p);
        assert(p * (a / p) == (a / p) * p) by (nonlinear_arith);
        assert(a == ipn * p + frn);
    }
}

/// Parsing inverts formatting for hex cell bytes.
pub proof fn lemma_hex2_round_trip(b: u8)
    ensures
        hex2_str(b as int).len() == 2,
        is_hex_digit(hex2_str(b as int)[0]),
        is_hex_digit(hex2_str(b as int)[1]),
        hex_pair_val(hex2_str(b as int)[0], hex2_str(b as int)[1]) == b,
{
    let hi = b as int / 16;
    let lo = b as int % 16;
    assert(0 <= hi <= 15 && 0 <= lo <= 15);
    assert(hex_val(hex_digit_upper(hi)) == hi);
    assert(hex_val(hex_digit_upper(lo)) == lo);
}

} // verus!
