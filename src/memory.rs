use vstd::prelude::*;
use vstd::string::{StrSliceExecFns, StringExecFns};

verus! {

pub open spec fn pow(base: nat, e: nat) -> nat
    decreases e,
{
    if e == 0 {
        1
    } else {
        base * pow(base, (e - 1) as nat)
    }
}

/// How many times 1024 divides into `b` while the quotient stays at least 1024, at most 4.
pub open spec fn unit_power(b: nat) -> nat {
    if b >= pow(1024, 4) {
        4
    } else if b >= pow(1024, 3) {
        3
    } else if b >= pow(1024, 2) {
        2
    } else if b >= 1024 {
        1
    } else {
        0
    }
}

pub open spec fn unit_name(k: nat) -> Seq<char> {
    if k == 0 {
        seq!['b']
    } else if k == 1 {
        seq!['K', 'b']
    } else if k == 2 {
        seq!['M', 'b']
    } else if k == 3 {
        seq!['G', 'b']
    } else {
        seq!['T', 'b']
    }
}

/// `n / d` rounded to the nearest integer, a tie to the even one.
pub open spec fn round_half_even(n: nat, d: nat) -> nat {
    let q = n / d;
    let r = n % d;
    if 2 * r > d || (2 * r == d && q % 2 == 1) {
        q + 1
    } else {
        q
    }
}

pub open spec fn digit_char(n: nat) -> char {
    (n + '0' as nat) as char
}

/// The decimal digits of `n`.
pub open spec fn digits(n: nat) -> Seq<char>
    decreases n,
{
    if n < 10 {
        seq![digit_char(n)]
    } else {
        digits(n / 10).push(digit_char(n % 10))
    }
}

/// The last `w` decimal digits of `n`, with leading zeros.
pub open spec fn padded(n: nat, w: nat) -> Seq<char>
    decreases w,
{
    if w == 0 {
        Seq::empty()
    } else {
        padded(n / 10, (w - 1) as nat).push(digit_char(n % 10))
    }
}

/// `x / 10^prec` written with `prec` decimals.
pub open spec fn fixed_point(x: nat, prec: nat) -> Seq<char> {
    if prec == 0 {
        digits(x)
    } else {
        digits(x / pow(10, prec)) + seq!['.'] + padded(x % pow(10, prec), prec)
    }
}

/// `b` bytes in the largest unit up to terabytes that keeps the value at least 1, rounded to
/// `prec` decimals.
pub open spec fn memory_size_text(b: nat, prec: nat) -> Seq<char> {
    let k = unit_power(b);
    fixed_point(round_half_even(b * pow(10, prec), pow(1024, k)), prec) + unit_name(k)
}

/// Value of a list of decimal digits.
pub open spec fn digits_value(s: Seq<u8>) -> nat
    decreases s.len(),
{
    if s.len() == 0 {
        0
    } else {
        digits_value(s.drop_last()) * 10 + s.last() as nat
    }
}

pub open spec fn all_digits(s: Seq<u8>) -> bool {
    forall|i: int| 0 <= i < s.len() ==> #[trigger] s[i] < 10
}

proof fn lemma_pow_pos(base: nat, e: nat)
    requires
        base > 0,
    ensures
        pow(base, e) > 0,
    decreases e,
{
    if e > 0 {
        lemma_pow_pos(base, (e - 1) as nat);
        assert(base * pow(base, (e - 1) as nat) > 0) by (nonlinear_arith)
            requires base > 0, pow(base, (e - 1) as nat) > 0;
    }
}

proof fn lemma_digits_bound(s: Seq<u8>)
    requires
        all_digits(s),
    ensures
        digits_value(s) < pow(10, s.len() as nat),
    decreases s.len(),
{
    if s.len() > 0 {
        let t = s.drop_last();
        assert(all_digits(t)) by {
            assert forall|i: int| 0 <= i < t.len() implies #[trigger] t[i] < 10 by {
                assert(t[i] == s[i]);
            }
        }
        lemma_digits_bound(t);
        let v = digits_value(t);
        let p = pow(10, t.len() as nat);
        let l = s.last() as nat;
        assert(l < 10);
        assert(v * 10 + l < p * 10) by (nonlinear_arith)
            requires v < p, l < 10;
        assert(pow(10, s.len() as nat) == 10 * p);
    }
}

/// The characters of a list of digits are the padded decimal of its value.
proof fn lemma_padded(s: Seq<u8>)
    requires
        all_digits(s),
    ensures
        padded(digits_value(s), s.len() as nat) == Seq::new(s.len(), |i: int| digit_char(s[i] as nat)),
    decreases s.len(),
{
    if s.len() > 0 {
        let t = s.drop_last();
        assert(all_digits(t)) by {
            assert forall|i: int| 0 <= i < t.len() implies #[trigger] t[i] < 10 by {
                assert(t[i] == s[i]);
            }
        }
        lemma_padded(t);
        let v = digits_value(s);
        assert(v / 10 == digits_value(t) && v % 10 == s.last() as nat) by {
            vstd::arithmetic::div_mod::lemma_fundamental_div_mod_converse(
                v as int,
                10,
                digits_value(t) as int,
                s.last() as int,
            );
        }
        assert(padded(v, s.len() as nat) =~= Seq::new(s.len(), |i: int| digit_char(s[i] as nat)));
    } else {
        assert(padded(digits_value(s), 0) =~= Seq::new(0, |i: int| digit_char(s[i] as nat)));
    }
}

/// Adding one to a list of digits that are not all 9.
fn increment(d: &mut Vec<u8>) -> (carry: bool)
    requires
        all_digits(old(d)@),
    ensures
        all_digits(final(d)@),
        final(d)@.len() == old(d)@.len(),
        carry ==> digits_value(final(d)@) == 0 && digits_value(old(d)@) + 1 == pow(10, old(d)@.len() as nat),
        !carry ==> digits_value(final(d)@) == digits_value(old(d)@) + 1,
    decreases old(d)@.len(),
{
    let n = d.len();
    if n == 0 {
        return true;
    }
    let last = d.pop().unwrap();
    let ghost t = d@;
    assert(t =~= old(d)@.drop_last());
    assert(all_digits(t)) by {
        assert forall|i: int| 0 <= i < t.len() implies #[trigger] t[i] < 10 by {
            assert(t[i] == old(d)@[i]);
        }
    }
    assert(last < 10) by {
        assert(old(d)@[n - 1] < 10);
    }
    if last < 9 {
        d.push(last + 1);
        assert(d@.drop_last() =~= t);
        assert(digits_value(d@) == digits_value(t) * 10 + (last + 1) as nat);
        assert(old(d)@.last() == last);
        assert(digits_value(old(d)@) == digits_value(t) * 10 + last as nat);
        assert(all_digits(d@)) by {
            assert forall|i: int| 0 <= i < d@.len() implies #[trigger] d@[i] < 10 by {
                if i < t.len() {
                    assert(d@[i] == t[i]);
                }
            }
        }
        false
    } else {
        let carry = increment(d);
        let ghost inc = d@;
        d.push(0);
        assert(d@.drop_last() =~= inc);
        assert(digits_value(d@) == digits_value(inc) * 10);
        assert(old(d)@.last() == last);
        assert(digits_value(old(d)@) == digits_value(t) * 10 + 9);
        assert(all_digits(d@)) by {
            assert forall|i: int| 0 <= i < d@.len() implies #[trigger] d@[i] < 10 by {
                if i < d@.len() - 1 {
                    assert(d@[i] == d@.drop_last()[i]);
                }
            }
        }
        proof {
            let tv = digits_value(t);
            let p = pow(10, t.len() as nat);
            assert(pow(10, n as nat) == 10 * p);
            assert((tv * 10 + 9) + 1 == (tv + 1) * 10) by (nonlinear_arith);
        }
        carry
    }
}

/// The decimal digits of `n`.
pub fn decimal(n: u64) -> (r: String)
    ensures
        r@ == digits(n as nat),
    decreases n,
{
    let c = digit(n % 10);
    if n < 10 {
        let mut r = String::new();
        r.append(c);
        proof {
            assert(r@ =~= digits(n as nat));
        }
        r
    } else {
        let mut r = decimal(n / 10);
        r.append(c);
        proof {
            assert(r@ =~= digits(n as nat));
        }
        r
    }
}

/// The character of a decimal digit, as text.
fn digit(d: u64) -> (r: &'static str)
    requires
        d < 10,
    ensures
        r@ == seq![digit_char(d as nat)],
{
    let r = if d == 0 {
        "0"
    } else if d == 1 {
        "1"
    } else if d == 2 {
        "2"
    } else if d == 3 {
        "3"
    } else if d == 4 {
        "4"
    } else if d == 5 {
        "5"
    } else if d == 6 {
        "6"
    } else if d == 7 {
        "7"
    } else if d == 8 {
        "8"
    } else {
        "9"
    };
    proof {
        reveal_strlit("0");
        reveal_strlit("1");
        reveal_strlit("2");
        reveal_strlit("3");
        reveal_strlit("4");
        reveal_strlit("5");
        reveal_strlit("6");
        reveal_strlit("7");
        reveal_strlit("8");
        reveal_strlit("9");
        assert(r@ =~= seq![digit_char(d as nat)]);
    }
    r
}


fn unit_text(k: usize) -> (r: &'static str)
    requires
        k <= 4,
    ensures
        r@ == unit_name(k as nat),
{
    proof {
        reveal_strlit("b");
        reveal_strlit("Kb");
        reveal_strlit("Mb");
        reveal_strlit("Gb");
        reveal_strlit("Tb");
    }
    if k == 0 {
        "b"
    } else if k == 1 {
        "Kb"
    } else if k == 2 {
        "Mb"
    } else if k == 3 {
        "Gb"
    } else {
        "Tb"
    }
}

/// The first `prec` decimals of `b / d` by long division, and the remainder left.
fn long_division(b: u64, d: u64, prec: usize) -> (r: (Vec<u8>, u64))
    requires
        0 < d <= 1099511627776,
    ensures
        r.0@.len() == prec,
        all_digits(r.0@),
        r.1 < d,
        b as nat * pow(10, prec as nat) == ((b / d) as nat * pow(10, prec as nat) + digits_value(r.0@)) * d as nat + r.1 as nat,
{
    let ip: u64 = b / d;
    let mut rem: u64 = b % d;
    let mut frac: Vec<u8> = Vec::new();
    let mut i: usize = 0;
    proof {
        vstd::arithmetic::div_mod::lemma_fundamental_div_mod(b as int, d as int);
        assert(pow(10, 0) == 1);
        assert(digits_value(frac@) == 0);
        assert(b as nat * 1 == (ip as nat * 1 + 0) * d as nat + rem as nat) by (nonlinear_arith)
            requires b as int == d as int * ip as int + rem as int;
    }
    while i < prec
        invariant
            i <= prec,
            frac@.len() == i,
            all_digits(frac@),
            0 < d <= 1099511627776,
            rem < d,
            ip == b / d,
            b as nat * pow(10, i as nat) == (ip as nat * pow(10, i as nat) + digits_value(frac@)) * d as nat + rem as nat,
        decreases prec - i,
    {
        let t = rem * 10;
        let dig = t / d;
        let next = t % d;
        assert(dig < 10) by (nonlinear_arith)
            requires dig == t / d, t == rem * 10, rem < d, d > 0;
        let ghost old_frac = frac@;
        frac.push(dig as u8);
        proof {
            assert(frac@.drop_last() =~= old_frac);
            assert(digits_value(frac@) == digits_value(old_frac) * 10 + dig as nat);
            assert(pow(10, (i + 1) as nat) == 10 * pow(10, i as nat));
            assert(t as nat == dig as nat * d as nat + next as nat) by (nonlinear_arith)
                requires dig == t / d, next == t % d, d > 0;
            let p = pow(10, i as nat);
            assert(b as nat * (10 * p) == (ip as nat * (10 * p) + (digits_value(old_frac) * 10 + dig as nat)) * d as nat + next as nat) by (nonlinear_arith)
                requires
                    b as nat * p == (ip as nat * p + digits_value(old_frac)) * d as nat + rem as nat,
                    t as nat == dig as nat * d as nat + next as nat,
                    t == rem * 10;
            assert forall|j: int| 0 <= j < frac@.len() implies #[trigger] frac@[j] < 10 by {
                if j < old_frac.len() {
                    assert(frac@[j] == old_frac[j]);
                }
            }
        }
        rem = next;
        i += 1;
    }
    (frac, rem)
}

/// Rounds `ip` followed by the decimals `frac` to nearest, a tie to even, given the
/// remainder `rem` of the division by `d` that produced them.
fn round_digits(ip: u64, frac: &mut Vec<u8>, rem: u64, d: u64, b: u64) -> (r: u64)
    requires
        all_digits(old(frac)@),
        rem < d,
        0 < d <= 1099511627776,
        ip == b / d,
        b as nat * pow(10, old(frac)@.len() as nat) == (ip as nat * pow(10, old(frac)@.len() as nat) + digits_value(old(frac)@)) * d as nat + rem as nat,
    ensures
        all_digits(final(frac)@),
        final(frac)@.len() == old(frac)@.len(),
        r as nat * pow(10, old(frac)@.len() as nat) + digits_value(final(frac)@) == round_half_even(
            b as nat * pow(10, old(frac)@.len() as nat),
            d as nat,
        ),
{
    let prec = frac.len();
    let ghost scaled = b as nat * pow(10, prec as nat);
    let ghost v0 = digits_value(frac@);
    let ghost p = pow(10, prec as nat);
    let ghost n = ip as nat * p + v0;
    proof {
        vstd::arithmetic::div_mod::lemma_fundamental_div_mod_converse(scaled as int, d as int, n as int, rem as int);
        lemma_pow_pos(10, prec as nat);
    }
    let last_odd = if prec == 0 {
        ip % 2 == 1
    } else {
        frac[prec - 1] % 2 == 1
    };
    proof {
        if prec == 0 {
            assert(p == 1);
            assert(v0 == 0);
            assert(ip as nat * 1 == ip as nat);
            assert(n == ip);
        } else {
            let p1 = pow(10, (prec - 1) as nat);
            let w = digits_value(frac@.drop_last());
            let l = frac@.last() as nat;
            let c = 5 * (ip as nat * p1 + w);
            assert(p == 10 * p1);
            assert(n == 2 * c + l) by (nonlinear_arith)
                requires n == ip as nat * p + v0, v0 == w * 10 + l, p == 10 * p1, c == 5 * (ip as nat * p1 + w);
            vstd::arithmetic::div_mod::lemma_fundamental_div_mod_converse(n as int, 2, (c + l / 2) as int, (l % 2) as int);
        }
    }
    let up = 2 * rem > d || (2 * rem == d && last_odd);
    if up {
        let carry = increment(frac);
        if carry {
            assert(d >= 2);
            assert(ip <= b / 2) by (nonlinear_arith)
                requires ip == b / d, d >= 2;
            let r = ip + 1;
            assert(r as nat * p + digits_value(frac@) == n + 1) by (nonlinear_arith)
                requires r as nat == ip as nat + 1, digits_value(frac@) == 0, v0 + 1 == p, n == ip as nat * p + v0;
            r
        } else {
            ip
        }
    } else {
        ip
    }
}

/// `bytes` in b, Kb, Mb, Gb or Tb (the largest unit that keeps the value at least 1, Tb at
/// most), with `prec` decimals, rounded to nearest (a tie to even). The value is computed
/// exactly.
pub fn formated_memory_size(bytes: usize, prec: usize) -> (r: String)
    ensures
        r@ == memory_size_text(bytes as nat, prec as nat),
{
    let b = bytes as u64;
    proof {
        reveal_with_fuel(pow, 5);
        assert(pow(1024, 4) == 1099511627776);
    }
    let mut k: usize = 0;
    let mut d: u64 = 1;
    while k < 4 && b / d >= 1024
        invariant
            k <= 4,
            d == pow(1024, k as nat),
            d <= 1099511627776,
            b == bytes,
            k > 0 ==> b >= d,
            pow(1024, 4) == 1099511627776,
            k == 0 ==> d == 1,
            k == 1 ==> d == 1024,
            k == 2 ==> d == 1048576,
            k == 3 ==> d == 1073741824,
            k == 4 ==> d == 1099511627776,
        decreases 4 - k,
    {
        proof {
            reveal_with_fuel(pow, 5);
        }
        assert(b >= d * 1024) by (nonlinear_arith)
            requires b / d >= 1024, d > 0;
        d = d * 1024;
        k += 1;
    }
    proof {
        reveal_with_fuel(pow, 5);
        assert(k == unit_power(bytes as nat));
    }
    let (mut frac, rem) = long_division(b, d, prec);
    let ip = round_digits(b / d, &mut frac, rem, d, b);
    proof {
        lemma_digits_bound(frac@);
        lemma_padded(frac@);
        lemma_pow_pos(10, prec as nat);
        let p = pow(10, prec as nat);
        let v = digits_value(frac@);
        let m = ip as nat * p + v;
        vstd::arithmetic::div_mod::lemma_fundamental_div_mod_converse(m as int, p as int, ip as int, v as int);
        if prec == 0 {
            assert(p == 1);
            assert(v == 0);
        }
    }
    let mut out = decimal(ip);
    if prec > 0 {
        proof {
            reveal_strlit(".");
        }
        out.append(".");
        let mut j: usize = 0;
        let ghost head = out@;
        while j < frac.len()
            invariant
                j <= frac.len(),
                all_digits(frac@),
                out@ == head + Seq::new(j as nat, |x: int| digit_char(frac@[x] as nat)),
            decreases frac.len() - j,
        {
            out.append(digit(frac[j] as u64));
            j += 1;
            assert(out@ =~= head + Seq::new(j as nat, |x: int| digit_char(frac@[x] as nat)));
        }
    }
    out.append(unit_text(k));
    proof {
        assert(out@ =~= memory_size_text(bytes as nat, prec as nat));
    }
    out
}

/// Relies on stacker::remaining_stack: the bytes of stack left to the current thread, when
/// the platform reports a stack limit.
#[verifier::external_body]
fn remaining_stack() -> (r: Option<usize>) {
    stacker::remaining_stack()
}

pub open spec fn no_limit_text() -> Seq<char> {
    "Stack limit not set."@
}

/// The text for a stack measure: the bytes left with four decimals, or a note that the
/// platform sets no limit.
pub fn format_remaining(left: Option<usize>) -> (r: String)
    ensures
        match left {
            Some(b) => r@ == memory_size_text(b as nat, 4),
            None => r@ == no_limit_text(),
        },
{
    match left {
        Some(b) => formated_memory_size(b, 4),
        None => String::from_str("Stack limit not set."),
    }
}

/// The stack left to the current thread, as text.
pub fn formated_remaining_stack() -> (r: String)
    ensures
        r@ == no_limit_text() || exists|b: nat| r@ == memory_size_text(b, 4),
{
    format_remaining(remaining_stack())
}

} // verus!
