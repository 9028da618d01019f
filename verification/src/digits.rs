//! Fixed-width positional numerals.
//!
//! Identifiers are rendered in canonical byte (base 256) and hexadecimal text
//! (base 16) forms, and the task-payload framing stores decimal (base 10)
//! length prefixes.  All three are fixed-width, most-significant-digit-first
//! numerals, so the spec-level theory is shared: `digits_be` renders a value,
//! `val_be` reads it back, and lexicographic order of the digit strings agrees
//! with numeric order of the values.

use vstd::arithmetic::div_mod::lemma_fundamental_div_mod;
use vstd::arithmetic::div_mod::lemma_mod_bound;
use vstd::prelude::*;

verus! {

/// `base` raised to `exp`.
pub open spec fn pow_n(base: nat, exp: nat) -> nat
    decreases exp,
{
    if exp == 0 {
        1
    } else {
        base * pow_n(base, (exp - 1) as nat)
    }
}

pub proof fn lemma_pow_n_pos(base: nat, exp: nat)
    requires
        base >= 1,
    ensures
        pow_n(base, exp) >= 1,
    decreases exp,
{
    if exp > 0 {
        lemma_pow_n_pos(base, (exp - 1) as nat);
        assert(base * pow_n(base, (exp - 1) as nat) >= 1 * pow_n(base, (exp - 1) as nat))
            by (nonlinear_arith)
            requires
                base >= 1,
                pow_n(base, (exp - 1) as nat) >= 0,
        ;
    }
}

pub proof fn lemma_pow_n_monotone(base: nat, e1: nat, e2: nat)
    requires
        base >= 1,
        e1 <= e2,
    ensures
        pow_n(base, e1) <= pow_n(base, e2),
    decreases e2,
{
    if e1 < e2 {
        lemma_pow_n_monotone(base, e1, (e2 - 1) as nat);
        lemma_pow_n_pos(base, (e2 - 1) as nat);
        assert(pow_n(base, (e2 - 1) as nat) <= base * pow_n(base, (e2 - 1) as nat))
            by (nonlinear_arith)
            requires
                base >= 1,
                pow_n(base, (e2 - 1) as nat) >= 0,
        ;
    }
}

/// The `width` digits of `v` in the given base, most significant first.
pub open spec fn digits_be(v: nat, width: nat, base: nat) -> Seq<nat>
    decreases width,
{
    if width == 0 {
        Seq::empty()
    } else {
        seq![v / pow_n(base, (width - 1) as nat)] + digits_be(
            v % pow_n(base, (width - 1) as nat),
            (width - 1) as nat,
            base,
        )
    }
}

/// The value of a digit string, most significant digit first.
pub open spec fn val_be(s: Seq<nat>, base: nat) -> nat
    decreases s.len(),
{
    if s.len() == 0 {
        0
    } else {
        s[0] * pow_n(base, (s.len() - 1) as nat) + val_be(s.drop_first(), base)
    }
}

/// Lexicographic order of two equal-length digit strings.
pub open spec fn lex_le(a: Seq<nat>, b: Seq<nat>) -> bool
    decreases a.len(),
{
    if a.len() == 0 || b.len() == 0 {
        a.len() == 0
    } else if a[0] < b[0] {
        true
    } else if a[0] == b[0] {
        lex_le(a.drop_first(), b.drop_first())
    } else {
        false
    }
}

pub proof fn lemma_digits_len(v: nat, width: nat, base: nat)
    requires
        base >= 1,
    ensures
        digits_be(v, width, base).len() == width,
    decreases width,
{
    if width > 0 {
        lemma_pow_n_pos(base, (width - 1) as nat);
        lemma_digits_len(v % pow_n(base, (width - 1) as nat), (width - 1) as nat, base);
    }
}

/// Division and remainder by a positive divisor, packaged for reuse.
proof fn lemma_div_mod_basics(v: nat, p: nat)
    requires
        p >= 1,
    ensures
        v == p * (v / p) + v % p,
        0 <= v % p < p,
        v / p >= 0,
{
    lemma_fundamental_div_mod(v as int, p as int);
    lemma_mod_bound(v as int, p as int);
}

/// The leading digit of an in-range value is below the base.
proof fn lemma_leading_digit_bound(v: nat, p: nat, base: nat)
    requires
        p >= 1,
        base >= 1,
        v < base * p,
    ensures
        v / p < base,
        v % p < p,
{
    lemma_div_mod_basics(v, p);
    assert(v / p < base) by (nonlinear_arith)
        requires
            v == p * (v / p) + v % p,
            0 <= v % p,
            v / p >= 0,
            v < base * p,
            p >= 1,
    ;
}

/// Every rendered digit of an in-range value is below the base.
pub proof fn lemma_digits_bounds(v: nat, width: nat, base: nat)
    requires
        base >= 1,
        v < pow_n(base, width),
    ensures
        forall|i: int| 0 <= i < digits_be(v, width, base).len() ==> #[trigger] digits_be(
            v,
            width,
            base,
        )[i] < base,
    decreases width,
{
    if width > 0 {
        let p = pow_n(base, (width - 1) as nat);
        lemma_pow_n_pos(base, (width - 1) as nat);
        lemma_leading_digit_bound(v, p, base);
        lemma_digits_bounds(v % p, (width - 1) as nat, base);
        lemma_digits_len(v % p, (width - 1) as nat, base);
        let d = digits_be(v, width, base);
        let rest = digits_be(v % p, (width - 1) as nat, base);
        assert(d =~= seq![v / p] + rest);
        assert forall|i: int| 0 <= i < d.len() implies #[trigger] d[i] < base by {
            if i > 0 {
                assert(d[i] == rest[i - 1]);
            }
        }
    }
}

/// Reading back the digits of an in-range value yields the value.
pub proof fn lemma_val_digits(v: nat, width: nat, base: nat)
    requires
        base >= 1,
        v < pow_n(base, width),
    ensures
        val_be(digits_be(v, width, base), base) == v,
    decreases width,
{
    if width == 0 {
        assert(v == 0);
    } else {
        let p = pow_n(base, (width - 1) as nat);
        lemma_pow_n_pos(base, (width - 1) as nat);
        lemma_div_mod_basics(v, p);
        lemma_val_digits(v % p, (width - 1) as nat, base);
        lemma_digits_len(v % p, (width - 1) as nat, base);
        let d = digits_be(v, width, base);
        let rest = digits_be(v % p, (width - 1) as nat, base);
        assert(d =~= seq![v / p] + rest);
        assert(d.drop_first() =~= rest);
        assert(d[0] == v / p);
        assert((v / p) * p == p * (v / p)) by (nonlinear_arith);
    }
}

/// The value of a digit string is below `base^len`.
pub proof fn lemma_val_lt(s: Seq<nat>, base: nat)
    requires
        base >= 1,
        forall|i: int| 0 <= i < s.len() ==> s[i] < base,
    ensures
        val_be(s, base) < pow_n(base, s.len()),
    decreases s.len(),
{
    if s.len() > 0 {
        let p = pow_n(base, (s.len() - 1) as nat);
        lemma_pow_n_pos(base, (s.len() - 1) as nat);
        lemma_val_lt(s.drop_first(), base);
        assert(s[0] * p + p <= base * p) by (nonlinear_arith)
            requires
                p >= 1,
                s[0] < base,
                s[0] >= 0,
        ;
    }
}

/// Rendering the value of an all-in-range digit string yields the string back.
pub proof fn lemma_digits_val(s: Seq<nat>, base: nat)
    requires
        base >= 1,
        forall|i: int| 0 <= i < s.len() ==> s[i] < base,
    ensures
        digits_be(val_be(s, base), s.len(), base) == s,
    decreases s.len(),
{
    if s.len() > 0 {
        let p = pow_n(base, (s.len() - 1) as nat);
        lemma_pow_n_pos(base, (s.len() - 1) as nat);
        let v = val_be(s, base);
        let rest_val = val_be(s.drop_first(), base);
        lemma_val_lt(s.drop_first(), base);
        assert(v == s[0] * p + rest_val);
        assert(v / p == s[0] && v % p == rest_val) by (nonlinear_arith)
            requires
                p >= 1,
                v == s[0] * p + rest_val,
                0 <= rest_val < p,
                s[0] >= 0,
        ;
        lemma_digits_val(s.drop_first(), base);
        lemma_digits_len(v % p, (s.len() - 1) as nat, base);
        assert(digits_be(v, s.len(), base) =~= seq![v / p] + digits_be(
            v % p,
            (s.len() - 1) as nat,
            base,
        ));
        assert(digits_be(v, s.len(), base) =~= s);
    }
}

/// Numeric order of in-range values agrees with lexicographic order of their
/// fixed-width digit strings.
pub proof fn lemma_digits_order(v1: nat, v2: nat, width: nat, base: nat)
    requires
        base >= 1,
        v1 < pow_n(base, width),
        v2 < pow_n(base, width),
    ensures
        v1 <= v2 <==> lex_le(digits_be(v1, width, base), digits_be(v2, width, base)),
    decreases width,
{
    if width == 0 {
        assert(v1 == 0 && v2 == 0);
    } else {
        let p = pow_n(base, (width - 1) as nat);
        lemma_pow_n_pos(base, (width - 1) as nat);
        let f1 = v1 / p;
        let f2 = v2 / p;
        let r1 = v1 % p;
        let r2 = v2 % p;
        lemma_div_mod_basics(v1, p);
        lemma_div_mod_basics(v2, p);
        let d1 = digits_be(v1, width, base);
        let d2 = digits_be(v2, width, base);
        let rest1 = digits_be(r1, (width - 1) as nat, base);
        let rest2 = digits_be(r2, (width - 1) as nat, base);
        lemma_digits_len(r1, (width - 1) as nat, base);
        lemma_digits_len(r2, (width - 1) as nat, base);
        assert(d1 =~= seq![f1] + rest1);
        assert(d2 =~= seq![f2] + rest2);
        assert(d1.drop_first() =~= rest1);
        assert(d2.drop_first() =~= rest2);
        if f1 < f2 {
            assert(v1 < v2) by (nonlinear_arith)
                requires
                    v1 == p * f1 + r1,
                    v2 == p * f2 + r2,
                    p >= 1,
                    f1 < f2,
                    0 <= r1 < p,
                    r2 >= 0,
            ;
        } else if f1 > f2 {
            assert(v2 < v1) by (nonlinear_arith)
                requires
                    v1 == p * f1 + r1,
                    v2 == p * f2 + r2,
                    p >= 1,
                    f2 < f1,
                    0 <= r2 < p,
                    r1 >= 0,
            ;
        } else {
            lemma_digits_order(r1, r2, (width - 1) as nat, base);
        }
    }
}

/// Appending one digit multiplies the value by the base and adds the digit.
pub proof fn lemma_val_snoc(s: Seq<nat>, d: nat, base: nat)
    requires
        base >= 1,
    ensures
        val_be(s.push(d), base) == val_be(s, base) * base + d,
    decreases s.len(),
{
    let t = s.push(d);
    if s.len() == 0 {
        assert(t.drop_first() =~= Seq::<nat>::empty());
        assert(val_be(Seq::<nat>::empty(), base) == 0);
        assert(t[0] == d);
        assert(val_be(t, base) == d * pow_n(base, 0) + 0);
        assert(d * 1 == d) by (nonlinear_arith);
        assert(val_be(s, base) == 0);
        assert(0 * base == 0) by (nonlinear_arith);
    } else {
        assert(t.drop_first() =~= s.drop_first().push(d));
        lemma_val_snoc(s.drop_first(), d, base);
        let n = s.len();
        assert(t[0] == s[0]);
        assert(val_be(t, base) == s[0] * pow_n(base, n) + val_be(s.drop_first().push(d), base));
        assert(pow_n(base, n) == base * pow_n(base, (n - 1) as nat));
        assert(s[0] * (base * pow_n(base, (n - 1) as nat)) == (s[0] * pow_n(base, (n - 1) as nat))
            * base) by (nonlinear_arith);
        assert((s[0] * pow_n(base, (n - 1) as nat)) * base + (val_be(s.drop_first(), base) * base
            + d) == (s[0] * pow_n(base, (n - 1) as nat) + val_be(s.drop_first(), base)) * base + d)
            by (nonlinear_arith)
        ;
    }
}

/// Computes `base^exp`.
pub fn pow_exec(base: u128, exp: usize) -> (r: u128)
    requires
        base >= 1,
        pow_n(base as nat, exp as nat) <= u128::MAX,
    ensures
        r as nat == pow_n(base as nat, exp as nat),
{
    let mut r: u128 = 1;
    let mut i: usize = 0;
    while i < exp
        invariant
            base >= 1,
            i <= exp,
            r as nat == pow_n(base as nat, i as nat),
            pow_n(base as nat, exp as nat) <= u128::MAX,
        decreases exp - i,
    {
        proof {
            lemma_pow_n_monotone(base as nat, (i + 1) as nat, exp as nat);
            assert(pow_n(base as nat, (i + 1) as nat) == (base as nat) * pow_n(
                base as nat,
                i as nat,
            ));
            assert((r as nat) * (base as nat) == (base as nat) * (r as nat)) by (nonlinear_arith);
        }
        r = r * base;
        i = i + 1;
    }
    r
}

/// Renders `v` as `width` digits in base `base`, most significant first.
pub fn digits_of(v: u128, width: usize, base: u128) -> (out: Vec<u8>)
    requires
        2 <= base <= 256,
        (v as nat) < pow_n(base as nat, width as nat),
        width >= 1,
        pow_n(base as nat, (width - 1) as nat) <= u128::MAX,
    ensures
        out@.map_values(|d: u8| d as nat) == digits_be(v as nat, width as nat, base as nat),
        out@.len() == width,
{
    let mut p: u128 = pow_exec(base, width - 1);
    let mut r: u128 = v;
    let mut out: Vec<u8> = Vec::new();
    let mut i: usize = 0;
    proof {
        lemma_digits_len(v as nat, width as nat, base as nat);
        assert(out@.map_values(|d: u8| d as nat) =~= Seq::<nat>::empty());
    }
    while i < width
        invariant
            2 <= base <= 256,
            i <= width,
            i < width ==> p as nat == pow_n(base as nat, (width - 1 - i) as nat),
            (r as nat) < pow_n(base as nat, (width - i) as nat),
            out@.len() == i,
            digits_be(v as nat, width as nat, base as nat) =~= out@.map_values(|d: u8| d as nat)
                + digits_be(r as nat, (width - i) as nat, base as nat),
        decreases width - i,
    {
        proof {
            lemma_pow_n_pos(base as nat, (width - 1 - i) as nat);
            lemma_leading_digit_bound(r as nat, p as nat, base as nat);
        }
        let d: u128 = r / p;
        let ghost old_out = out@;
        let ghost old_r = r as nat;
        out.push(d as u8);
        r = r % p;
        proof {
            let w_rem = (width - i) as nat;
            let rest = digits_be(old_r % (p as nat), (w_rem - 1) as nat, base as nat);
            lemma_digits_len(old_r % (p as nat), (w_rem - 1) as nat, base as nat);
            assert(digits_be(old_r, w_rem, base as nat) =~= seq![old_r / (p as nat)] + rest);
            assert(out@.map_values(|dd: u8| dd as nat) =~= old_out.map_values(|dd: u8| dd as nat)
                + seq![d as nat]);
            assert(digits_be(v as nat, width as nat, base as nat) =~= out@.map_values(
                |dd: u8| dd as nat,
            ) + digits_be(r as nat, (w_rem - 1) as nat, base as nat));
        }
        if width - i >= 2 {
            proof {
                assert(pow_n(base as nat, (width - 1 - i) as nat) == (base as nat) * pow_n(
                    base as nat,
                    (width - 2 - i) as nat,
                ));
                lemma_pow_n_pos(base as nat, (width - 2 - i) as nat);
                assert(((base as nat) * pow_n(base as nat, (width - 2 - i) as nat)) / (base as nat)
                    == pow_n(base as nat, (width - 2 - i) as nat)) by (nonlinear_arith)
                    requires
                        base as nat >= 1,
                        pow_n(base as nat, (width - 2 - i) as nat) >= 0,
                ;
            }
            p = p / base;
        }
        i = i + 1;
    }
    proof {
        assert(digits_be(r as nat, 0, base as nat) =~= Seq::<nat>::empty());
        assert(out@.map_values(|d: u8| d as nat) + Seq::<nat>::empty() =~= out@.map_values(
            |d: u8| d as nat,
        ));
    }
    out
}

/// Reads a digit string back into a value.
pub fn val_of(digits: &Vec<u8>, base: u128) -> (r: u128)
    requires
        2 <= base <= 256,
        forall|i: int| 0 <= i < digits@.len() ==> (#[trigger] digits@[i] as nat) < base as nat,
        pow_n(base as nat, digits@.len() as nat) <= u128::MAX as nat + 1,
    ensures
        r as nat == val_be(digits@.map_values(|d: u8| d as nat), base as nat),
{
    let ghost s = digits@.map_values(|d: u8| d as nat);
    let mut acc: u128 = 0;
    let mut i: usize = 0;
    proof {
        assert(s.take(0) =~= Seq::<nat>::empty());
    }
    while i < digits.len()
        invariant
            2 <= base <= 256,
            i <= digits@.len(),
            s == digits@.map_values(|d: u8| d as nat),
            forall|j: int| 0 <= j < digits@.len() ==> (#[trigger] digits@[j] as nat) < base as nat,
            pow_n(base as nat, digits@.len() as nat) <= u128::MAX as nat + 1,
            acc as nat == val_be(s.take(i as int), base as nat),
            (acc as nat) < pow_n(base as nat, i as nat),
        decreases digits@.len() - i,
    {
        proof {
            lemma_val_snoc(s.take(i as int), s[i as int], base as nat);
            assert(s.take(i as int + 1) =~= s.take(i as int).push(s[i as int]));
            lemma_pow_n_monotone(base as nat, (i + 1) as nat, digits@.len() as nat);
            assert(pow_n(base as nat, (i + 1) as nat) == (base as nat) * pow_n(
                base as nat,
                i as nat,
            ));
            assert((acc as nat) * (base as nat) + (s[i as int]) < pow_n(
                base as nat,
                (i + 1) as nat,
            )) by (nonlinear_arith)
                requires
                    base as nat >= 1,
                    (acc as nat) < pow_n(base as nat, i as nat),
                    s[i as int] < base as nat,
                    pow_n(base as nat, (i + 1) as nat) == (base as nat) * pow_n(
                        base as nat,
                        i as nat,
                    ),
            ;
        }
        acc = acc * base + (digits[i] as u128);
        i = i + 1;
    }
    proof {
        assert(s.take(digits@.len() as int) =~= s);
    }
    acc
}

} // verus!
