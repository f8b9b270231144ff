//! Exact decimal numbers.
//!
//! Parameter values and mesh vertex coordinates are decimal literals in
//! manifests and artifact files. The library represents them exactly as
//! `mantissa / 10^scale` over machine integers, so that comparison,
//! canonical rendering and parsing are all ordinary verified logic.

use vstd::prelude::*;

use crate::text::{
    all_digits, all_digits_exec, char_digit_val, char_is_digit, digit_char, digit_of, digits_val,
    find_char2, find_char2_exec, is_digit, lemma_find_char2, push_i64_str, push_nat_str,
    spec_i64_str, spec_nat_str, str_to_chars, subvec,
};

verus! {

/// A decimal number with value `mantissa / 10^scale`.
#[derive(Clone, Copy, PartialEq, Eq, Structural, Debug)]
pub struct Decimal {
    pub mantissa: i64,
    pub scale: u32,
}

/// `10^e`.
pub open spec fn pow10(e: nat) -> nat
    decreases e,
{
    if e == 0 {
        1
    } else {
        10 * pow10((e - 1) as nat)
    }
}

pub proof fn lemma_pow10_pos(e: nat)
    ensures
        pow10(e) >= 1,
    decreases e,
{
    if e > 0 {
        lemma_pow10_pos((e - 1) as nat);
    }
}

pub proof fn lemma_pow10_mono(e1: nat, e2: nat)
    requires
        e1 <= e2,
    ensures
        pow10(e1) <= pow10(e2),
    decreases e2,
{
    if e1 < e2 {
        lemma_pow10_mono(e1, (e2 - 1) as nat);
        lemma_pow10_pos((e2 - 1) as nat);
    }
}

pub proof fn lemma_pow10_18()
    ensures
        pow10(18) == 1000000000000000000nat,
{
    reveal_with_fuel(pow10, 19);
}

impl Decimal {
    /// Well-formed: the scale is small enough that cross-multiplied
    /// comparisons fit in machine arithmetic, and the mantissa carries
    /// no trailing zero, so each value has one canonical representation.
    pub open spec fn wf(self) -> bool {
        self.scale <= 18 && (self.scale == 0 || self.mantissa % 10 != 0)
    }
}

/// The two decimals denote the same number.
pub open spec fn spec_dec_eq(a: Decimal, b: Decimal) -> bool {
    (a.mantissa as int) * (pow10(b.scale as nat) as int) == (b.mantissa as int) * (pow10(
        a.scale as nat,
    ) as int)
}

/// `a` denotes a strictly smaller number than `b`.
pub open spec fn spec_dec_lt(a: Decimal, b: Decimal) -> bool {
    (a.mantissa as int) * (pow10(b.scale as nat) as int) < (b.mantissa as int) * (pow10(
        a.scale as nat,
    ) as int)
}

/// `a` denotes a number no greater than `b`.
pub open spec fn spec_dec_le(a: Decimal, b: Decimal) -> bool {
    (a.mantissa as int) * (pow10(b.scale as nat) as int) <= (b.mantissa as int) * (pow10(
        a.scale as nat,
    ) as int)
}

/// `10^e` as a machine integer.
pub fn pow10_exec(e: u32) -> (r: i64)
    requires
        e <= 18,
    ensures
        r == pow10(e as nat),
        1 <= r <= 1000000000000000000,
{
    proof {
        lemma_pow10_18();
    }
    let mut r: i64 = 1;
    let mut i: u32 = 0;
    while i < e
        invariant
            i <= e <= 18,
            r == pow10(i as nat),
            pow10(18) == 1000000000000000000nat,
        decreases e - i,
    {
        proof {
            lemma_pow10_mono((i + 1) as nat, 18);
        }
        r = r * 10;
        i = i + 1;
    }
    proof {
        lemma_pow10_pos(e as nat);
        lemma_pow10_mono(e as nat, 18);
    }
    r
}

/// Widening product of a mantissa and a power of ten.
fn cross_mul(m: i64, p: i64) -> (r: i128)
    requires
        1 <= p <= 1000000000000000000,
    ensures
        r == (m as int) * (p as int),
{
    proof {
        let mi = m as int;
        let pi = p as int;
        assert((-9223372036854775808int) * 1000000000000000000int <= mi * pi <= 9223372036854775807int
            * 1000000000000000000int) by (nonlinear_arith)
            requires
                -9223372036854775808 <= mi <= 9223372036854775807,
                1 <= pi <= 1000000000000000000,
        ;
    }
    (m as i128) * (p as i128)
}

impl Decimal {
    /// Numeric equality by cross multiplication.
    pub fn num_eq(&self, other: &Decimal) -> (r: bool)
        requires
            self.wf(),
            other.wf(),
        ensures
            r == spec_dec_eq(*self, *other),
    {
        let lhs = cross_mul(self.mantissa, pow10_exec(other.scale));
        let rhs = cross_mul(other.mantissa, pow10_exec(self.scale));
        lhs == rhs
    }

    /// Numeric strict order by cross multiplication.
    pub fn num_lt(&self, other: &Decimal) -> (r: bool)
        requires
            self.wf(),
            other.wf(),
        ensures
            r == spec_dec_lt(*self, *other),
    {
        let lhs = cross_mul(self.mantissa, pow10_exec(other.scale));
        let rhs = cross_mul(other.mantissa, pow10_exec(self.scale));
        lhs < rhs
    }
}

/// A run of `n` zero characters.
pub open spec fn zeroes(n: nat) -> Seq<char>
    decreases n,
{
    if n == 0 {
        Seq::empty()
    } else {
        zeroes((n - 1) as nat) + seq!['0']
    }
}

/// The fractional digits of `r`, padded with leading zeroes to width `s`.
pub open spec fn spec_frac_str(r: nat, s: nat) -> Seq<char>
    recommends
        spec_nat_str(r).len() <= s,
{
    zeroes((s - spec_nat_str(r).len()) as nat) + spec_nat_str(r)
}

/// Canonical rendering of a decimal: plain integer form at scale zero,
/// otherwise integer part, point, and scale-width fractional part.
pub open spec fn spec_dec_str(d: Decimal) -> Seq<char> {
    if d.scale == 0 {
        spec_i64_str(d.mantissa as int)
    } else {
        let mag = if d.mantissa < 0 {
            (-d.mantissa) as nat
        } else {
            d.mantissa as nat
        };
        let q = mag / pow10(d.scale as nat);
        let r = mag % pow10(d.scale as nat);
        let body = spec_nat_str(q) + seq!['.'] + spec_frac_str(r, d.scale as nat);
        if d.mantissa < 0 {
            seq!['-'] + body
        } else {
            body
        }
    }
}

/// A rendered natural number has one digit per power of ten: below
/// `10^k` it takes at most `k` characters.
pub proof fn lemma_nat_str_len(n: nat, k: nat)
    requires
        k >= 1,
        n < pow10(k),
    ensures
        1 <= spec_nat_str(n).len() <= k,
    decreases n,
{
    if n >= 10 {
        assert(pow10(k) == 10 * pow10((k - 1) as nat));
        lemma_nat_str_len(n / 10, (k - 1) as nat);
    }
}

/// Number of characters in the decimal rendering of `n`.
fn nat_str_len(n: u64) -> (k: usize)
    ensures
        k == spec_nat_str(n as nat).len(),
        k >= 1,
    decreases n,
{
    if n < 10 {
        1
    } else {
        let rest = nat_str_len(n / 10);
        proof {
            lemma_pow10_18();
            assert(pow10(19) == 10 * pow10(18));
            assert(pow10(20) == 10 * pow10(19));
            lemma_nat_str_len(n as nat, 20);
        }
        rest + 1
    }
}

/// Append `k` zero characters to `out`.
fn push_zeroes(k: usize, out: &mut String)
    ensures
        final(out)@ == old(out)@ + zeroes(k as nat),
{
    let mut i: usize = 0;
    while i < k
        invariant
            i <= k,
            out@ == old(out)@ + zeroes(i as nat),
        decreases k - i,
    {
        proof {
            reveal_strlit("0");
        }
        out.append("0");
        proof {
            assert(out@ =~= old(out)@ + zeroes((i + 1) as nat));
        }
        i = i + 1;
    }
}

/// Magnitude of a signed machine integer.
fn i64_abs(n: i64) -> (m: u64)
    ensures
        m == (if n < 0 {
            -(n as int)
        } else {
            n as int
        }),
{
    if n < 0 {
        let wide: i128 = -(n as i128);
        wide as u64
    } else {
        n as u64
    }
}

impl Decimal {
    /// Append the canonical rendering of this decimal to `out`.
    pub fn push_str_to(&self, out: &mut String)
        requires
            self.wf(),
        ensures
            final(out)@ == old(out)@ + spec_dec_str(*self),
    {
        if self.scale == 0 {
            push_i64_str(self.mantissa, out);
        } else {
            proof {
                reveal_strlit("-");
                reveal_strlit(".");
            }
            if self.mantissa < 0 {
                out.append("-");
            }
            let mag = i64_abs(self.mantissa);
            let p = pow10_exec(self.scale) as u64;
            let q = mag / p;
            let r = mag % p;
            push_nat_str(q, out);
            out.append(".");
            let rlen = nat_str_len(r);
            proof {
                lemma_nat_str_len(r as nat, self.scale as nat);
            }
            push_zeroes(self.scale as usize - rlen, out);
            push_nat_str(r, out);
            proof {
                assert(final(out)@ =~= old(out)@ + spec_dec_str(*self));
            }
        }
    }

    /// The canonical rendering of this decimal as a fresh string.
    pub fn to_display_string(&self) -> (s: String)
        requires
            self.wf(),
        ensures
            s@ == spec_dec_str(*self),
    {
        let mut s = String::new();
        self.push_str_to(&mut s);
        proof {
            assert(s@ =~= spec_dec_str(*self));
        }
        s
    }
}

/// A leading `-` or `+` sign.
pub open spec fn has_sign(s: Seq<char>) -> bool {
    s.len() > 0 && (s[0] == '-' || s[0] == '+')
}

/// A leading `-` sign.
pub open spec fn sign_neg(s: Seq<char>) -> bool {
    s.len() > 0 && s[0] == '-'
}

/// `s` without its sign character, if it has one.
pub open spec fn strip_sign(s: Seq<char>) -> Seq<char> {
    if has_sign(s) {
        s.drop_first()
    } else {
        s
    }
}

/// The exponent denoted by an optional exponent part: an optional sign
/// followed by at least one digit. Magnitudes of one hundred thousand
/// or more are rejected; no representable decimal has one.
pub open spec fn spec_exp_value(p: Option<Seq<char>>) -> Option<int> {
    match p {
        None => Some(0int),
        Some(e) => {
            let ed = strip_sign(e);
            if ed.len() == 0 || !all_digits(ed) {
                None
            } else if digits_val(ed) >= 100000 {
                None
            } else if sign_neg(e) {
                Some(-(digits_val(ed) as int))
            } else {
                Some(digits_val(ed) as int)
            }
        },
    }
}

/// Remove factors of ten from `m` into the exponent while the exponent
/// is negative: the normal form of the value `m * 10^e`.
pub open spec fn spec_norm(m: nat, e: int) -> (nat, int)
    decreases m,
{
    if m == 0 {
        (0nat, 0int)
    } else if e < 0 && m % 10 == 0 {
        spec_norm(m / 10, e + 1)
    } else {
        (m, e)
    }
}

/// Apply a sign to a magnitude.
pub open spec fn spec_signed(neg: bool, m: nat) -> int {
    if neg {
        -(m as int)
    } else {
        m as int
    }
}

/// The canonical decimal for the value `±m * 10^e`, if it fits: after
/// normalization the scale must be at most eighteen and the mantissa
/// magnitude at most `i64::MAX`.
pub open spec fn spec_build_decimal(neg: bool, m: nat, e: int) -> Option<Decimal> {
    let nm = spec_norm(m, e).0;
    let ne = spec_norm(m, e).1;
    if nm == 0 {
        Some(Decimal { mantissa: 0, scale: 0 })
    } else if ne < -18 {
        None
    } else if ne <= 0 {
        if nm <= 0x7fff_ffff_ffff_ffff {
            Some(Decimal { mantissa: spec_signed(neg, nm) as i64, scale: (-ne) as u32 })
        } else {
            None
        }
    } else {
        if nm * pow10(ne as nat) <= 0x7fff_ffff_ffff_ffff {
            Some(Decimal { mantissa: spec_signed(neg, nm * pow10(ne as nat)) as i64, scale: 0 })
        } else {
            None
        }
    }
}

/// The decimal denoted by a numeric literal: an optional sign, digits
/// with an optional point, and an optional exponent part introduced by
/// `e` or `E`. `None` for malformed literals and for values outside
/// the representable range.
pub open spec fn spec_parse_decimal(s: Seq<char>) -> Option<Decimal> {
    let mant_part = match find_char2(s, 'e', 'E') {
        None => s,
        Some(i) => s.take(i),
    };
    let exp_part = match find_char2(s, 'e', 'E') {
        None => None::<Seq<char>>,
        Some(i) => Some(s.skip(i + 1)),
    };
    let body = strip_sign(mant_part);
    let int_digits = match find_char2(body, '.', '.') {
        None => body,
        Some(i) => body.take(i),
    };
    let frac_digits = match find_char2(body, '.', '.') {
        None => Seq::<char>::empty(),
        Some(i) => body.skip(i + 1),
    };
    if int_digits.len() + frac_digits.len() == 0 {
        None
    } else if !(all_digits(int_digits) && all_digits(frac_digits)) {
        None
    } else {
        match spec_exp_value(exp_part) {
            None => None,
            Some(ev) => spec_build_decimal(
                sign_neg(mant_part),
                digits_val(int_digits + frac_digits),
                ev - frac_digits.len(),
            ),
        }
    }
}

/// A sequence of zero characters denotes zero.
pub proof fn lemma_digits_val_zeros(s: Seq<char>)
    requires
        forall|j: int| 0 <= j < s.len() ==> (#[trigger] s[j]) == '0',
    ensures
        digits_val(s) == 0,
    decreases s.len(),
{
    if s.len() > 0 {
        lemma_digits_val_zeros(s.drop_last());
        assert(digit_of('0') == 0);
    }
}

/// Leading zeroes do not change the denoted number.
pub proof fn lemma_digits_val_skip_zeros(s: Seq<char>, k: int)
    requires
        0 <= k <= s.len(),
        forall|j: int| 0 <= j < k ==> (#[trigger] s[j]) == '0',
    ensures
        digits_val(s.skip(k)) == digits_val(s),
    decreases s.len(),
{
    if k == s.len() {
        lemma_digits_val_zeros(s);
        assert(s.skip(k) =~= Seq::<char>::empty());
    } else if s.len() > 0 {
        lemma_digits_val_skip_zeros(s.drop_last(), k);
        assert(s.skip(k).drop_last() =~= s.drop_last().skip(k));
        assert(s.skip(k).last() == s.last());
    }
}

/// A digit sequence with a nonzero leading digit denotes at least one
/// for each digit of length: `digits_val(s) >= 10^(len - 1)`.
pub proof fn lemma_digits_val_lower(s: Seq<char>)
    requires
        s.len() >= 1,
        all_digits(s),
        s[0] != '0',
    ensures
        digits_val(s) >= pow10((s.len() - 1) as nat),
    decreases s.len(),
{
    if s.len() == 1 {
        assert(is_digit(s[0]));
        assert(digit_of(s[0]) >= 1);
    } else {
        lemma_digits_val_lower(s.drop_last());
    }
}

/// A digit sequence denotes less than `10^len`.
pub proof fn lemma_digits_val_upper(s: Seq<char>)
    requires
        all_digits(s),
    ensures
        digits_val(s) < pow10(s.len()),
    decreases s.len(),
{
    if s.len() > 0 {
        lemma_digits_val_upper(s.drop_last());
        assert(is_digit(s.last()));
        assert(digit_of(s.last()) <= 9);
    }
}

/// Exponent part of a literal as a machine integer.
fn exp_value_exec(evec: &Vec<char>) -> (r: Option<i64>)
    ensures
        r is None ==> spec_exp_value(Some(evec@)) is None,
        r matches Some(v) ==> spec_exp_value(Some(evec@)) == Some(v as int) && -100000 < v
            < 100000,
{
    let eneg = evec.len() > 0 && evec[0] == '-';
    let eoff: usize = if evec.len() > 0 && (evec[0] == '-' || evec[0] == '+') {
        1
    } else {
        0
    };
    let ghost ed = strip_sign(evec@);
    proof {
        assert(ed =~= evec@.subrange(eoff as int, evec@.len() as int));
    }
    if evec.len() == eoff {
        proof {
            assert(ed.len() == 0);
        }
        return None;
    }
    let mut acc: u64 = 0;
    let mut j: usize = eoff;
    while j < evec.len()
        invariant
            eoff <= j <= evec@.len(),
            ed == strip_sign(evec@),
            ed == evec@.subrange(eoff as int, evec@.len() as int),
            all_digits(evec@.subrange(eoff as int, j as int)),
            acc == (if digits_val(evec@.subrange(eoff as int, j as int)) < 100000 {
                digits_val(evec@.subrange(eoff as int, j as int))
            } else {
                100000nat
            }),
        decreases evec@.len() - j,
    {
        let c = evec[j];
        if !char_is_digit(c) {
            proof {
                assert(ed[(j - eoff) as int] == c);
                assert(!all_digits(ed));
            }
            return None;
        }
        let d = char_digit_val(c);
        let ghost pre = evec@.subrange(eoff as int, j as int);
        let ghost post = evec@.subrange(eoff as int, (j + 1) as int);
        proof {
            assert(post.drop_last() =~= pre);
            assert(post.last() == c);
            assert(all_digits(post));
        }
        let t = acc * 10 + d;
        acc = if t >= 100000 {
            100000
        } else {
            t
        };
        j = j + 1;
    }
    proof {
        assert(evec@.subrange(eoff as int, evec@.len() as int) =~= ed);
    }
    if acc >= 100000 {
        return None;
    }
    if eneg {
        Some(-(acc as i64))
    } else {
        Some(acc as i64)
    }
}

impl Decimal {
    /// Parse a numeric literal from characters.
    pub fn parse_chars(s: &Vec<char>) -> (r: Option<Decimal>)
        ensures
            r == spec_parse_decimal(s@),
            r matches Some(d) ==> d.wf(),
    {
        proof {
            lemma_find_char2(s@, 'e', 'E');
        }
        let epos = find_char2_exec(s, 'e', 'E');
        let mant: Vec<char>;
        let exp: Option<Vec<char>>;
        match epos {
            None => {
                mant = subvec(s, 0, s.len());
                exp = None;
            },
            Some(i) => {
                proof {
                    lemma_find_char2(s@, 'e', 'E');
                }
                let n = s.len();
                mant = subvec(s, 0, i);
                exp = Some(subvec(s, i + 1, n));
            },
        }
        let ghost g_mant = match find_char2(s@, 'e', 'E') {
            None => s@,
            Some(i) => s@.take(i),
        };
        let ghost g_exp = match find_char2(s@, 'e', 'E') {
            None => None::<Seq<char>>,
            Some(i) => Some(s@.skip(i + 1)),
        };
        proof {
            assert(mant@ =~= g_mant);
            match g_exp {
                None => {
                    assert(exp is None);
                },
                Some(ge) => {
                    assert(exp matches Some(ev2) && ev2@ =~= ge);
                },
            }
        }
        let neg = mant.len() > 0 && mant[0] == '-';
        let soff: usize = if mant.len() > 0 && (mant[0] == '-' || mant[0] == '+') {
            1
        } else {
            0
        };
        let body = subvec(&mant, soff, mant.len());
        proof {
            assert(body@ =~= strip_sign(g_mant));
            assert(neg == sign_neg(g_mant));
            lemma_find_char2(body@, '.', '.');
        }
        let ghost g_body = strip_sign(g_mant);
        let ppos = find_char2_exec(&body, '.', '.');
        let intd: Vec<char>;
        let fracd: Vec<char>;
        match ppos {
            None => {
                intd = subvec(&body, 0, body.len());
                fracd = Vec::new();
            },
            Some(i) => {
                intd = subvec(&body, 0, i);
                fracd = subvec(&body, i + 1, body.len());
            },
        }
        let ghost g_int = match find_char2(g_body, '.', '.') {
            None => g_body,
            Some(i) => g_body.take(i),
        };
        let ghost g_frac = match find_char2(g_body, '.', '.') {
            None => Seq::<char>::empty(),
            Some(i) => g_body.skip(i + 1),
        };
        proof {
            assert(intd@ =~= g_int);
            assert(fracd@ =~= g_frac);
        }
        if intd.len() == 0 && fracd.len() == 0 {
            return None;
        }
        if !all_digits_exec(&intd) {
            return None;
        }
        if !all_digits_exec(&fracd) {
            return None;
        }
        let ev: i64;
        match &exp {
            None => {
                ev = 0;
            },
            Some(evec) => {
                match exp_value_exec(evec) {
                    None => {
                        return None;
                    },
                    Some(v) => {
                        ev = v;
                    },
                }
            },
        }
        assert(spec_exp_value(g_exp) == Some(ev as int));
        let r = build_from_digits(intd, &fracd, neg, ev);
        proof {
            assert(r == spec_parse_decimal(s@));
        }
        r
    }

    /// Parse a numeric literal from a string.
    pub fn parse_str(s: &str) -> (r: Option<Decimal>)
        ensures
            r == spec_parse_decimal(s@),
            r matches Some(d) ==> d.wf(),
    {
        let v = str_to_chars(s);
        Decimal::parse_chars(&v)
    }
}

/// Assemble the canonical decimal for the digit sequence
/// `intd ++ fracd` scaled by `10^(ev - |fracd|)` and signed by `neg`.
fn build_from_digits(intd: Vec<char>, fracd: &Vec<char>, neg: bool, ev: i64) -> (r: Option<
    Decimal,
>)
    requires
        all_digits(intd@),
        all_digits(fracd@),
        -100000 < ev < 100000,
    ensures
        r == spec_build_decimal(neg, digits_val(intd@ + fracd@), ev as int - fracd@.len()),
        r matches Some(d) ==> d.wf(),
{
    let ghost g_int = intd@;
    let ghost g_frac = fracd@;
    // All mantissa digits in one vector.
    let mut ds = intd;
    let mut k: usize = 0;
    while k < fracd.len()
        invariant
            k <= fracd@.len(),
            fracd@ == g_frac,
            ds@ == g_int + fracd@.subrange(0, k as int),
        decreases fracd@.len() - k,
    {
        ds.push(fracd[k]);
        proof {
            assert(ds@ =~= g_int + fracd@.subrange(0, (k + 1) as int));
        }
        k = k + 1;
    }
    proof {
        assert(ds@ =~= g_int + g_frac);
        assert(all_digits(ds@)) by {
            assert(forall|i: int| 0 <= i < g_int.len() ==> (#[trigger] ds@[i]) == g_int[i]);
            assert(forall|i: int|
                g_int.len() <= i < ds@.len() ==> (#[trigger] ds@[i]) == g_frac[i - g_int.len()]);
        }
    }
    let ghost v0 = digits_val(ds@);
    let ghost e0 = ev as int - g_frac.len();
    // Skip leading zeroes.
        let mut lz: usize = 0;
        while lz < ds.len() && ds[lz] == '0'
            invariant
                lz <= ds@.len(),
                forall|j: int| 0 <= j < lz ==> (#[trigger] ds@[j]) == '0',
            decreases ds@.len() - lz,
        {
            lz = lz + 1;
        }
        if lz == ds.len() {
            proof {
                lemma_digits_val_zeros(ds@);
            }
            return Some(Decimal { mantissa: 0, scale: 0 });
        }
        proof {
            lemma_digits_val_skip_zeros(ds@, lz as int);
            assert(ds@.skip(lz as int) =~= ds@.subrange(lz as int, ds@.len() as int));
            lemma_digits_val_lower(ds@.subrange(lz as int, ds@.len() as int));
            lemma_pow10_pos((ds@.len() - lz - 1) as nat);
        }
        let mut e: i128 = (ev as i128) - (fracd.len() as i128);
        let mut hi: usize = ds.len();
        while e < 0 && ds[hi - 1] == '0'
            invariant
                lz < hi <= ds@.len(),
                all_digits(ds@),
                ds@[lz as int] != '0',
                e <= 0 || hi == ds@.len(),
                e0 <= e <= (if e0 > 0 { e0 } else { 0 }),
                digits_val(ds@.subrange(lz as int, hi as int)) >= 1,
                spec_norm(v0, e0) == spec_norm(
                    digits_val(ds@.subrange(lz as int, hi as int)),
                    e as int,
                ),
            decreases hi,
        {
            let ghost sub = ds@.subrange(lz as int, hi as int);
            proof {
                assert(sub.last() == ds@[hi - 1]);
                assert(digit_of('0') == 0);
                assert(sub.drop_last() =~= ds@.subrange(lz as int, (hi - 1) as int));
                assert(digits_val(sub) == digits_val(sub.drop_last()) * 10);
                if hi - 1 == lz {
                    assert(sub.drop_last() =~= Seq::<char>::empty());
                    assert(digits_val(sub) == 0);
                    assert(false);
                }
                lemma_digits_val_lower(ds@.subrange(lz as int, (hi - 1) as int));
                lemma_pow10_pos((hi - 1 - lz - 1) as nat);
            }
            hi = hi - 1;
            e = e + 1;
        }
        let ghost sub = ds@.subrange(lz as int, hi as int);
        let ghost nm = digits_val(sub);
        proof {
            // The loop has reached the normal form.
            assert(sub.last() == ds@[hi - 1]);
            if e < 0 {
                assert(is_digit(sub.last()));
                assert(digits_val(sub) == digits_val(sub.drop_last()) * 10 + digit_of(
                    sub.last(),
                ));
                assert(digit_of(sub.last()) >= 1);
                assert(nm % 10 != 0);
            }
            assert(spec_norm(nm, e as int) == (nm, e as int));
            assert(spec_norm(v0, e0) == (nm, e as int));
        }
        if e < -18 {
            return None;
        }
        let n_len = hi - lz;
        if n_len > 19 {
            proof {
                lemma_digits_val_lower(sub);
                lemma_pow10_mono(19, (n_len - 1) as nat);
                lemma_pow10_18();
                assert(pow10(19) == 10 * pow10(18));
                if e > 0 {
                    lemma_pow10_pos(e as nat);
                    assert(nm * pow10(e as nat) >= nm) by (nonlinear_arith)
                        requires
                            nm >= 0,
                            pow10(e as nat) >= 1,
                    ;
                }
            }
            return None;
        }
        proof {
            lemma_pow10_18();
            assert(pow10(19) == 10 * pow10(18));
            assert(pow10(20) == 10 * pow10(19));
        }
        let mut acc: u128 = 0;
        let mut j: usize = lz;
        while j < hi
            invariant
                lz <= j <= hi <= ds@.len(),
                hi - lz <= 19,
                all_digits(ds@),
                acc == digits_val(ds@.subrange(lz as int, j as int)),
                acc < pow10((j - lz) as nat),
                pow10(19) == 10000000000000000000nat,
                pow10(20) == 100000000000000000000nat,
            decreases hi - j,
        {
            let ghost pre = ds@.subrange(lz as int, j as int);
            let ghost post = ds@.subrange(lz as int, (j + 1) as int);
            proof {
                assert(post.drop_last() =~= pre);
                assert(post.last() == ds@[j as int]);
                lemma_pow10_mono((j - lz + 1) as nat, 19);
                assert(pow10((j - lz + 1) as nat) == 10 * pow10((j - lz) as nat));
            }
            let d = char_digit_val(ds[j]);
            acc = acc * 10 + (d as u128);
            j = j + 1;
        }
        proof {
            lemma_pow10_mono((hi - lz) as nat, 19);
        }
        if e <= 0 {
            if acc > 0x7fff_ffff_ffff_ffff {
                return None;
            }
            let m64: i64 = acc as i64;
            let mantissa: i64 = if neg {
                -m64
            } else {
                m64
            };
            let scale: u32 = (-e) as u32;
            proof {
                if scale > 0 {
                    assert(nm % 10 != 0);
                    assert(mantissa % 10 != 0);
                }
            }
            Some(Decimal { mantissa, scale })
        } else {
            if e > 18 {
                proof {
                    lemma_pow10_mono(19, e as nat);
                    assert(nm * pow10(e as nat) >= pow10(e as nat)) by (nonlinear_arith)
                        requires
                            nm >= 1,
                            pow10(e as nat) >= 0,
                    ;
                }
                return None;
            }
            let p = pow10_exec(e as u32);
            proof {
                assert(acc * (p as int) < pow10(19) * pow10(18)) by (nonlinear_arith)
                    requires
                        0 <= acc < pow10(19),
                        1 <= p <= pow10(18),
                ;
                assert(pow10(19) * pow10(18) < 340282366920938463463374607431768211455int)
                    by (nonlinear_arith)
                    requires
                        pow10(19) == 10000000000000000000nat,
                        pow10(18) == 1000000000000000000nat,
                ;
            }
            let prod: u128 = acc * (p as u128);
            if prod > 0x7fff_ffff_ffff_ffff {
                return None;
            }
            let m64: i64 = prod as i64;
            let mantissa: i64 = if neg {
                -m64
            } else {
                m64
            };
            Some(Decimal { mantissa, scale: 0 })
        }
    }

} // verus!
