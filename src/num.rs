//! Exact decimal numbers with a fixed count of fractional digits.
//!
//! A number is held as an integer count of billionths, so that every
//! operation is exact integer arithmetic on a bounded range.
use vstd::prelude::*;
use crate::text::push_char;

verus! {

/// Number of billionths in one unit.
pub const SCALE: u128 = 1000000000;

/// Largest magnitude, in billionths, that a number may hold.
pub const MAX_MAG: u128 = 100000000000000000000000000000;

/// Cap used while reading the integer part of a literal: any integer part at
/// this cap is already out of range.
pub const INT_CAP: u128 = 1000000000000000000000;

/// Whether a count of billionths lies in the representable range.
pub open spec fn in_range(v: int) -> bool {
    -(MAX_MAG as int) <= v <= MAX_MAG as int
}

/// Magnitude of an integer.
pub open spec fn absv(v: int) -> int {
    if v < 0 {
        -v
    } else {
        v
    }
}

/// Integer quotient truncated toward zero.
pub open spec fn tdiv(a: int, b: int) -> int
    recommends
        b != 0,
{
    let q = absv(a) / absv(b);
    if (a >= 0) == (b > 0) || q == 0 {
        q
    } else {
        -q
    }
}

/// Remainder of the truncated division: it takes the sign of the dividend.
pub open spec fn trem(a: int, b: int) -> int
    recommends
        b != 0,
{
    a - b * tdiv(a, b)
}

/// Sum, when in range.
pub open spec fn add_spec(a: int, b: int) -> Option<int> {
    if in_range(a + b) {
        Some(a + b)
    } else {
        None
    }
}

/// Difference, when in range.
pub open spec fn sub_spec(a: int, b: int) -> Option<int> {
    if in_range(a - b) {
        Some(a - b)
    } else {
        None
    }
}

/// Product, truncated to billionths, when in range.
pub open spec fn mul_spec(a: int, b: int) -> Option<int> {
    let v = tdiv(a * b, SCALE as int);
    if in_range(v) {
        Some(v)
    } else {
        None
    }
}

/// Quotient, truncated to billionths; none for a zero divisor or out of range.
pub open spec fn div_spec(a: int, b: int) -> Option<int> {
    if b == 0 {
        None
    } else {
        let v = tdiv(a * SCALE as int, b);
        if in_range(v) {
            Some(v)
        } else {
            None
        }
    }
}

/// Remainder of the truncated division; none for a zero divisor.
pub open spec fn rem_spec(a: int, b: int) -> Option<int> {
    if b == 0 {
        None
    } else {
        Some(trem(a, b))
    }
}

/// Largest whole number not above the value.
pub open spec fn floor_spec(v: int) -> int {
    v / (SCALE as int)
}

/// The digit character for a value below ten.
pub open spec fn digit_char(d: int) -> char {
    ((d + 48) as u8) as char
}

/// Whether a character is an ASCII decimal digit.
pub open spec fn is_digit(c: char) -> bool {
    '0' <= c && c <= '9'
}

/// The value of a decimal digit character.
pub open spec fn digit_of(c: char) -> int {
    c as int - 48
}

/// Decimal digits of a natural number, without leading zeros.
pub open spec fn nat_text(n: nat) -> Seq<char>
    decreases n,
{
    if n < 10 {
        seq![digit_char(n as int)]
    } else {
        nat_text(n / 10) + seq![digit_char((n % 10) as int)]
    }
}

/// The last `k` decimal digits of `f`, leading zeros included.
pub open spec fn fixed_digits(f: nat, k: nat) -> Seq<char>
    decreases k,
{
    if k == 0 {
        Seq::empty()
    } else {
        fixed_digits(f / 10, (k - 1) as nat) + seq![digit_char((f % 10) as int)]
    }
}

/// The last `k` decimal digits of `f` with trailing zeros dropped.
pub open spec fn trimmed_digits(f: nat, k: nat) -> Seq<char>
    decreases k,
{
    if k == 0 {
        Seq::empty()
    } else if f % 10 == 0 {
        trimmed_digits(f / 10, (k - 1) as nat)
    } else {
        fixed_digits(f, k)
    }
}

/// How a number is written: a minus sign when negative, the whole part, and
/// the fractional digits after a point unless the value is whole.
pub open spec fn num_text(v: int) -> Seq<char> {
    let m = absv(v) as nat;
    let sign: Seq<char> = if v < 0 {
        seq!['-']
    } else {
        Seq::empty()
    };
    let frac = m % (SCALE as nat);
    let tail: Seq<char> = if frac == 0 {
        Seq::empty()
    } else {
        seq!['.'] + trimmed_digits(frac, 9)
    };
    sign + nat_text(m / (SCALE as nat)) + tail
}

/// Value of a run of decimal digits, read from the left.
pub open spec fn digits_val(s: Seq<char>) -> nat
    decreases s.len(),
{
    if s.len() == 0 {
        0
    } else {
        digits_val(s.drop_last()) * 10 + digit_of(s.last()) as nat
    }
}

/// The `j`-th fractional digit, zero past the end.
pub open spec fn frac_digit(f: Seq<char>, j: int) -> nat {
    if 0 <= j < f.len() {
        digit_of(f[j]) as nat
    } else {
        0
    }
}

/// Value of the first `k` fractional digits, padded with zeros.
pub open spec fn frac_prefix(f: Seq<char>, k: nat) -> nat
    decreases k,
{
    if k == 0 {
        0
    } else {
        frac_prefix(f, (k - 1) as nat) * 10 + frac_digit(f, k - 1)
    }
}

/// Index just past the run of digits that starts at `p`, looking no further than `e`.
pub open spec fn digit_run_end(s: Seq<char>, p: int, e: int) -> int
    decreases e - p,
{
    if p < e && 0 <= p < s.len() && is_digit(s[p]) {
        digit_run_end(s, p + 1, e)
    } else {
        p
    }
}

/// Whether every character is a digit.
pub open spec fn all_digits(s: Seq<char>) -> bool {
    forall|i: int| 0 <= i < s.len() ==> is_digit(#[trigger] s[i])
}

/// Billionths written by an unsigned decimal `digits[.digits]`, if in range.
pub open spec fn unsigned_value(t: Seq<char>) -> Option<int> {
    let k = digit_run_end(t, 0, t.len() as int);
    if k == 0 {
        None
    } else {
        let ip = t.subrange(0, k);
        let valid_tail = k == t.len() || (t[k] == '.' && k + 1 < t.len() && all_digits(
            t.subrange(k + 1, t.len() as int),
        ));
        let fp = if k == t.len() {
            Seq::empty()
        } else {
            t.subrange(k + 1, t.len() as int)
        };
        let v = digits_val(ip) * SCALE as int + frac_prefix(fp, 9);
        if valid_tail && v <= MAX_MAG as int {
            Some(v as int)
        } else {
            None
        }
    }
}

/// The number a text writes: an optional sign, digits, and optionally a point
/// followed by digits; fractional digits past the ninth are dropped.
pub open spec fn parse_spec(t: Seq<char>) -> Option<int> {
    if t.len() > 0 && t[0] == '-' {
        match unsigned_value(t.drop_first()) {
            Some(v) => Some(-v),
            None => None,
        }
    } else if t.len() > 0 && t[0] == '+' {
        unsigned_value(t.drop_first())
    } else {
        unsigned_value(t)
    }
}

/// Ten to the power `k`.
pub open spec fn pow10(k: nat) -> nat
    decreases k,
{
    if k == 0 {
        1
    } else {
        pow10((k - 1) as nat) * 10
    }
}

/// `v`, or `cap` when `v` reaches it.
pub open spec fn capped(v: int, cap: int) -> int {
    if v < cap {
        v
    } else {
        cap
    }
}

/// Whole iterations that a count stands for: none when it is not positive.
pub open spec fn whole_count(v: int) -> nat {
    if v <= 0 {
        0
    } else {
        (v / (SCALE as int)) as nat
    }
}

/// A decimal number, exact to nine fractional digits.
#[derive(Debug, Clone, Copy, PartialEq)]
pub struct Num {
    q: i128,
}

impl View for Num {
    type V = int;

    closed spec fn view(&self) -> int {
        self.q as int
    }
}

/// The value held by an optional number.
pub open spec fn opt_view(r: Option<Num>) -> Option<int> {
    match r {
        Some(n) => Some(n@),
        None => None,
    }
}

proof fn lemma_frac_prefix_bound(f: Seq<char>, k: nat)
    requires
        forall|j: int| 0 <= j < f.len() ==> is_digit(#[trigger] f[j]),
    ensures
        frac_prefix(f, k) < pow10(k),
    decreases k,
{
    if k > 0 {
        lemma_frac_prefix_bound(f, (k - 1) as nat);
        let j = k - 1;
        assert(frac_digit(f, j) <= 9) by {
            if 0 <= j < f.len() {
                assert(is_digit(f[j]));
            }
        }
    }
}

proof fn lemma_mul_sign(a: int, b: int)
    ensures
        absv(a * b) == absv(a) * absv(b),
        (a * b >= 0) == ((a >= 0) == (b >= 0) || a == 0 || b == 0),
{
    let (x, y) = (absv(a), absv(b));
    assert(x * y >= 0) by (nonlinear_arith)
        requires
            x >= 0 && y >= 0,
    ;
    if a >= 0 && b >= 0 {
        assert(a * b == x * y);
    } else if a < 0 && b < 0 {
        assert(a * b == x * y) by (nonlinear_arith)
            requires
                x == -a && y == -b,
        ;
    } else if a < 0 {
        assert(a * b == -(x * y)) by (nonlinear_arith)
            requires
                x == -a && y == b,
        ;
    } else {
        assert(a * b == -(x * y)) by (nonlinear_arith)
            requires
                x == a && y == -b,
        ;
    }
    if a != 0 && b != 0 {
        assert(x * y > 0) by (nonlinear_arith)
            requires
                x > 0 && y > 0,
        ;
    } else {
        assert(x * y == 0) by (nonlinear_arith)
            requires
                x == 0 || y == 0,
        ;
    }
}

impl Num {
    #[verifier::type_invariant]
    spec fn inv(self) -> bool {
        in_range(self.q as int)
    }

    /// Zero, the value of every variable never written.
    pub fn zero() -> (r: Num)
        ensures
            r@ == 0,
    {
        Num { q: 0 }
    }

    /// One: the value of a true comparison.
    pub fn one() -> (r: Num)
        ensures
            r@ == SCALE as int,
    {
        Num { q: 1000000000 }
    }

    /// The number with the given count of billionths, if in range.
    pub fn from_billionths(q: i128) -> (r: Option<Num>)
        ensures
            opt_view(r) == (if in_range(q as int) {
                Some(q as int)
            } else {
                None
            }),
    {
        if -(MAX_MAG as i128) <= q && q <= MAX_MAG as i128 {
            Some(Num { q })
        } else {
            None
        }
    }

    /// The count of billionths that this number holds.
    pub fn billionths(&self) -> (r: i128)
        ensures
            r as int == self@,
    {
        self.q
    }

    fn magnitude(&self) -> (m: u128)
        ensures
            m as int == absv(self@),
            m <= MAX_MAG,
    {
        proof {
            use_type_invariant(self);
        }
        if self.q < 0 {
            (-self.q) as u128
        } else {
            self.q as u128
        }
    }

    fn with_sign(neg: bool, m: u128) -> (r: Num)
        requires
            m <= MAX_MAG,
        ensures
            r@ == (if neg {
                -(m as int)
            } else {
                m as int
            }),
    {
        if neg {
            Num { q: -(m as i128) }
        } else {
            Num { q: m as i128 }
        }
    }

    /// Whether the number is zero.
    pub fn is_zero(&self) -> (r: bool)
        ensures
            r == (self@ == 0),
    {
        self.q == 0
    }

    /// Whether two numbers are equal.
    pub fn same(&self, o: &Num) -> (r: bool)
        ensures
            r == (self@ == o@),
    {
        self.q == o.q
    }

    /// Whether this number is greater than `o`.
    pub fn greater(&self, o: &Num) -> (r: bool)
        ensures
            r == (self@ > o@),
    {
        self.q > o.q
    }

    /// Whether this number is less than `o`.
    pub fn less(&self, o: &Num) -> (r: bool)
        ensures
            r == (self@ < o@),
    {
        self.q < o.q
    }

    /// Sum of two numbers; none when out of range.
    pub fn checked_add(&self, o: &Num) -> (r: Option<Num>)
        ensures
            opt_view(r) == add_spec(self@, o@),
    {
        proof {
            use_type_invariant(self);
            use_type_invariant(o);
        }
        Num::from_billionths(self.q + o.q)
    }

    /// Difference of two numbers; none when out of range.
    pub fn checked_sub(&self, o: &Num) -> (r: Option<Num>)
        ensures
            opt_view(r) == sub_spec(self@, o@),
    {
        proof {
            use_type_invariant(self);
            use_type_invariant(o);
        }
        Num::from_billionths(self.q - o.q)
    }

    /// Product of two numbers, truncated to billionths; none when out of range.
    pub fn checked_mul(&self, o: &Num) -> (r: Option<Num>)
        ensures
            opt_view(r) == mul_spec(self@, o@),
    {
        let a = self.magnitude();
        let b = o.magnitude();
        let neg = (self.q < 0) != (o.q < 0);
        let ghost (x, y) = (self@, o@);
        proof {
            lemma_mul_sign(x, y);
        }
        match a.checked_mul(b) {
            None => {
                proof {
                    assert(absv(x * y) > u128::MAX);
                    assert(absv(x * y) / (SCALE as int) > MAX_MAG as int);
                }
                None
            },
            Some(p) => {
                let m = p / SCALE;
                assert(m as int == absv(x * y) / absv(SCALE as int));
                if m > MAX_MAG {
                    None
                } else {
                    Some(Num::with_sign(neg && m != 0, m))
                }
            },
        }
    }

    /// Quotient of two numbers, truncated to billionths; none for a zero
    /// divisor or when out of range.
    pub fn checked_div(&self, o: &Num) -> (r: Option<Num>)
        ensures
            opt_view(r) == div_spec(self@, o@),
    {
        if o.q == 0 {
            return None;
        }
        let a = self.magnitude();
        let b = o.magnitude();
        let neg = (self.q < 0) != (o.q < 0);
        let ghost (x, y) = (self@, o@);
        proof {
            lemma_mul_sign(x, SCALE as int);
            assert(a * SCALE <= MAX_MAG * SCALE) by (nonlinear_arith)
                requires
                    a <= MAX_MAG,
            ;
        }
        let m = (a * SCALE) / b;
        assert(m as int == absv(x * SCALE as int) / absv(y));
        if m > MAX_MAG {
            None
        } else {
            Some(Num::with_sign(neg && m != 0, m))
        }
    }

    /// Remainder of the truncated division, with the sign of this number;
    /// none for a zero divisor.
    pub fn checked_rem(&self, o: &Num) -> (r: Option<Num>)
        ensures
            opt_view(r) == rem_spec(self@, o@),
    {
        if o.q == 0 {
            return None;
        }
        let a = self.magnitude();
        let b = o.magnitude();
        let m = a % b;
        let ghost (x, y) = (self@, o@);
        proof {
            let q = (a / b) as int;
            assert(a as int == b as int * q + m as int) by (nonlinear_arith)
                requires
                    b > 0,
                    q == a as int / b as int,
                    m as int == a as int % b as int,
            ;
            assert(trem(x, y) == if x < 0 {
                -(m as int)
            } else {
                m as int
            }) by (nonlinear_arith)
                requires
                    absv(x) == a,
                    absv(y) == b,
                    b > 0,
                    a as int == b as int * q + m as int,
                    q == absv(x) / absv(y),
                    tdiv(x, y) == (if (x >= 0) == (y > 0) || q == 0 {
                        q
                    } else {
                        -q
                    }),
                    trem(x, y) == x - y * tdiv(x, y),
            ;
        }
        Some(Num::with_sign(self.q < 0, m))
    }

    /// Whole iterations that this number counts: its floor, or none when not
    /// positive.
    pub fn count(&self) -> (r: u128)
        ensures
            r as int == whole_count(self@),
    {
        if self.q <= 0 {
            0
        } else {
            (self.q as u128) / SCALE
        }
    }

    /// Appends the decimal text of this number to `out`.
    pub fn write_to(&self, out: &mut String)
        ensures
            final(out)@ == old(out)@ + num_text(self@),
    {
        let m = self.magnitude();
        let ghost start = out@;
        if self.q < 0 {
            push_char(out, '-');
        }
        push_nat(out, m / SCALE);
        let frac = m % SCALE;
        if frac != 0 {
            push_char(out, '.');
            push_trimmed(out, frac, 9);
        }
        proof {
            let v = self@;
            let sign: Seq<char> = if v < 0 {
                seq!['-']
            } else {
                Seq::empty()
            };
            let tail: Seq<char> = if frac == 0 {
                Seq::empty()
            } else {
                seq!['.'] + trimmed_digits(frac as nat, 9)
            };
            assert(out@ =~= start + (sign + nat_text((m / SCALE) as nat) + tail));
        }
    }
}

fn digit_to_char(d: u128) -> (c: char)
    requires
        d < 10,
    ensures
        c == digit_char(d as int),
{
    ((d as u8) + 48) as char
}

fn push_nat(out: &mut String, n: u128)
    ensures
        final(out)@ == old(out)@ + nat_text(n as nat),
    decreases n,
{
    if n >= 10 {
        push_nat(out, n / 10);
        push_char(out, digit_to_char(n % 10));
        assert(final(out)@ =~= old(out)@ + nat_text(n as nat));
    } else {
        push_char(out, digit_to_char(n));
        assert(final(out)@ =~= old(out)@ + nat_text(n as nat));
    }
}

fn push_fixed(out: &mut String, f: u128, k: u32)
    ensures
        final(out)@ == old(out)@ + fixed_digits(f as nat, k as nat),
    decreases k,
{
    if k > 0 {
        push_fixed(out, f / 10, k - 1);
        push_char(out, digit_to_char(f % 10));
    }
    assert(final(out)@ =~= old(out)@ + fixed_digits(f as nat, k as nat));
}

fn push_trimmed(out: &mut String, f: u128, k: u32)
    ensures
        final(out)@ == old(out)@ + trimmed_digits(f as nat, k as nat),
    decreases k,
{
    if k == 0 {
        assert(final(out)@ =~= old(out)@ + trimmed_digits(f as nat, k as nat));
    } else if f % 10 == 0 {
        push_trimmed(out, f / 10, k - 1);
    } else {
        push_fixed(out, f, k);
    }
}

fn is_digit_char(c: char) -> (r: bool)
    ensures
        r == is_digit(c),
{
    '0' <= c && c <= '9'
}

/// Index just past the run of digits in `s[from..to]` that starts at `from`.
pub fn digit_run(s: &Vec<char>, from: usize, to: usize) -> (k: usize)
    requires
        from <= to <= s.len(),
    ensures
        from <= k <= to,
        k == digit_run_end(s@, from as int, to as int),
        forall|j: int| from <= j < k ==> is_digit(#[trigger] s@[j]),
        k < to ==> !is_digit(s@[k as int]),
{
    let mut k = from;
    while k < to && is_digit_char(s[k])
        invariant
            from <= k <= to <= s.len(),
            digit_run_end(s@, from as int, to as int) == digit_run_end(s@, k as int, to as int),
            forall|j: int| from <= j < k ==> is_digit(#[trigger] s@[j]),
        decreases to - k,
    {
        k = k + 1;
    }
    k
}

proof fn lemma_digit_run_shift(s: Seq<char>, from: int, to: int, p: int)
    requires
        0 <= from <= p <= to <= s.len(),
    ensures
        digit_run_end(s.subrange(from, to), p - from, to - from) + from == digit_run_end(s, p, to),
    decreases to - p,
{
    if p < to {
        lemma_digit_run_shift(s, from, to, p + 1);
    }
}

/// Value of the digits `s[from..to]`, or `cap` when it reaches `cap`.
pub fn digits_capped(s: &Vec<char>, from: usize, to: usize, cap: u128) -> (r: u128)
    requires
        from <= to <= s.len(),
        forall|j: int| from <= j < to ==> is_digit(#[trigger] s@[j]),
        cap <= INT_CAP,
    ensures
        r as int == capped(digits_val(s@.subrange(from as int, to as int)) as int, cap as int),
{
    let mut v: u128 = 0;
    let mut i = from;
    while i < to
        invariant
            from <= i <= to <= s.len(),
            forall|j: int| from <= j < to ==> is_digit(#[trigger] s@[j]),
            cap <= INT_CAP,
            v as int == capped(digits_val(s@.subrange(from as int, i as int)) as int, cap as int),
        decreases to - i,
    {
        let ghost pre = s@.subrange(from as int, i as int);
        let ghost next = s@.subrange(from as int, i + 1);
        assert(next.drop_last() =~= pre);
        assert(is_digit(s@[i as int]));
        let d = (s[i] as u32 - 48) as u128;
        if v >= cap {
            v = cap;
        } else {
            let w = v * 10 + d;
            v = if w < cap {
                w
            } else {
                cap
            };
        }
        i = i + 1;
    }
    assert(s@.subrange(from as int, i as int) =~= s@.subrange(from as int, to as int));
    v
}

/// The number written in `s[from..to]`, as `parse_spec` reads it.
pub fn parse_slice(s: &Vec<char>, from: usize, to: usize) -> (r: Option<Num>)
    requires
        from <= to <= s.len(),
    ensures
        opt_view(r) == parse_spec(s@.subrange(from as int, to as int)),
{
    let ghost t = s@.subrange(from as int, to as int);
    if from < to && (s[from] == '-' || s[from] == '+') {
        assert(t.drop_first() =~= s@.subrange(from + 1, to as int));
        match unsigned_slice(s, from + 1, to) {
            Some(m) => Some(Num::with_sign(s[from] == '-', m)),
            None => None,
        }
    } else {
        match unsigned_slice(s, from, to) {
            Some(m) => Some(Num::with_sign(false, m)),
            None => None,
        }
    }
}

fn unsigned_slice(s: &Vec<char>, from: usize, to: usize) -> (r: Option<u128>)
    requires
        from <= to <= s.len(),
    ensures
        match r {
            Some(m) => unsigned_value(s@.subrange(from as int, to as int)) == Some(m as int) && m
                <= MAX_MAG,
            None => unsigned_value(s@.subrange(from as int, to as int)) is None,
        },
{
    let ghost t = s@.subrange(from as int, to as int);
    let k = digit_run(s, from, to);
    proof {
        lemma_digit_run_shift(s@, from as int, to as int, from as int);
    }
    if k == from {
        return None;
    }
    if k < to {
        if s[k] != '.' || k + 1 >= to {
            return None;
        }
        let e = digit_run(s, k + 1, to);
        if e < to {
            proof {
                let j = e - (k + 1);
                assert(t.subrange(k - from + 1, t.len() as int)[j] == s@[e as int]);
                assert(!is_digit(s@[e as int]));
            }
            return None;
        }
        assert(all_digits(t.subrange(k - from + 1, t.len() as int))) by {
            assert forall|j: int| 0 <= j < t.len() - (k - from + 1) implies is_digit(
                #[trigger] t.subrange(k - from + 1, t.len() as int)[j],
            ) by {
                assert(t.subrange(k - from + 1, t.len() as int)[j] == s@[k + 1 + j]);
            }
        }
    }
    assert(t.subrange(0, k - from) =~= s@.subrange(from as int, k as int));
    let ip = digits_capped(s, from, k, INT_CAP);
    let ghost fp: Seq<char> = if k == to {
        Seq::empty()
    } else {
        t.subrange(k - from + 1, t.len() as int)
    };
    let mut f: u128 = 0;
    let mut j: usize = 0;
    proof {
        assert forall|i: int| 0 <= i < fp.len() implies is_digit(#[trigger] fp[i]) by {
            if k < to {
                assert(fp[i] == s@[k + 1 + i]);
            }
        }
        lemma_frac_prefix_bound(fp, 9);
        reveal_with_fuel(pow10, 10);
    }
    while j < 9
        invariant
            0 <= j <= 9,
            from <= k <= to <= s.len(),
            fp.len() == (if k == to {
                0
            } else {
                to - k - 1
            }),
            forall|i: int| 0 <= i < fp.len() ==> fp[i] == s@[k + 1 + i],
            forall|i: int| 0 <= i < fp.len() ==> is_digit(#[trigger] fp[i]),
            f as int == frac_prefix(fp, j as nat),
            frac_prefix(fp, 9) < 1000000000,
        decreases 9 - j,
    {
        proof {
            lemma_frac_prefix_bound(fp, (j + 1) as nat);
            lemma_frac_prefix_mono(fp, (j + 1) as nat, 9);
        }
        let d: u128 = if k < to && j < to - k - 1 {
            assert(fp[j as int] == s@[k + 1 + j]);
            assert(is_digit(fp[j as int]));
            (s[k + 1 + j] as u32 - 48) as u128
        } else {
            0
        };
        f = f * 10 + d;
        j = j + 1;
    }
    proof {
        assert(ip * SCALE <= INT_CAP * SCALE) by (nonlinear_arith)
            requires
                ip <= INT_CAP,
        ;
    }
    let v = ip * SCALE + f;
    if v > MAX_MAG {
        proof {
            let dv = digits_val(s@.subrange(from as int, k as int)) as int;
            assert(dv * SCALE as int >= ip * SCALE) by (nonlinear_arith)
                requires
                    dv >= ip,
            ;
        }
        None
    } else {
        Some(v)
    }
}

proof fn lemma_frac_prefix_mono(f: Seq<char>, k: nat, n: nat)
    requires
        k <= n,
    ensures
        frac_prefix(f, k) <= frac_prefix(f, n),
    decreases n - k,
{
    if k < n {
        lemma_frac_prefix_mono(f, k, (n - 1) as nat);
    }
}

impl Num {
    /// The number a text writes, as `parse_spec` reads it; none when the
    /// text writes no number or one out of range.
    pub fn parse(text: &str) -> (r: Option<Num>)
        ensures
            opt_view(r) == parse_spec(text@),
    {
        let cs = crate::text::chars_of(text);
        assert(cs@.subrange(0, cs.len() as int) =~= text@);
        parse_slice(&cs, 0, cs.len())
    }
}

} // verus!
