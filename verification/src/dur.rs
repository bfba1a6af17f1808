//! Exact rational note durations. A `Duration` is a fraction of a whole
//! note, stored as a numerator/denominator pair of `u16` that is always in
//! lowest terms: construction reduces by the greatest common divisor, a
//! zero numerator canonicalizes to `0/1`, and a zero denominator is
//! rejected. Addition is exact, subtraction saturates at zero, and the
//! order is the usual order on rationals, decided by cross-multiplication.

use crate::error::Error;
use crate::gcd::{
    gcd, gcd_u64, lemma_gcd_pos, lemma_gcd_quotients_coprime, lemma_unique_reduced,
};
use vstd::arithmetic::div_mod::lemma_div_nonincreasing;
use vstd::prelude::*;

verus! {

/// A note length: `.0 / .1` of a whole note, kept in lowest terms.
#[derive(Debug, Clone, Copy)]
pub struct Duration(pub u16, pub u16);

impl View for Duration {
    type V = (int, int);

    open spec fn view(&self) -> (int, int) {
        (self.0 as int, self.1 as int)
    }
}

/// Two fraction values denote the same rational.
pub open spec fn frac_eq(a: (int, int), b: (int, int)) -> bool {
    a.0 * b.1 == b.0 * a.1
}

/// The rational `a` is strictly below the rational `b`.
pub open spec fn frac_lt(a: (int, int), b: (int, int)) -> bool {
    a.0 * b.1 < b.0 * a.1
}

/// Both components fit in a `u16` and the denominator is positive.
pub open spec fn fits16(a: (int, int)) -> bool {
    0 <= a.0 <= u16::MAX && 1 <= a.1 <= u16::MAX
}

/// The fraction is in canonical form: positive denominator, nonnegative
/// numerator, and the two are coprime (so `0` is always `0/1`).
pub open spec fn reduced(a: (int, int)) -> bool {
    &&& a.0 >= 0
    &&& a.1 >= 1
    &&& gcd(a.0 as nat, a.1 as nat) == 1
}

/// The canonical (lowest-terms) form of the fraction `n/d`.
pub open spec fn fred(n: int, d: int) -> (int, int)
    recommends
        n >= 0,
        d >= 1,
{
    if n == 0 {
        (0, 1)
    } else {
        let g = gcd(n as nat, d as nat) as int;
        (n / g, d / g)
    }
}

/// The canonical sum of two fractions.
pub open spec fn fadd(a: (int, int), b: (int, int)) -> (int, int) {
    fred(a.0 * b.1 + b.0 * a.1, a.1 * b.1)
}

/// The canonical difference of two fractions, saturating at zero.
pub open spec fn fsub(a: (int, int), b: (int, int)) -> (int, int) {
    if a.0 * b.1 >= b.0 * a.1 {
        fred(a.0 * b.1 - b.0 * a.1, a.1 * b.1)
    } else {
        fred(0, a.1 * b.1)
    }
}

/// Every number is coprime to one.
pub proof fn lemma_gcd_one(c: nat)
    ensures
        gcd(c, 1) == 1,
{
    assert(c % 1 == 0) by (nonlinear_arith);
    assert(gcd(c, 1) == gcd(1, c % 1));
    assert(gcd(1, 0) == 1);
}

/// Canonicalization yields a reduced fraction that denotes the same
/// rational, with components no larger than the originals.
pub proof fn lemma_fred_reduced(n: int, d: int)
    requires
        n >= 0,
        d >= 1,
    ensures
        reduced(fred(n, d)),
        frac_eq(fred(n, d), (n, d)),
        0 <= fred(n, d).0 <= n,
        1 <= fred(n, d).1 <= d,
        n > 0 ==> fred(n, d).0 >= 1,
{
    if n == 0 {
        assert(gcd(0, 1) == gcd(1, 0 as nat % 1));
        assert(0 as nat % 1 == 0) by (nonlinear_arith);
        assert(gcd(1, 0) == 1);
    } else {
        let a = n as nat;
        let b = d as nat;
        let g = gcd(a, b);
        lemma_gcd_pos(a, b);
        lemma_gcd_quotients_coprime(a, b);
        assert(a == (a / g) * g && b == (b / g) * g);
        let qn = fred(n, d).0;
        let qd = fred(n, d).1;
        assert(qn == a / g && qd == b / g);
        lemma_div_nonincreasing(n, g as int);
        lemma_div_nonincreasing(d, g as int);
        assert(qd >= 1 && qn >= 1) by (nonlinear_arith)
            requires
                a == (a / g) * g && b == (b / g) * g && a >= 1 && b >= 1 && qn == a / g && qd == b
                    / g,
        ;
        assert(qn * d == n * qd) by (nonlinear_arith)
            requires
                n == qn * (g as int) && d == qd * (g as int),
        ;
    }
}

/// A reduced fraction equal to `n/d` is exactly the canonical form of
/// `n/d`: the reduced representative of a rational is unique.
pub proof fn lemma_fred_canon(a: (int, int), n: int, d: int)
    requires
        reduced(a),
        n >= 0,
        d >= 1,
        frac_eq(a, (n, d)),
    ensures
        a == fred(n, d),
{
    let f = fred(n, d);
    lemma_fred_reduced(n, d);
    assert(a.0 * f.1 == f.0 * a.1) by (nonlinear_arith)
        requires
            a.0 * d == n * a.1 && f.0 * d == n * f.1 && d >= 1 && a.1 >= 1 && f.1 >= 1,
    ;
    lemma_unique_reduced(a.0 as nat, a.1 as nat, f.0 as nat, f.1 as nat);
}

/// The exact product of two `u16` values, computed in `u64`.
pub(crate) fn mul16(a: u16, b: u16) -> (r: u64)
    ensures
        r == a as int * b as int,
        0 <= r <= 0xffff * 0xffff,
{
    proof {
        assert(a as int * b as int <= 0xffff * 0xffff) by (nonlinear_arith)
            requires
                a <= 0xffff && b <= 0xffff,
        ;
        assert(a as int * b as int >= 0) by (nonlinear_arith)
            requires
                a >= 0 && b >= 0,
        ;
    }
    a as u64 * b as u64
}

/// Reduce `n/d` by the greatest common divisor; `None` when the lowest
/// terms do not fit in `u16`.
pub(crate) fn reduce64(n: u64, d: u64) -> (r: Option<Duration>)
    requires
        d >= 1,
    ensures
        match r {
            Some(dur) => dur@ == fred(n as int, d as int) && dur.wf(),
            None => !fits16(fred(n as int, d as int)),
        },
{
    if n == 0 {
        proof {
            lemma_fred_reduced(0, d as int);
        }
        return Some(Duration(0, 1));
    }
    let g = gcd_u64(n, d);
    proof {
        lemma_gcd_pos(n as nat, d as nat);
        lemma_fred_reduced(n as int, d as int);
    }
    let rn = n / g;
    let rd = d / g;
    if rn <= 0xffff && rd <= 0xffff {
        Some(Duration(rn as u16, rd as u16))
    } else {
        None
    }
}

impl Duration {
    /// The value is in lowest terms with a positive denominator.
    pub open spec fn wf(&self) -> bool {
        reduced(self@)
    }

    /// Canonical construction; rejects a zero denominator. The result is
    /// always reduced: its numerator and denominator are coprime.
    pub fn new_checked(num: u16, den: u16) -> (r: Result<Self, Error>)
        ensures
            match r {
                Ok(d) => den != 0 && d@ == fred(num as int, den as int) && d.wf() && frac_eq(
                    d@,
                    (num as int, den as int),
                ) && gcd(d.0 as nat, d.1 as nat) == 1,
                Err(e) => den == 0 && e is InvalidOp,
            },
    {
        if den == 0 {
            return Err(Error::InvalidOp("Duration with 0 denominator".to_owned()));
        }
        proof {
            lemma_fred_reduced(num as int, den as int);
        }
        match reduce64(num as u64, den as u64) {
            Some(d) => Ok(d),
            None => vstd::pervasive::unreached(),
        }
    }

    /// Canonical construction for a denominator known to be nonzero. The
    /// result is always reduced: its numerator and denominator are coprime.
    pub fn new(num: u16, den: u16) -> (r: Self)
        requires
            den != 0,
        ensures
            r@ == fred(num as int, den as int),
            r.wf(),
            frac_eq(r@, (num as int, den as int)),
            gcd(r.0 as nat, r.1 as nat) == 1,
    {
        proof {
            lemma_fred_reduced(num as int, den as int);
        }
        match reduce64(num as u64, den as u64) {
            Some(d) => d,
            None => vstd::pervasive::unreached(),
        }
    }

    /// The zero duration.
    pub fn zero() -> (r: Self)
        ensures
            r@ == (0int, 1int),
            r.wf(),
    {
        proof {
            lemma_fred_reduced(0, 1);
        }
        Duration(0, 1)
    }

    /// `count` whole notes.
    pub fn whole(count: u16) -> (r: Self)
        ensures
            r@ == fred(count as int, 1),
            r.wf(),
    {
        Self::new(count, 1)
    }

    /// `count` half notes, in lowest terms.
    pub fn half(count: u16) -> (r: Self)
        ensures
            r@ == fred(count as int, 2),
            r.wf(),
    {
        Self::new(count, 2)
    }

    /// `count` quarter notes, in lowest terms.
    pub fn quarter(count: u16) -> (r: Self)
        ensures
            r@ == fred(count as int, 4),
            r.wf(),
    {
        Self::new(count, 4)
    }

    /// `count` eighth notes, in lowest terms.
    pub fn eighth(count: u16) -> (r: Self)
        ensures
            r@ == fred(count as int, 8),
            r.wf(),
    {
        Self::new(count, 8)
    }

    /// `count` sixteenth notes, in lowest terms.
    pub fn sixteenth(count: u16) -> (r: Self)
        ensures
            r@ == fred(count as int, 16),
            r.wf(),
    {
        Self::new(count, 16)
    }

    /// `count` thirty-second notes, in lowest terms.
    pub fn thirtysecond(count: u16) -> (r: Self)
        ensures
            r@ == fred(count as int, 32),
            r.wf(),
    {
        Self::new(count, 32)
    }

    /// `count` sixty-fourth notes, in lowest terms.
    pub fn sixtyfourth(count: u16) -> (r: Self)
        ensures
            r@ == fred(count as int, 64),
            r.wf(),
    {
        Self::new(count, 64)
    }

    /// An `n`-tuplet of this value: divided by `n`, times two (so a
    /// triplet of eighths is two thirds of an eighth note).
    pub fn tuplet(&self, tuplet: u16) -> (r: Self)
        requires
            self.wf(),
            tuplet >= 1,
            fits16(fred(2 * self@.0, self@.1 * tuplet as int)),
        ensures
            r@ == fred(2 * self@.0, self@.1 * tuplet as int),
            r.wf(),
    {
        let n = mul16(self.0, 2);
        let d = mul16(self.1, tuplet);
        proof {
            assert(d >= 1) by (nonlinear_arith)
                requires
                    self.1 >= 1 && tuplet >= 1 && d == self.1 as int * tuplet as int,
            ;
        }
        match reduce64(n, d) {
            Some(r) => r,
            None => vstd::pervasive::unreached(),
        }
    }

    /// The dotted form of this value: one and a half times as long.
    pub fn dotted(&self) -> (r: Self)
        requires
            self.wf(),
            fits16(fred(3 * self@.0, 2 * self@.1)),
        ensures
            r@ == fred(3 * self@.0, 2 * self@.1),
            r.wf(),
    {
        let n = mul16(self.0, 3);
        let d = mul16(self.1, 2);
        match reduce64(n, d) {
            Some(r) => r,
            None => vstd::pervasive::unreached(),
        }
    }

    /// The common-denominator sum, left unreduced.
    pub fn add_basic(self, rhs: Self) -> (r: Self)
        requires
            self@.0 * rhs@.1 + rhs@.0 * self@.1 <= u16::MAX,
            self@.1 * rhs@.1 <= u16::MAX,
        ensures
            r@ == (self@.0 * rhs@.1 + rhs@.0 * self@.1, self@.1 * rhs@.1),
    {
        let x = mul16(self.0, rhs.1);
        let y = mul16(rhs.0, self.1);
        let d = mul16(self.1, rhs.1);
        Duration((x + y) as u16, d as u16)
    }

    /// Exact addition, reduced to lowest terms.
    pub fn add_dur(self, rhs: Self) -> (r: Self)
        requires
            self.wf(),
            rhs.wf(),
            fits16(fadd(self@, rhs@)),
        ensures
            r@ == fadd(self@, rhs@),
            r.wf(),
    {
        let n = mul16(self.0, rhs.1) + mul16(rhs.0, self.1);
        let d = mul16(self.1, rhs.1);
        proof {
            assert(d >= 1) by (nonlinear_arith)
                requires
                    self.1 >= 1 && rhs.1 >= 1 && d == self.1 as int * rhs.1 as int,
            ;
        }
        match reduce64(n, d) {
            Some(r) => r,
            None => vstd::pervasive::unreached(),
        }
    }

    /// Subtraction, saturating at zero, reduced to lowest terms.
    pub fn sub_dur(self, rhs: Self) -> (r: Self)
        requires
            self.wf(),
            rhs.wf(),
            fits16(fsub(self@, rhs@)),
        ensures
            r@ == fsub(self@, rhs@),
            r.wf(),
    {
        let a = mul16(self.0, rhs.1);
        let b = mul16(rhs.0, self.1);
        let n = if a >= b {
            a - b
        } else {
            0
        };
        let d = mul16(self.1, rhs.1);
        proof {
            assert(d >= 1) by (nonlinear_arith)
                requires
                    self.1 >= 1 && rhs.1 >= 1 && d == self.1 as int * rhs.1 as int,
            ;
        }
        match reduce64(n, d) {
            Some(r) => r,
            None => vstd::pervasive::unreached(),
        }
    }

    /// Multiplication by a count, reduced to lowest terms.
    pub fn mul_num(self, rhs: u16) -> (r: Self)
        requires
            self.wf(),
            fits16(fred(self@.0 * rhs as int, self@.1)),
        ensures
            r@ == fred(self@.0 * rhs as int, self@.1),
            r.wf(),
    {
        let n = mul16(self.0, rhs);
        match reduce64(n, self.1 as u64) {
            Some(r) => r,
            None => vstd::pervasive::unreached(),
        }
    }

    /// Division by a positive count, reduced to lowest terms.
    pub fn div_num(self, rhs: u16) -> (r: Self)
        requires
            self.wf(),
            rhs >= 1,
            fits16(fred(self@.0, self@.1 * rhs as int)),
        ensures
            r@ == fred(self@.0, self@.1 * rhs as int),
            r.wf(),
    {
        let d = mul16(self.1, rhs);
        proof {
            assert(d >= 1) by (nonlinear_arith)
                requires
                    self.1 >= 1 && rhs >= 1 && d == self.1 as int * rhs as int,
            ;
        }
        match reduce64(self.0 as u64, d) {
            Some(r) => r,
            None => vstd::pervasive::unreached(),
        }
    }

    /// The display glyph of this duration.
    pub fn dur_icon(&self) -> (r: &'static str)
        ensures
            r@ == dur_icon_spec(self@),
    {
        if self.0 == 1 && self.1 == 1 {
            " 1 "
        } else if self.0 == 1 && self.1 == 2 {
            " 2 "
        } else if self.0 == 1 && self.1 == 4 {
            " 4 "
        } else if self.0 == 1 && self.1 == 8 {
            " 8 "
        } else if self.0 == 1 && self.1 == 16 {
            "16 "
        } else if self.0 == 1 && self.1 == 32 {
            "32 "
        } else if self.0 == 3 && self.1 == 2 {
            " 1\u{2022}"
        } else if self.0 == 3 && self.1 == 4 {
            " 2\u{2022}"
        } else if self.0 == 3 && self.1 == 8 {
            " 4\u{2022}"
        } else if self.0 == 3 && self.1 == 16 {
            " 8\u{2022}"
        } else if self.0 == 3 && self.1 == 32 {
            "16\u{2022}"
        } else if self.0 == 1 && self.1 == 3 {
            " 2\u{2153}"
        } else if self.0 == 1 && self.1 == 6 {
            " 4\u{2153}"
        } else if self.0 == 1 && self.1 == 12 {
            " 8\u{2153}"
        } else if self.0 == 1 && self.1 == 24 {
            "16\u{2153}"
        } else if self.0 == 1 && self.1 == 48 {
            "32\u{2153}"
        } else if self.0 == 1 && self.1 == 96 {
            "64\u{2153}"
        } else {
            " ? "
        }
    }

    /// Parse the textual form `[count "/"] base ["."] [":" tuplet]`: a
    /// note-length code with an optional count, dot, and tuplet divisor.
    /// Returns the denoted duration in lowest terms; a zero base or
    /// tuplet is an invalid operation, and any other mismatch or a value
    /// out of `u16` range is a parse failure.
    #[verifier::rlimit(100)]
    pub fn parse(s: &str) -> (r: Result<Self, Error>)
        ensures
            match r {
                Ok(d) => parse_spec(s@) == Some(d@) && d.wf(),
                Err(e) => parse_spec(s@) is None && (e is InvalidOp <==> parse_zero_den(s@)) && (
                e is ParseError <==> !parse_zero_den(s@)),
            },
    {
        let n = s.unicode_len();
        proof {
            lemma_first_idx_charac(s@, '/');
        }
        let slash_opt = find_char(s, 0, '/');
        let ghost spec_slash = first_idx(s@, '/');
        proof {
            match slash_opt {
                Some(j) => {
                    assert(spec_slash == j);
                },
                None => {
                    assert(spec_slash == -1);
                },
            }
        }
        let (cnt, lo): (u16, usize) = match slash_opt {
            None => (1, 0),
            Some(j) => {
                if j == 0 {
                    proof {
                        assert(parse_parts(s@) is None);
                    }
                    return Err(Error::ParseError("not a duration".to_owned()));
                }
                match parse_digits(s, 0, j) {
                    Some(v) => (v, j + 1),
                    None => {
                        proof {
                            assert(s@.subrange(0, j as int) =~= s@.take(j as int));
                            assert(parse_parts(s@) is None);
                        }
                        return Err(Error::ParseError("not a duration".to_owned()));
                    },
                }
            },
        };
        let ghost body = s@.skip(lo as int);
        proof {
            if spec_slash >= 0 {
                assert(body =~= s@.skip(spec_slash + 1));
            } else {
                assert(body =~= s@);
            }
            assert(s@.subrange(0, lo as int - 1) =~= s@.take(lo as int - 1));
            lemma_first_idx_charac(body, ':');
        }
        let colon_opt = find_char(s, lo, ':');
        let ghost spec_colon = first_idx(body, ':');
        proof {
            match colon_opt {
                Some(j) => {
                    assert(body[j - lo] == s@[j as int]);
                    assert forall|m: int| 0 <= m < j - lo implies body[m] != ':' by {
                        assert(body[m] == s@[m + lo]);
                    }
                    assert(spec_colon == j - lo);
                },
                None => {
                    assert forall|m: int| 0 <= m < body.len() implies body[m] != ':' by {
                        assert(body[m] == s@[m + lo]);
                    }
                    assert(spec_colon == -1);
                },
            }
        }
        let main_end = match colon_opt {
            Some(j) => j,
            None => n,
        };
        let ghost main = if spec_colon >= 0 {
            body.take(spec_colon)
        } else {
            body
        };
        proof {
            assert(main =~= s@.subrange(lo as int, main_end as int));
        }
        let mut dotted = false;
        if main_end > lo {
            let c = s.get_char(main_end - 1);
            if c as u32 == 46 {
                dotted = true;
            }
        }
        proof {
            if main.len() >= 1 {
                assert(main.last() == s@[main_end - 1]);
            }
            assert(dotted == (main.len() >= 1 && main.last() == '.'));
        }
        let base_end = if dotted {
            main_end - 1
        } else {
            main_end
        };
        let ghost base_s = if dotted {
            main.drop_last()
        } else {
            main
        };
        proof {
            assert(base_s =~= s@.subrange(lo as int, base_end as int));
        }
        if base_end <= lo {
            proof {
                assert(base_s.len() == 0);
                assert(parse_parts(s@) is None);
            }
            return Err(Error::ParseError("not a duration".to_owned()));
        }
        let base = match parse_digits(s, lo, base_end) {
            Some(v) => v,
            None => {
                proof {
                    assert(parse_parts(s@) is None);
                }
                return Err(Error::ParseError("not a duration".to_owned()));
            },
        };
        let ghost tup_s = body.skip(spec_colon + 1);
        let tup: Option<u16> = match colon_opt {
            None => None,
            Some(j) => {
                proof {
                    assert(tup_s =~= s@.subrange(j + 1, n as int));
                }
                if j + 1 >= n {
                    proof {
                        assert(tup_s.len() == 0);
                        assert(parse_parts(s@) is None);
                    }
                    return Err(Error::ParseError("not a duration".to_owned()));
                }
                match parse_digits(s, j + 1, n) {
                    Some(v) => Some(v),
                    None => {
                        proof {
                            assert(parse_parts(s@) is None);
                        }
                        return Err(Error::ParseError("not a duration".to_owned()));
                    },
                }
            },
        };
        let ghost tup_i: Option<int> = match tup {
            Some(t) => Some(t as int),
            None => None,
        };
        let ghost parts = (cnt as int, base as int, dotted, tup_i);
        proof {
            if spec_slash >= 0 {
                assert(s@.subrange(0, spec_slash) =~= s@.take(spec_slash));
            }
            assert(parse_parts(s@) == Some(parts));
        }
        if base == 0 {
            return Err(Error::InvalidOp("Duration with 0 denominator".to_owned()));
        }
        if let Some(t) = tup {
            if t == 0 {
                return Err(Error::InvalidOp("Duration with 0 denominator".to_owned()));
            }
        }
        let mut d = Duration::new(1, base);
        if dotted {
            let nn = mul16(d.0, 3);
            let dd = mul16(d.1, 2);
            d = match reduce64(nn, dd) {
                Some(x) => x,
                None => {
                    return Err(Error::ParseError("duration out of range".to_owned()));
                },
            };
        }
        let nn = mul16(d.0, cnt);
        d = match reduce64(nn, d.1 as u64) {
            Some(x) => x,
            None => {
                return Err(Error::ParseError("duration out of range".to_owned()));
            },
        };
        if let Some(t) = tup {
            let dd = mul16(d.1, t);
            proof {
                assert(dd >= 1) by (nonlinear_arith)
                    requires
                        d.1 >= 1 && t >= 1 && dd == d.1 as int * t as int,
                ;
            }
            d = match reduce64(d.0 as u64, dd) {
                Some(x) => x,
                None => {
                    return Err(Error::ParseError("duration out of range".to_owned()));
                },
            };
            let nn2 = mul16(d.0, 2);
            d = match reduce64(nn2, d.1 as u64) {
                Some(x) => x,
                None => {
                    return Err(Error::ParseError("duration out of range".to_owned()));
                },
            };
        }
        proof {
            assert(parse_spec(s@) == Some(d@));
        }
        Ok(d)
    }
}

/// The character is an ASCII decimal digit.
pub open spec fn is_digit(c: char) -> bool {
    48 <= c as int <= 57
}

/// The numeric value of an ASCII digit.
pub open spec fn digit_val(c: char) -> int {
    c as int - 48
}

/// Every character of the sequence is an ASCII decimal digit.
pub open spec fn all_digits(s: Seq<char>) -> bool {
    forall|i: int| 0 <= i < s.len() ==> is_digit(#[trigger] s[i])
}

/// The number denoted by a sequence of ASCII digits, most significant
/// first; the empty sequence denotes zero.
pub open spec fn digits_val(s: Seq<char>) -> int
    decreases s.len(),
{
    if s.len() == 0 {
        0
    } else {
        digits_val(s.drop_last()) * 10 + digit_val(s.last())
    }
}

/// The index of the first occurrence of `c` in `s`, or `-1` if absent.
pub open spec fn first_idx(s: Seq<char>, c: char) -> int
    decreases s.len(),
{
    if s.len() == 0 {
        -1
    } else if s[0] == c {
        0
    } else {
        let r = first_idx(s.drop_first(), c);
        if r == -1 {
            -1
        } else {
            r + 1
        }
    }
}

/// A digit string denotes a nonnegative number.
pub proof fn lemma_digits_val_nonneg(s: Seq<char>)
    requires
        all_digits(s),
    ensures
        digits_val(s) >= 0,
    decreases s.len(),
{
    if s.len() > 0 {
        assert(all_digits(s.drop_last()));
        lemma_digits_val_nonneg(s.drop_last());
    }
}

/// Extending a digit string to the right never shrinks its value.
pub proof fn lemma_digits_val_prefix(s: Seq<char>, i: int)
    requires
        all_digits(s),
        0 <= i <= s.len(),
    ensures
        digits_val(s.take(i)) <= digits_val(s),
    decreases s.len() - i,
{
    if i == s.len() {
        assert(s.take(i) =~= s);
    } else {
        assert(s.take(i + 1).drop_last() =~= s.take(i));
        assert(s.take(i + 1).last() == s[i]);
        assert(all_digits(s.take(i)));
        lemma_digits_val_nonneg(s.take(i));
        lemma_digits_val_prefix(s, i + 1);
    }
}

/// `first_idx` finds the first occurrence: characters before it differ
/// from `c`, and the index is in range and holds `c` whenever one exists.
pub proof fn lemma_first_idx_charac(s: Seq<char>, c: char)
    ensures
        first_idx(s, c) == -1 ==> forall|k: int| 0 <= k < s.len() ==> s[k] != c,
        first_idx(s, c) != -1 ==> 0 <= first_idx(s, c) < s.len() && s[first_idx(s, c)] == c
            && forall|k: int| 0 <= k < first_idx(s, c) ==> s[k] != c,
    decreases s.len(),
{
    if s.len() > 0 && s[0] != c {
        let t = s.drop_first();
        lemma_first_idx_charac(t, c);
        if first_idx(t, c) == -1 {
            assert forall|k: int| 0 <= k < s.len() implies s[k] != c by {
                if k >= 1 {
                    assert(s[k] == t[k - 1]);
                }
            }
        } else {
            assert(s[first_idx(s, c)] == t[first_idx(t, c)]);
            assert forall|k: int| 0 <= k < first_idx(s, c) implies s[k] != c by {
                if k >= 1 {
                    assert(s[k] == t[k - 1]);
                }
            }
        }
    }
}

/// Scan `s` from index `from` for the character `c`.
fn find_char(s: &str, from: usize, c: char) -> (r: Option<usize>)
    requires
        from <= s@.len(),
    ensures
        match r {
            Some(j) => from <= j < s@.len() && s@[j as int] == c && (forall|k: int|
                from <= k < j ==> s@[k] != c),
            None => forall|k: int| from <= k < s@.len() ==> s@[k] != c,
        },
{
    let n = s.unicode_len();
    let mut k = from;
    while k < n
        invariant
            from <= k <= n == s@.len(),
            forall|j: int| from <= j < k ==> s@[j] != c,
        decreases n - k,
    {
        let here = s.get_char(k);
        if here as u32 == c as u32 {
            return Some(k);
        }
        k = k + 1;
    }
    None
}

/// Parse `s[from..to]` as a run of ASCII digits with value at most
/// `u16::MAX`.
pub(crate) fn parse_digits(s: &str, from: usize, to: usize) -> (r: Option<u16>)
    requires
        from <= to <= s@.len(),
    ensures
        ({
            let sub = s@.subrange(from as int, to as int);
            match r {
                Some(v) => all_digits(sub) && v as int == digits_val(sub),
                None => !all_digits(sub) || digits_val(sub) > 0xffff,
            }
        }),
{
    let ghost sub = s@.subrange(from as int, to as int);
    let mut acc: u32 = 0;
    let mut k = from;
    while k < to
        invariant
            from <= k <= to <= s@.len(),
            sub == s@.subrange(from as int, to as int),
            all_digits(s@.subrange(from as int, k as int)),
            acc as int == digits_val(s@.subrange(from as int, k as int)),
            acc <= 0xffff,
        decreases to - k,
    {
        let c = s.get_char(k);
        let cv = c as u32;
        if cv < 48 || cv > 57 {
            proof {
                assert(sub[k - from] == s@[k as int]);
                assert(!is_digit(sub[k - from]));
            }
            return None;
        }
        proof {
            assert(s@.subrange(from as int, k as int + 1).drop_last() =~= s@.subrange(
                from as int,
                k as int,
            ));
            assert(s@.subrange(from as int, k as int + 1).last() == s@[k as int]);
        }
        acc = acc * 10 + (cv - 48);
        k = k + 1;
        if acc > 0xffff {
            proof {
                if all_digits(sub) {
                    lemma_digits_val_prefix(sub, k - from);
                    assert(sub.take(k - from) =~= s@.subrange(from as int, k as int));
                }
            }
            return None;
        }
    }
    proof {
        assert(s@.subrange(from as int, to as int) =~= s@.subrange(from as int, k as int));
    }
    Some(acc as u16)
}

/// The four parts of a duration's textual form
/// `[count "/"] base ["."] [":" tuplet]`: the count (one when absent), the
/// base note-length code, whether the value is dotted, and the tuplet
/// divisor when present. `None` when the text does not have this shape or
/// a number in it exceeds `u16::MAX`.
pub open spec fn parse_parts(s: Seq<char>) -> Option<(int, int, bool, Option<int>)> {
    let slash = first_idx(s, '/');
    let body = if slash >= 0 {
        s.skip(slash + 1)
    } else {
        s
    };
    let colon = first_idx(body, ':');
    let main = if colon >= 0 {
        body.take(colon)
    } else {
        body
    };
    let dotted = main.len() >= 1 && main.last() == '.';
    let base_s = if dotted {
        main.drop_last()
    } else {
        main
    };
    let tup_s = body.skip(colon + 1);
    let cnt_ok = slash < 0 || (slash >= 1 && all_digits(s.take(slash)) && digits_val(
        s.take(slash),
    ) <= 0xffff);
    let tup_ok = colon < 0 || (tup_s.len() >= 1 && all_digits(tup_s) && digits_val(tup_s)
        <= 0xffff);
    let base_ok = base_s.len() >= 1 && all_digits(base_s) && digits_val(base_s) <= 0xffff;
    if cnt_ok && tup_ok && base_ok {
        Some(
            (
                if slash >= 0 {
                    digits_val(s.take(slash))
                } else {
                    1
                },
                digits_val(base_s),
                dotted,
                if colon >= 0 {
                    Some(digits_val(tup_s))
                } else {
                    None
                },
            ),
        )
    } else {
        None
    }
}

/// The duration denoted by the parts of a textual form: one over the
/// base, dotted makes it half again as long, times the count, and a
/// tuplet divides by the tuplet and doubles. Canonicalized at every step;
/// `None` when a denominator is zero or a step leaves `u16` range.
pub open spec fn parse_eval(p: (int, int, bool, Option<int>)) -> Option<(int, int)> {
    if p.1 == 0 {
        None
    } else {
        let d0 = fred(1, p.1);
        let d1 = if p.2 {
            fred(3 * d0.0, 2 * d0.1)
        } else {
            d0
        };
        if !fits16(d1) {
            None
        } else {
            let d2 = fred(d1.0 * p.0, d1.1);
            if !fits16(d2) {
                None
            } else {
                match p.3 {
                    None => Some(d2),
                    Some(t) => if t == 0 {
                        None
                    } else {
                        let d3 = fred(d2.0, d2.1 * t);
                        if !fits16(d3) {
                            None
                        } else {
                            let d4 = fred(2 * d3.0, d3.1);
                            if fits16(d4) {
                                Some(d4)
                            } else {
                                None
                            }
                        }
                    },
                }
            }
        }
    }
}

/// The duration denoted by a well-formed duration text, `None` otherwise.
pub open spec fn parse_spec(s: Seq<char>) -> Option<(int, int)> {
    match parse_parts(s) {
        None => None,
        Some(p) => parse_eval(p),
    }
}

/// The text has the grammar's shape but names a zero divisor: a zero
/// base, or a zero tuplet.
pub open spec fn parse_zero_den(s: Seq<char>) -> bool {
    match parse_parts(s) {
        None => false,
        Some(p) => p.1 == 0 || p.3 == Some(0int),
    }
}

/// The display glyph for a reduced duration: common whole through
/// thirty-second notes, their dotted forms, and triplet forms have a
/// three-character glyph; anything else renders as a placeholder.
pub open spec fn dur_icon_spec(d: (int, int)) -> Seq<char> {
    if d == (1int, 1int) {
        " 1 "@
    } else if d == (1int, 2int) {
        " 2 "@
    } else if d == (1int, 4int) {
        " 4 "@
    } else if d == (1int, 8int) {
        " 8 "@
    } else if d == (1int, 16int) {
        "16 "@
    } else if d == (1int, 32int) {
        "32 "@
    } else if d == (3int, 2int) {
        " 1\u{2022}"@
    } else if d == (3int, 4int) {
        " 2\u{2022}"@
    } else if d == (3int, 8int) {
        " 4\u{2022}"@
    } else if d == (3int, 16int) {
        " 8\u{2022}"@
    } else if d == (3int, 32int) {
        "16\u{2022}"@
    } else if d == (1int, 3int) {
        " 2\u{2153}"@
    } else if d == (1int, 6int) {
        " 4\u{2153}"@
    } else if d == (1int, 12int) {
        " 8\u{2153}"@
    } else if d == (1int, 24int) {
        "16\u{2153}"@
    } else if d == (1int, 48int) {
        "32\u{2153}"@
    } else if d == (1int, 96int) {
        "64\u{2153}"@
    } else {
        " ? "@
    }
}

impl PartialEq for Duration {
    /// Equality of the rationals, by cross-multiplication.
    fn eq(&self, other: &Self) -> (r: bool) {
        mul16(self.0, other.1) == mul16(other.0, self.1)
    }
}

impl vstd::std_specs::cmp::PartialEqSpecImpl for Duration {
    open spec fn obeys_eq_spec() -> bool {
        true
    }

    open spec fn eq_spec(&self, other: &Self) -> bool {
        frac_eq(self@, other@)
    }
}

impl Eq for Duration {

}

impl PartialOrd for Duration {
    /// The total order on the rationals, by cross-multiplication.
    fn partial_cmp(&self, other: &Self) -> (r: Option<core::cmp::Ordering>) {
        let a = mul16(self.0, other.1);
        let b = mul16(other.0, self.1);
        if a < b {
            Some(core::cmp::Ordering::Less)
        } else if a == b {
            Some(core::cmp::Ordering::Equal)
        } else {
            Some(core::cmp::Ordering::Greater)
        }
    }
}

impl vstd::std_specs::cmp::PartialOrdSpecImpl for Duration {
    open spec fn obeys_partial_cmp_spec() -> bool {
        true
    }

    open spec fn partial_cmp_spec(&self, other: &Self) -> Option<core::cmp::Ordering> {
        if frac_lt(self@, other@) {
            Some(core::cmp::Ordering::Less)
        } else if frac_eq(self@, other@) {
            Some(core::cmp::Ordering::Equal)
        } else {
            Some(core::cmp::Ordering::Greater)
        }
    }
}

/// Adding a duration and then subtracting it again is the identity on
/// reduced durations: for all well-formed `a` and `b`,
/// `(a + b) - b == a`. No underflow can occur, since `a + b` is at least
/// `b`, so the saturating subtraction is exact here.
pub proof fn lemma_add_sub_cancel(a: (int, int), b: (int, int))
    requires
        reduced(a),
        reduced(b),
    ensures
        fsub(fadd(a, b), b) == a,
{
    let s = a.0 * b.1 + b.0 * a.1;
    let m = a.1 * b.1;
    assert(s >= 0 && m >= 1) by (nonlinear_arith)
        requires
            a.0 >= 0 && a.1 >= 1 && b.0 >= 0 && b.1 >= 1 && s == a.0 * b.1 + b.0 * a.1 && m == a.1
                * b.1,
    ;
    lemma_fred_reduced(s, m);
    let f = fadd(a, b);
    assert(f == fred(s, m));
    // no underflow: f.0 * b.1 >= b.0 * f.1
    assert(f.0 * b.1 >= b.0 * f.1) by (nonlinear_arith)
        requires
            f.0 * m == s * f.1 && s == a.0 * b.1 + b.0 * a.1 && m == a.1 * b.1 && a.0 >= 0 && a.1
                >= 1 && b.0 >= 0 && b.1 >= 1 && f.1 >= 1 && f.0 >= 0,
    ;
    let t = f.0 * b.1 - b.0 * f.1;
    // the difference denotes the rational `a` again
    assert(f.0 * (a.1 * b.1) == (a.0 * b.1 + b.0 * a.1) * f.1);
    assert((f.0 * b.1) * a.1 == (a.0 * b.1) * f.1 + (b.0 * f.1) * a.1) by (nonlinear_arith)
        requires
            f.0 * (a.1 * b.1) == (a.0 * b.1 + b.0 * a.1) * f.1,
    ;
    assert(t * a.1 == a.0 * (f.1 * b.1)) by (nonlinear_arith)
        requires
            t == f.0 * b.1 - b.0 * f.1 && (f.0 * b.1) * a.1 == (a.0 * b.1) * f.1 + (b.0 * f.1)
                * a.1,
    ;
    assert(f.1 * b.1 >= 1) by (nonlinear_arith)
        requires
            f.1 >= 1 && b.1 >= 1,
    ;
    lemma_fred_canon(a, t, f.1 * b.1);
}

/// Subtracting a duration from itself always yields the zero duration.
pub proof fn lemma_sub_self(a: (int, int))
    requires
        reduced(a),
    ensures
        fsub(a, a) == (0int, 1int),
{
    assert(a.0 * a.1 >= a.0 * a.1);
}

} // verus!
