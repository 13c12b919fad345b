//! The denomination-aware amount algebra.
//!
//! An [`Amount`] represents the value `count * 10^unit` as a pair of a
//! bounded counter and a signed power of ten.  Two amounts are equal exactly
//! when they denote the same rational value; all operations are exact, and an
//! addition or subtraction whose exact result cannot be carried by the
//! counter at any legal unit is refused, which bounds the amount of "dust"
//! change a reissue can produce.

use vstd::prelude::*;
use crate::error::Error;

verus! {

use vstd::string::StringExecFns;

/// The exponent of an amount: the `unit` in `count * 10^unit`.
pub type PowerOfTen = i8;

/// The counter of an amount: the `count` in `count * 10^unit`.
pub type AmountCounter = u32;

/// The largest legal counter: one billion.
pub const COUNTER_MAX: u32 = 1000000000;

/// The largest legal unit.  Staying nine short of `i8::MAX` keeps the
/// canonicalizing loops of the algebra inside `i8` in every case.
pub const UNIT_MAX: i8 = 118;

/// The smallest legal unit.
pub const UNIT_MIN: i8 = -118;

/// `10^e`.
pub open spec fn pow10(e: nat) -> nat
    decreases e,
{
    if e == 0 {
        1
    } else {
        10 * pow10((e - 1) as nat)
    }
}

/// A numeric amount, denoting the value `count * 10^unit`.
#[derive(Clone, Copy, Debug)]
pub struct Amount {
    pub count: AmountCounter,
    pub unit: PowerOfTen,
}

impl Amount {
    /// The mathematical value of this amount, scaled by the constant factor
    /// `10^128` so that it is a natural number for every legal unit.
    pub open spec fn scaled(self) -> nat {
        (self.count as nat) * pow10((self.unit + 128) as nat)
    }

    /// The representation invariant: the counter is bounded by
    /// [`COUNTER_MAX`] and the unit lies between [`UNIT_MIN`] and
    /// [`UNIT_MAX`].
    pub open spec fn wf(self) -> bool {
        self.count <= COUNTER_MAX && UNIT_MIN <= self.unit <= UNIT_MAX
    }

    /// The canonical ("highest unit") form: the counter is not divisible by
    /// ten unless the unit has already reached [`UNIT_MAX`].  Every value has
    /// exactly one canonical representation (see
    /// [`lemma_canonical_representation_unique`]).
    pub open spec fn canonical(self) -> bool {
        self.count % 10 != 0 || self.unit == UNIT_MAX
    }

    /// A fully reduced counter: not divisible by ten unless zero.  The
    /// results of the exact arithmetic are canonical and reduced, so their
    /// counters never park a trailing zero at the top unit.
    pub open spec fn reduced(self) -> bool {
        self.count % 10 != 0 || self.count == 0
    }
}

/// The canonical form of an amount, at spec level: divide the counter by
/// ten, raising the unit, until the counter is no longer divisible by ten
/// or the unit reaches the top.
pub open spec fn canonical_form(a: Amount) -> Amount
    decreases UNIT_MAX - a.unit
        when a.unit <= UNIT_MAX
{
    if a.count % 10 == 0 && a.unit < UNIT_MAX {
        canonical_form(Amount { count: a.count / 10, unit: (a.unit + 1) as i8 })
    } else {
        a
    }
}

/// The canonical form is a well-formed canonical amount of the same value.
pub proof fn lemma_canonical_form(a: Amount)
    requires
        a.wf(),
    ensures
        canonical_form(a).wf(),
        canonical_form(a).canonical(),
        canonical_form(a).scaled() == a.scaled(),
    decreases UNIT_MAX - a.unit,
{
    if a.count % 10 == 0 && a.unit < UNIT_MAX {
        let next = Amount { count: a.count / 10, unit: (a.unit + 1) as i8 };
        assert(next.scaled() == a.scaled()) by (nonlinear_arith)
            requires
                a.count % 10 == 0,
                a.count >= 0,
                next.count == a.count / 10,
                next.scaled() == (next.count as nat) * pow10((a.unit + 1 + 128) as nat),
                a.scaled() == (a.count as nat) * pow10((a.unit + 128) as nat),
                pow10((a.unit + 1 + 128) as nat) == 10 * pow10((a.unit + 128) as nat),
        {};
        lemma_canonical_form(next);
    }
}

impl Amount {
    /// Makes the amount `count * 10^unit`.
    pub fn new(count: AmountCounter, unit: PowerOfTen) -> (r: Self)
        requires
            count <= COUNTER_MAX,
            UNIT_MIN <= unit <= UNIT_MAX,
        ensures
            r == (Amount { count, unit }),
            r.wf(),
    {
        Amount { count, unit }
    }

    /// The largest legal counter.
    pub fn counter_max() -> (r: AmountCounter)
        ensures
            r == COUNTER_MAX,
    {
        COUNTER_MAX
    }

    /// The largest legal unit.
    pub fn unit_max() -> (r: i8)
        ensures
            r == UNIT_MAX,
    {
        UNIT_MAX
    }

    /// The smallest legal unit.
    pub fn unit_min() -> (r: i8)
        ensures
            r == UNIT_MIN,
    {
        UNIT_MIN
    }

    /// The largest representable amount.
    pub fn max() -> (r: Self)
        ensures
            r == (Amount { count: COUNTER_MAX, unit: UNIT_MAX }),
            r.wf(),
    {
        Amount { count: COUNTER_MAX, unit: UNIT_MAX }
    }

    /// Rewrites this amount into its canonical, highest-unit form: the
    /// equivalent representation whose counter is not divisible by ten
    /// (or whose unit has reached [`UNIT_MAX`]).
    pub fn to_highest_unit(self) -> (r: Self)
        requires
            self.wf(),
        ensures
            r.wf(),
            r.canonical(),
            r.scaled() == self.scaled(),
            self.canonical() ==> r == self,
            r.count <= self.count,
            r == canonical_form(self),
    {
        proof {
            lemma_canonical_form(self);
        }
        let mut count = self.count;
        let mut unit = self.unit;
        while count % 10 == 0 && unit < UNIT_MAX
            invariant
                count <= self.count,
                UNIT_MIN <= self.unit <= unit <= UNIT_MAX,
                (count as nat) * pow10((unit + 128) as nat) == self.scaled(),
                self.canonical() ==> count == self.count && unit == self.unit,
            decreases UNIT_MAX - unit,
        {
            proof {
                lemma_pow10_pos((unit + 128) as nat);
                assert((count / 10) as nat * pow10((unit + 1 + 128) as nat)
                    == (count as nat) * pow10((unit + 128) as nat)) by (nonlinear_arith)
                    requires
                        count % 10 == 0,
                        count >= 0,
                        pow10((unit + 1 + 128) as nat) == 10 * pow10((unit + 128) as nat),
                {};
            }
            count = count / 10;
            unit = unit + 1;
        }
        let r = Amount { count, unit };
        proof {
            lemma_canonical_representation_unique(r, canonical_form(self));
        }
        r
    }
}

impl Default for Amount {
    /// The zero amount at unit zero.
    fn default() -> (r: Self)
        ensures
            r == (Amount { count: 0u32, unit: 0i8 }),
            r.wf(),
    {
        Amount { count: 0, unit: 0 }
    }
}

/// A scaled value can be carried by some well-formed amount in reduced
/// form: the success condition of the exact arithmetic.
pub open spec fn representable(v: nat) -> bool {
    exists|a: Amount| a.wf() && a.reduced() && #[trigger] a.scaled() == v
}

/// Strips one factor of ten from an equation between scaled counters.
proof fn lemma_mul_pow_cancel(x: nat, y: nat, e1: nat, e2: nat)
    requires
        e1 <= e2,
        x * pow10(e1) == y * pow10(e2),
    ensures
        x == y * pow10((e2 - e1) as nat),
{
    lemma_pow10_adds(e1, (e2 - e1) as nat);
    lemma_pow10_pos(e1);
    assert(x * pow10(e1) == (y * pow10((e2 - e1) as nat)) * pow10(e1)) by (nonlinear_arith)
        requires x * pow10(e1) == y * (pow10(e1) * pow10((e2 - e1) as nat)),
    {};
    assert(x == y * pow10((e2 - e1) as nat)) by (nonlinear_arith)
        requires
            pow10(e1) >= 1,
            x * pow10(e1) == (y * pow10((e2 - e1) as nat)) * pow10(e1),
    {};
}

/// Every value has at most one canonical well-formed representation: the
/// canonical form is determined by the value alone.  In particular any two
/// equal-valued amounts canonicalize to the identical pair, so a hash of the
/// canonical form agrees with value equality.
pub proof fn lemma_canonical_representation_unique(a: Amount, b: Amount)
    requires
        a.wf(),
        b.wf(),
        a.canonical(),
        b.canonical(),
        a.scaled() == b.scaled(),
    ensures
        a == b,
{
    lemma_pow10_pos((a.unit + 128) as nat);
    lemma_pow10_pos((b.unit + 128) as nat);
    if a.count == 0 || b.count == 0 {
        assert(a.count == 0 && b.count == 0) by (nonlinear_arith)
            requires
                a.scaled() == b.scaled(),
                a.scaled() == (a.count as nat) * pow10((a.unit + 128) as nat),
                b.scaled() == (b.count as nat) * pow10((b.unit + 128) as nat),
                pow10((a.unit + 128) as nat) >= 1,
                pow10((b.unit + 128) as nat) >= 1,
                a.count == 0 || b.count == 0,
        {};
        assert(a.unit == UNIT_MAX && b.unit == UNIT_MAX);
    } else if a.unit == b.unit {
        assert(a.count == b.count) by (nonlinear_arith)
            requires
                (a.count as nat) * pow10((a.unit + 128) as nat)
                    == (b.count as nat) * pow10((a.unit + 128) as nat),
                pow10((a.unit + 128) as nat) >= 1,
        {};
    } else {
        let (lo, hi): (Amount, Amount) = if a.unit < b.unit { (a, b) } else { (b, a) };
        let d = (hi.unit - lo.unit) as nat;
        lemma_mul_pow_cancel(lo.count as nat, hi.count as nat,
            (lo.unit + 128) as nat, (hi.unit + 128) as nat);
        assert(lo.count as nat == (hi.count as nat) * pow10(d));
        lemma_pow10_adds(1, (d - 1) as nat);
        assert(lo.count as nat == (hi.count as nat * pow10((d - 1) as nat)) * 10) by (nonlinear_arith)
            requires
                lo.count as nat == (hi.count as nat) * (10 * pow10((d - 1) as nat)),
        {};
        assert(lo.count % 10 == 0) by (nonlinear_arith)
            requires lo.count as nat == (hi.count as nat * pow10((d - 1) as nat)) * 10,
        {};
        // lo is canonical with a divisible counter, so lo.unit == UNIT_MAX,
        // yet hi.unit is strictly above it and still legal: impossible.
        assert(false);
    }
}

/// The decimal digits of `n`, most significant first; `0` is one digit.
pub open spec fn digits_of(n: nat) -> Seq<u8>
    decreases n,
{
    if n < 10 {
        seq![n as u8]
    } else {
        digits_of(n / 10).push((n % 10) as u8)
    }
}

/// The magnitude of a counter sits between two adjacent powers of ten picked
/// by its digit count.
pub proof fn lemma_digits_len_bounds(n: nat)
    ensures
        digits_of(n).len() >= 1,
        n >= 1 ==> pow10((digits_of(n).len() - 1) as nat) <= n,
        n < pow10(digits_of(n).len()),
    decreases n,
{
    if n < 10 {
        assert(pow10(0) == 1 && pow10(1) == 10) by {
            reveal_with_fuel(pow10, 2);
        };
    } else {
        let m = n / 10;
        lemma_digits_len_bounds(m);
        let lm = digits_of(m).len();
        assert(m >= 1);
        assert(n == 10 * (n / 10) + n % 10 && n % 10 < 10) by (nonlinear_arith)
            requires n >= 10,
        {};
        assert(pow10(lm) == 10 * pow10((lm - 1) as nat));
        assert(10 * pow10((lm - 1) as nat) <= 10 * m) by (nonlinear_arith)
            requires pow10((lm - 1) as nat) <= m,
        {};
        assert(pow10(lm + 1) == 10 * pow10(lm));
        assert(10 * m + 10 <= 10 * pow10(lm)) by (nonlinear_arith)
            requires m < pow10(lm),
        {};
    }
}

fn digits_push(n: u32, xs: &mut Vec<u8>)
    ensures
        final(xs)@ == old(xs)@ + digits_of(n as nat),
    decreases n,
{
    if n >= 10 {
        digits_push(n / 10, xs);
    }
    xs.push((n % 10) as u8);
    proof {
        if n < 10 {
            assert(xs@ == old(xs)@ + digits_of(n as nat));
        } else {
            assert(xs@ == old(xs)@ + digits_of((n / 10) as nat).push((n % 10) as u8));
        }
    }
}

/// The decimal digits of `n`, most significant first: `234523` gives
/// `[2, 3, 4, 5, 2, 3]`.
pub fn digits(n: AmountCounter) -> (r: Vec<u8>)
    ensures
        r@ == digits_of(n as nat),
{
    let mut xs: Vec<u8> = Vec::new();
    digits_push(n, &mut xs);
    xs
}

/// `10^e` as a `u128`.
fn pow10_u128(e: usize) -> (r: u128)
    requires
        e <= 12,
    ensures
        r == pow10(e as nat),
{
    let mut r: u128 = 1;
    let mut i: usize = 0;
    proof {
        assert(pow10(12) == 1000000000000) by {
            reveal_with_fuel(pow10, 13);
        };
    }
    while i < e
        invariant
            i <= e <= 12,
            r == pow10(i as nat),
        decreases e - i,
    {
        proof {
            lemma_pow10_increases((i + 1) as nat, 12);
            assert(pow10(12) == 1000000000000) by {
                reveal_with_fuel(pow10, 13);
            };
        }
        r = r * 10;
        i = i + 1;
    }
    r
}

/// With equal magnitude (unit plus digit count), the order of two amounts is
/// the order of their counters scaled to a common digit length.
proof fn lemma_cross_compare(a: Amount, b: Amount, la: nat, lb: nat)
    requires
        a.unit + la == b.unit + lb,
    ensures
        (a.count as nat) * pow10(lb) < (b.count as nat) * pow10(la)
            <==> a.scaled() < b.scaled(),
        (a.count as nat) * pow10(lb) == (b.count as nat) * pow10(la)
            <==> a.scaled() == b.scaled(),
{
    let x = (a.count as nat) * pow10(lb);
    let y = (b.count as nat) * pow10(la);
    let k = pow10((a.unit + lb + 128 + b.unit + 128) as nat);
    let m = pow10((lb + b.unit + 128) as nat);
    lemma_pow10_pos(m as nat);
    // a.scaled() * m == x * pow10(a.unit + b.unit + 256) and symmetrically,
    // where m is the same multiplier on both sides by magnitude equality.
    lemma_pow10_adds((a.unit + 128) as nat, (lb + b.unit + 128) as nat);
    lemma_pow10_adds(lb, (a.unit + 128 + b.unit + 128) as nat);
    assert(a.scaled() * m == x * pow10((a.unit + 128 + b.unit + 128) as nat)) by (nonlinear_arith)
        requires
            a.scaled() == (a.count as nat) * pow10((a.unit + 128) as nat),
            x == (a.count as nat) * pow10(lb),
            m == pow10((lb + b.unit + 128) as nat),
            pow10((a.unit + 128) as nat) * pow10((lb + b.unit + 128) as nat)
                == pow10((a.unit + 128 + lb + b.unit + 128) as nat),
            pow10(lb) * pow10((a.unit + 128 + b.unit + 128) as nat)
                == pow10((lb + a.unit + 128 + b.unit + 128) as nat),
    {};
    lemma_pow10_adds((b.unit + 128) as nat, (la + a.unit + 128) as nat);
    lemma_pow10_adds(la, (a.unit + 128 + b.unit + 128) as nat);
    assert(b.scaled() * m == y * pow10((a.unit + 128 + b.unit + 128) as nat)) by (nonlinear_arith)
        requires
            b.scaled() == (b.count as nat) * pow10((b.unit + 128) as nat),
            y == (b.count as nat) * pow10(la),
            m == pow10((la + a.unit + 128) as nat),
            pow10((b.unit + 128) as nat) * pow10((la + a.unit + 128) as nat)
                == pow10((b.unit + 128 + la + a.unit + 128) as nat),
            pow10(la) * pow10((a.unit + 128 + b.unit + 128) as nat)
                == pow10((la + a.unit + 128 + b.unit + 128) as nat),
    {};
    let kk = pow10((a.unit + 128 + b.unit + 128) as nat);
    lemma_pow10_pos((a.unit + 128 + b.unit + 128) as nat);
    lemma_pow10_pos((lb + b.unit + 128) as nat);
    assert((x < y <==> a.scaled() < b.scaled()) && (x == y <==> a.scaled() == b.scaled()))
        by (nonlinear_arith)
        requires
            a.scaled() * m == x * kk,
            b.scaled() * m == y * kk,
            m >= 1,
            kk >= 1,
    {};
}

impl Amount {
    /// Compares two amounts by the rational value they denote: the result
    /// totally orders amounts consistently with their value, whatever their
    /// representations.
    #[verifier::rlimit(50)]
    pub fn cmp(&self, other: &Self) -> (r: core::cmp::Ordering)
        ensures
            r == core::cmp::Ordering::Less <==> self.scaled() < other.scaled(),
            r == core::cmp::Ordering::Equal <==> self.scaled() == other.scaled(),
            r == core::cmp::Ordering::Greater <==> self.scaled() > other.scaled(),
    {
        proof {
            lemma_pow10_pos((self.unit + 128) as nat);
            lemma_pow10_pos((other.unit + 128) as nat);
            assert(self.count == 0 ==> self.scaled() == 0);
            assert(other.count == 0 ==> other.scaled() == 0);
            assert(self.count > 0 ==> self.scaled() >= 1) by (nonlinear_arith)
                requires
                    self.scaled() == (self.count as nat) * pow10((self.unit + 128) as nat),
                    pow10((self.unit + 128) as nat) >= 1,
            {};
            assert(other.count > 0 ==> other.scaled() >= 1) by (nonlinear_arith)
                requires
                    other.scaled() == (other.count as nat) * pow10((other.unit + 128) as nat),
                    pow10((other.unit + 128) as nat) >= 1,
            {};
        }
        if self.count == 0 && other.count == 0 {
            return core::cmp::Ordering::Equal;
        }
        if self.count == 0 {
            return core::cmp::Ordering::Less;
        }
        if other.count == 0 {
            return core::cmp::Ordering::Greater;
        }
        if self.unit == other.unit {
            proof {
                assert((self.count < other.count <==> self.scaled() < other.scaled())
                    && (self.count == other.count <==> self.scaled() == other.scaled()))
                    by (nonlinear_arith)
                    requires
                        self.scaled() == (self.count as nat) * pow10((self.unit + 128) as nat),
                        other.scaled() == (other.count as nat) * pow10((self.unit + 128) as nat),
                        pow10((self.unit + 128) as nat) >= 1,
                {};
            }
            if self.count < other.count {
                return core::cmp::Ordering::Less;
            } else if self.count == other.count {
                return core::cmp::Ordering::Equal;
            } else {
                return core::cmp::Ordering::Greater;
            }
        }
        let a_digits = digits(self.count);
        let b_digits = digits(other.count);
        let la = a_digits.len();
        let lb = b_digits.len();
        proof {
            lemma_digits_len_bounds(self.count as nat);
            lemma_digits_len_bounds(other.count as nat);
            assert(pow10(10) == 10000000000) by {
                reveal_with_fuel(pow10, 11);
            };
            if la > 10 {
                lemma_pow10_increases(10, (la - 1) as nat);
            }
            if lb > 10 {
                lemma_pow10_increases(10, (lb - 1) as nat);
            }
            assert(la <= 10 && lb <= 10);
        }
        let a_mag: i32 = self.unit as i32 + la as i32;
        let b_mag: i32 = other.unit as i32 + lb as i32;
        if a_mag != b_mag {
            proof {
                let (s, o, ls, lo) = if a_mag < b_mag {
                    (*self, *other, la as nat, lb as nat)
                } else {
                    (*other, *self, lb as nat, la as nat)
                };
                // s has the smaller magnitude: s.scaled() < pow10(mag_s + 128)
                // <= pow10(mag_o - 1 + 128) <= o.scaled().
                lemma_pow10_adds(ls, (s.unit + 128) as nat);
                assert(s.scaled() < pow10((s.unit + ls + 128) as nat)) by (nonlinear_arith)
                    requires
                        s.scaled() == (s.count as nat) * pow10((s.unit + 128) as nat),
                        (s.count as nat) < pow10(ls),
                        pow10(ls) * pow10((s.unit + 128) as nat)
                            == pow10((ls + s.unit + 128) as nat),
                        pow10((s.unit + 128) as nat) >= 1,
                {};
                lemma_pow10_increases((s.unit + ls + 128) as nat, (o.unit + lo + 128 - 1) as nat);
                lemma_pow10_adds((lo - 1) as nat, (o.unit + 128) as nat);
                assert(pow10((o.unit + lo + 128 - 1) as nat) <= o.scaled()) by (nonlinear_arith)
                    requires
                        o.scaled() == (o.count as nat) * pow10((o.unit + 128) as nat),
                        pow10((lo - 1) as nat) <= (o.count as nat),
                        pow10((lo - 1) as nat) * pow10((o.unit + 128) as nat)
                            == pow10((lo - 1 + o.unit + 128) as nat),
                        pow10((o.unit + 128) as nat) >= 1,
                {};
                assert(s.scaled() < o.scaled());
            }
            if a_mag < b_mag {
                return core::cmp::Ordering::Less;
            } else {
                return core::cmp::Ordering::Greater;
            }
        }
        proof {
            lemma_pow10_increases(lb as nat, 10);
            lemma_pow10_increases(la as nat, 10);
            assert(pow10(10) == 10000000000) by {
                reveal_with_fuel(pow10, 11);
            };
            assert((self.count as nat) * pow10(lb as nat) <= 0xffffffffnat * 10000000000nat)
                by (nonlinear_arith)
                requires
                    self.count <= 0xffffffffu32,
                    pow10(lb as nat) <= 10000000000,
            {};
            assert((other.count as nat) * pow10(la as nat) <= 0xffffffffnat * 10000000000nat)
                by (nonlinear_arith)
                requires
                    other.count <= 0xffffffffu32,
                    pow10(la as nat) <= 10000000000,
            {};
            lemma_cross_compare(*self, *other, la as nat, lb as nat);
        }
        let x: u128 = (self.count as u128) * pow10_u128(lb);
        let y: u128 = (other.count as u128) * pow10_u128(la);
        if x < y {
            core::cmp::Ordering::Less
        } else if x == y {
            core::cmp::Ordering::Equal
        } else {
            core::cmp::Ordering::Greater
        }
    }
}

/// A scaled value whose counter at unit `u` is too large or keeps a nonzero
/// trailing-zero counter, and which cannot be rescaled upward (its counter
/// is not divisible by ten, or `u` is already the top unit), fits no
/// well-formed reduced amount.
proof fn lemma_unrepresentable(c: nat, u: int)
    requires
        UNIT_MIN <= u <= UNIT_MAX,
        c > COUNTER_MAX || (c % 10 == 0 && c > 0),
        c % 10 != 0 || u == UNIT_MAX as int,
    ensures
        !representable(c * pow10((u + 128) as nat)),
{
    let v = c * pow10((u + 128) as nat);
    lemma_pow10_pos((u + 128) as nat);
    assert(v >= c) by (nonlinear_arith)
        requires v == c * pow10((u + 128) as nat), pow10((u + 128) as nat) >= 1, c >= 0,
    {};
    if representable(v) {
        let a = choose|a: Amount| a.wf() && a.reduced() && #[trigger] a.scaled() == v;
        lemma_pow10_pos((a.unit + 128) as nat);
        assert(a.count > 0) by (nonlinear_arith)
            requires
                a.scaled() == (a.count as nat) * pow10((a.unit + 128) as nat),
                a.scaled() == v,
                v >= c,
                c >= 1,
        {};
        if a.unit <= u {
            lemma_mul_pow_cancel(a.count as nat, c, (a.unit + 128) as nat, (u + 128) as nat);
            let q = pow10((u - a.unit) as nat);
            lemma_pow10_pos((u - a.unit) as nat);
            assert(a.count as nat >= c) by (nonlinear_arith)
                requires a.count as nat == c * q, q >= 1, c >= 0,
            {};
            if c > COUNTER_MAX {
                assert(false);
            } else {
                // c is a nonzero multiple of ten, so every counter carrying
                // this value at or above unit `u` keeps that factor of ten,
                // and the witness cannot be reduced.
                assert(a.count as nat == 10 * ((c / 10) * q)) by (nonlinear_arith)
                    requires
                        a.count as nat == c * q,
                        c % 10 == 0,
                        c >= 0,
                {};
                vstd::arithmetic::div_mod::lemma_mod_multiples_vanish(
                    ((c / 10) * q) as int, 0, 10);
                assert(false);
            }
        } else {
            // a.unit > u, so u < UNIT_MAX and hence c is not divisible by
            // ten; yet c equals a counter times a positive power of ten.
            lemma_mul_pow_cancel(c, a.count as nat, (u + 128) as nat, (a.unit + 128) as nat);
            let d = (a.unit - u) as nat;
            lemma_pow10_adds(1, (d - 1) as nat);
            assert(pow10(1) == 10) by {
                reveal_with_fuel(pow10, 2);
            };
            assert(c == 10 * ((a.count as nat) * pow10((d - 1) as nat))) by (nonlinear_arith)
                requires
                    c == (a.count as nat) * pow10(d),
                    pow10(d) == 10 * pow10((d - 1) as nat),
            {};
            vstd::arithmetic::div_mod::lemma_mod_multiples_vanish(
                ((a.count as nat) * pow10((d - 1) as nat)) as int, 0, 10);
            assert(false);
        }
    }
}

/// Rescales the exact counter `c0` at unit `u0` into canonical reduced
/// form, giving the unique well-formed amount of that value, or
/// `AmountIncompatible` where no well-formed reduced amount carries it.
fn finish(c0: u64, u0: i8) -> (r: Result<Amount, Error>)
    requires
        UNIT_MIN <= u0 <= UNIT_MAX,
    ensures
        r is Ok <==> representable((c0 as nat) * pow10((u0 + 128) as nat)),
        r matches Ok(s) ==> s.wf() && s.canonical() && s.reduced()
            && s.scaled() == (c0 as nat) * pow10((u0 + 128) as nat),
        r matches Err(e) ==> e == Error::AmountIncompatible,
{
    let ghost v = (c0 as nat) * pow10((u0 + 128) as nat);
    let mut c: u64 = c0;
    let mut u: i8 = u0;
    while c % 10 == 0 && u < UNIT_MAX
        invariant
            c <= c0,
            UNIT_MIN <= u0 <= u <= UNIT_MAX,
            (c as nat) * pow10((u + 128) as nat) == v,
        decreases UNIT_MAX - u,
    {
        proof {
            assert((c / 10) as nat * pow10((u + 1 + 128) as nat)
                == (c as nat) * pow10((u + 128) as nat)) by (nonlinear_arith)
                requires
                    c % 10 == 0,
                    c >= 0,
                    pow10((u + 1 + 128) as nat) == 10 * pow10((u + 128) as nat),
            {};
        }
        c = c / 10;
        u = u + 1;
    }
    if c > COUNTER_MAX as u64 || (c % 10 == 0 && c > 0) {
        proof {
            lemma_unrepresentable(c as nat, u as int);
        }
        Err(Error::AmountIncompatible)
    } else {
        let s = Amount { count: c as u32, unit: u };
        proof {
            assert(s.wf() && s.canonical() && s.reduced() && s.scaled() == v);
        }
        Ok(s)
    }
}

/// `10^e` as a `u64`, for the unit distances the algebra can bridge.
fn pow10_u64(e: usize) -> (r: u64)
    requires
        e <= 9,
    ensures
        r == pow10(e as nat),
{
    let mut r: u64 = 1;
    let mut i: usize = 0;
    proof {
        assert(pow10(9) == 1000000000) by {
            reveal_with_fuel(pow10, 10);
        };
    }
    while i < e
        invariant
            i <= e <= 9,
            r == pow10(i as nat),
        decreases e - i,
    {
        proof {
            lemma_pow10_increases((i + 1) as nat, 9);
            assert(pow10(9) == 1000000000) by {
                reveal_with_fuel(pow10, 10);
            };
        }
        r = r * 10;
        i = i + 1;
    }
    r
}

impl Amount {
    /// Adds two amounts exactly.  Succeeds precisely when the exact sum is
    /// carried by some well-formed amount in reduced form, and then returns
    /// that canonical form; operands too far apart, and sums whose only
    /// carriers keep a trailing-zero counter at the top unit, are refused
    /// as `AmountIncompatible`.
    pub fn checked_add(self, other: Self) -> (r: Result<Self, Error>)
        requires
            self.wf(),
            other.wf(),
        ensures
            r is Ok <==> representable(self.scaled() + other.scaled()),
            r matches Ok(s) ==> s.wf() && s.canonical() && s.reduced()
                && s.scaled() == self.scaled() + other.scaled(),
            r matches Err(e) ==> e == Error::AmountIncompatible,
    {
        let ghost v = self.scaled() + other.scaled();
        let a = self.to_highest_unit();
        let b = other.to_highest_unit();
        if a.count == 0 {
            proof {
                assert(a.scaled() == 0) by (nonlinear_arith)
                    requires a.scaled() == (a.count as nat) * pow10((a.unit + 128) as nat), a.count == 0,
                {};
                assert((b.count as nat) * pow10((b.unit + 128) as nat) == v);
            }
            return finish(b.count as u64, b.unit);
        }
        if b.count == 0 {
            proof {
                assert(b.scaled() == 0) by (nonlinear_arith)
                    requires b.scaled() == (b.count as nat) * pow10((b.unit + 128) as nat), b.count == 0,
                {};
                assert((a.count as nat) * pow10((a.unit + 128) as nat) == v);
            }
            return finish(a.count as u64, a.unit);
        }
        if a.unit == b.unit {
            let c0: u64 = a.count as u64 + b.count as u64;
            proof {
                assert((c0 as nat) * pow10((a.unit + 128) as nat) == v) by (nonlinear_arith)
                    requires
                        c0 == a.count + b.count,
                        a.scaled() == (a.count as nat) * pow10((a.unit + 128) as nat),
                        b.scaled() == (b.count as nat) * pow10((a.unit + 128) as nat),
                        v == a.scaled() + b.scaled(),
                {};
            }
            finish(c0, a.unit)
        } else {
            let (hi, lo) = if a.unit > b.unit { (a, b) } else { (b, a) };
            let d = (hi.unit as i32 - lo.unit as i32) as usize;
            proof {
                lemma_pow10_adds(d as nat, (lo.unit + 128) as nat);
                assert((hi.count as nat) * pow10((hi.unit + 128) as nat)
                    == ((hi.count as nat) * pow10(d as nat)) * pow10((lo.unit + 128) as nat))
                    by (nonlinear_arith)
                    requires
                        pow10((hi.unit + 128) as nat) == pow10(d as nat) * pow10((lo.unit + 128) as nat),
                {};
            }
            if d > 9 {
                // The scaled counter at the lower unit exceeds the counter
                // bound and, the low operand being canonical below the top
                // unit, is not divisible by ten: the exact sum fits nowhere.
                proof {
                    let cs = (hi.count as nat) * pow10(d as nat) + lo.count as nat;
                    assert((cs as nat) * pow10((lo.unit + 128) as nat) == v) by (nonlinear_arith)
                        requires
                            (hi.count as nat) * pow10((hi.unit + 128) as nat)
                                == ((hi.count as nat) * pow10(d as nat)) * pow10((lo.unit + 128) as nat),
                            v == (hi.count as nat) * pow10((hi.unit + 128) as nat)
                                + (lo.count as nat) * pow10((lo.unit + 128) as nat),
                            cs == (hi.count as nat) * pow10(d as nat) + lo.count as nat,
                    {};
                    lemma_pow10_increases(10, d as nat);
                    assert(pow10(10) == 10000000000) by {
                        reveal_with_fuel(pow10, 11);
                    };
                    assert(cs > COUNTER_MAX) by (nonlinear_arith)
                        requires
                            cs == (hi.count as nat) * pow10(d as nat) + lo.count as nat,
                            hi.count >= 1,
                            pow10(d as nat) >= 10000000000,
                    {};
                    lemma_pow10_adds(1, (d - 1) as nat);
                    assert(pow10(1) == 10) by {
                        reveal_with_fuel(pow10, 2);
                    };
                    assert(cs == 10 * ((hi.count as nat) * pow10((d - 1) as nat)) + lo.count)
                        by (nonlinear_arith)
                        requires
                            cs == (hi.count as nat) * pow10(d as nat) + lo.count as nat,
                            pow10(d as nat) == 10 * pow10((d - 1) as nat),
                    {};
                    vstd::arithmetic::div_mod::lemma_mod_multiples_vanish(
                        ((hi.count as nat) * pow10((d - 1) as nat)) as int, lo.count as int, 10);
                    lemma_unrepresentable(cs, lo.unit as int);
                }
                Err(Error::AmountIncompatible)
            } else {
                let p = pow10_u64(d);
                proof {
                    lemma_pow10_increases(d as nat, 9);
                    assert(pow10(9) == 1000000000) by {
                        reveal_with_fuel(pow10, 10);
                    };
                    assert((hi.count as nat) * pow10(d as nat)
                        <= 1000000000nat * 1000000000nat) by (nonlinear_arith)
                        requires
                            hi.count <= 1000000000,
                            pow10(d as nat) <= 1000000000,
                    {};
                }
                let c0: u64 = hi.count as u64 * p + lo.count as u64;
                proof {
                    assert((c0 as nat) * pow10((lo.unit + 128) as nat) == v) by (nonlinear_arith)
                        requires
                            (hi.count as nat) * pow10((hi.unit + 128) as nat)
                                == ((hi.count as nat) * pow10(d as nat)) * pow10((lo.unit + 128) as nat),
                            v == (hi.count as nat) * pow10((hi.unit + 128) as nat)
                                + (lo.count as nat) * pow10((lo.unit + 128) as nat),
                            c0 == (hi.count as nat) * pow10(d as nat) + lo.count as nat,
                    {};
                }
                finish(c0, lo.unit)
            }
        }
    }
}

impl Amount {
    /// Subtracts `rhs` from this amount exactly.  Underflows when `rhs` is
    /// semantically larger; otherwise succeeds precisely when the exact
    /// difference is carried by some well-formed amount, and then returns
    /// its canonical form.
    #[verifier::rlimit(30)]
    pub fn checked_sub(self, rhs: Self) -> (r: Result<Self, Error>)
        requires
            self.wf(),
            rhs.wf(),
        ensures
            r == Err::<Amount, Error>(Error::AmountUnderflow) <==> self.scaled() < rhs.scaled(),
            r is Ok <==> self.scaled() >= rhs.scaled()
                && representable((self.scaled() - rhs.scaled()) as nat),
            r matches Ok(s) ==> s.wf() && s.canonical() && s.reduced()
                && s.scaled() == self.scaled() - rhs.scaled(),
            r matches Err(e) ==> e == Error::AmountUnderflow || e == Error::AmountIncompatible,
    {
        if matches!(self.cmp(&rhs), core::cmp::Ordering::Less) {
            return Err(Error::AmountUnderflow);
        }
        let ghost v = (self.scaled() - rhs.scaled()) as nat;
        let a = self.to_highest_unit();
        let b = rhs.to_highest_unit();
        if b.count == 0 {
            proof {
                assert(b.scaled() == 0) by (nonlinear_arith)
                    requires b.scaled() == (b.count as nat) * pow10((b.unit + 128) as nat), b.count == 0,
                {};
                assert((a.count as nat) * pow10((a.unit + 128) as nat) == v);
            }
            return finish(a.count as u64, a.unit);
        }
        proof {
            lemma_pow10_pos((b.unit + 128) as nat);
            assert(b.scaled() >= 1) by (nonlinear_arith)
                requires
                    b.scaled() == (b.count as nat) * pow10((b.unit + 128) as nat),
                    b.count >= 1,
                    pow10((b.unit + 128) as nat) >= 1,
            {};
            assert(a.count >= 1) by (nonlinear_arith)
                requires
                    a.scaled() == (a.count as nat) * pow10((a.unit + 128) as nat),
                    a.scaled() >= 1,
            {};
        }
        if a.unit >= b.unit {
            let d = (a.unit as i32 - b.unit as i32) as usize;
            proof {
                lemma_pow10_adds(d as nat, (b.unit + 128) as nat);
                assert((a.count as nat) * pow10((a.unit + 128) as nat)
                    == ((a.count as nat) * pow10(d as nat)) * pow10((b.unit + 128) as nat))
                    by (nonlinear_arith)
                    requires
                        pow10((a.unit + 128) as nat) == pow10(d as nat) * pow10((b.unit + 128) as nat),
                {};
            }
            if d > 9 {
                // The difference, expressed at the lower unit, keeps the
                // subtrahend's final digit (which is nonzero) and still
                // exceeds the counter bound: it fits nowhere.
                proof {
                    let sa = (a.count as nat) * pow10(d as nat);
                    let cs = (sa - b.count) as nat;
                    lemma_pow10_increases(10, d as nat);
                    assert(pow10(10) == 10000000000) by {
                        reveal_with_fuel(pow10, 11);
                    };
                    assert(sa >= 10000000000) by (nonlinear_arith)
                        requires
                            sa == (a.count as nat) * pow10(d as nat),
                            a.count >= 1,
                            pow10(d as nat) >= 10000000000,
                    {};
                    assert((cs as nat) * pow10((b.unit + 128) as nat) == v) by (nonlinear_arith)
                        requires
                            (a.count as nat) * pow10((a.unit + 128) as nat)
                                == sa * pow10((b.unit + 128) as nat),
                            v == (a.count as nat) * pow10((a.unit + 128) as nat)
                                - (b.count as nat) * pow10((b.unit + 128) as nat),
                            cs == sa - b.count,
                            sa >= 10000000000,
                            b.count <= 1000000000,
                    {};
                    lemma_pow10_adds(1, (d - 1) as nat);
                    assert(pow10(1) == 10) by {
                        reveal_with_fuel(pow10, 2);
                    };
                    assert(pow10((d - 1) as nat) >= 1000000000) by {
                        lemma_pow10_increases(9, (d - 1) as nat);
                        assert(pow10(9) == 1000000000) by {
                            reveal_with_fuel(pow10, 10);
                        };
                    };
                    assert((a.count as nat) * pow10((d - 1) as nat) >= b.count) by (nonlinear_arith)
                        requires
                            a.count >= 1,
                            pow10((d - 1) as nat) >= 1000000000,
                            b.count <= 1000000000,
                    {};
                    assert(b.count == 10 * (b.count as nat / 10) + b.count % 10
                        && b.count % 10 < 10) by (nonlinear_arith)
                        requires b.count >= 0,
                    {};
                    assert(cs == 10 * ((a.count as nat) * pow10((d - 1) as nat) - (b.count as nat / 10))
                        - b.count % 10 && 0 < b.count % 10 < 10) by (nonlinear_arith)
                        requires
                            cs == (a.count as nat) * pow10(d as nat) - b.count,
                            pow10(d as nat) == 10 * pow10((d - 1) as nat),
                            b.count == 10 * (b.count as nat / 10) + b.count % 10,
                            b.count % 10 != 0 && b.count % 10 < 10,
                            (a.count as nat) * pow10((d - 1) as nat) >= b.count,
                    {};
                    assert(cs == 10 * ((a.count as nat) * pow10((d - 1) as nat) - (b.count as nat / 10) - 1)
                        + (10 - b.count % 10));
                    vstd::arithmetic::div_mod::lemma_mod_multiples_vanish(
                        ((a.count as nat) * pow10((d - 1) as nat) - (b.count as nat / 10) - 1) as int,
                        (10 - b.count % 10) as int, 10);
                    assert(cs % 10 == (10 - b.count % 10) as int % 10);
                    vstd::arithmetic::div_mod::lemma_small_mod((10 - b.count % 10) as nat, 10);
                    assert(cs % 10 != 0);
                    assert(cs > COUNTER_MAX);
                    lemma_unrepresentable(cs, b.unit as int);
                }
                Err(Error::AmountIncompatible)
            } else {
                let p = pow10_u64(d);
                proof {
                    lemma_pow10_increases(d as nat, 9);
                    assert(pow10(9) == 1000000000) by {
                        reveal_with_fuel(pow10, 10);
                    };
                    assert((a.count as nat) * pow10(d as nat)
                        <= 1000000000nat * 1000000000nat) by (nonlinear_arith)
                        requires
                            a.count <= 1000000000,
                            pow10(d as nat) <= 1000000000,
                    {};
                    lemma_pow10_pos((b.unit + 128) as nat);
                    assert((a.count as nat) * pow10(d as nat) >= b.count) by (nonlinear_arith)
                        requires
                            ((a.count as nat) * pow10(d as nat)) * pow10((b.unit + 128) as nat)
                                >= (b.count as nat) * pow10((b.unit + 128) as nat),
                            pow10((b.unit + 128) as nat) >= 1,
                    {};
                }
                let c0: u64 = a.count as u64 * p - b.count as u64;
                proof {
                    assert((c0 as nat) * pow10((b.unit + 128) as nat) == v) by (nonlinear_arith)
                        requires
                            (a.count as nat) * pow10((a.unit + 128) as nat)
                                == ((a.count as nat) * pow10(d as nat)) * pow10((b.unit + 128) as nat),
                            v == (a.count as nat) * pow10((a.unit + 128) as nat)
                                - (b.count as nat) * pow10((b.unit + 128) as nat),
                            c0 == (a.count as nat) * pow10(d as nat) - b.count,
                    {};
                }
                finish(c0, b.unit)
            }
        } else {
            let d = (b.unit as i32 - a.unit as i32) as usize;
            proof {
                lemma_pow10_adds(d as nat, (a.unit + 128) as nat);
                assert((b.count as nat) * pow10((b.unit + 128) as nat)
                    == ((b.count as nat) * pow10(d as nat)) * pow10((a.unit + 128) as nat))
                    by (nonlinear_arith)
                    requires
                        pow10((b.unit + 128) as nat) == pow10(d as nat) * pow10((a.unit + 128) as nat),
                {};
                lemma_pow10_pos((a.unit + 128) as nat);
                assert((b.count as nat) * pow10(d as nat) <= a.count) by (nonlinear_arith)
                    requires
                        ((b.count as nat) * pow10(d as nat)) * pow10((a.unit + 128) as nat)
                            <= (a.count as nat) * pow10((a.unit + 128) as nat),
                        pow10((a.unit + 128) as nat) >= 1,
                {};
                if d > 9 {
                    lemma_pow10_increases(10, d as nat);
                    assert(pow10(10) == 10000000000) by {
                        reveal_with_fuel(pow10, 11);
                    };
                    assert(false) by (nonlinear_arith)
                        requires
                            (b.count as nat) * pow10(d as nat) <= a.count,
                            b.count >= 1,
                            pow10(d as nat) >= 10000000000,
                            a.count <= 1000000000,
                    {};
                }
                lemma_pow10_increases(d as nat, 9);
                assert(pow10(9) == 1000000000) by {
                    reveal_with_fuel(pow10, 10);
                };
                assert((b.count as nat) * pow10(d as nat)
                    <= 1000000000nat * 1000000000nat) by (nonlinear_arith)
                    requires
                        b.count <= 1000000000,
                        pow10(d as nat) <= 1000000000,
                {};
            }
            let p = pow10_u64(d);
            let c0: u64 = a.count as u64 - b.count as u64 * p;
            proof {
                assert((c0 as nat) * pow10((a.unit + 128) as nat) == v) by (nonlinear_arith)
                    requires
                        (b.count as nat) * pow10((b.unit + 128) as nat)
                            == ((b.count as nat) * pow10(d as nat)) * pow10((a.unit + 128) as nat),
                        v == (a.count as nat) * pow10((a.unit + 128) as nat)
                            - (b.count as nat) * pow10((b.unit + 128) as nat),
                        c0 == a.count - (b.count as nat) * pow10(d as nat),
                {};
            }
            finish(c0, a.unit)
        }
    }
}

/// The scaled value of the sum of a sequence of amounts.
pub open spec fn sum_scaled(s: Seq<Amount>) -> nat
    decreases s.len(),
{
    if s.len() == 0 {
        0
    } else {
        sum_scaled(s.drop_last()) + s.last().scaled()
    }
}

/// Every member of the sequence is a well-formed amount.
pub open spec fn all_wf(s: Seq<Amount>) -> bool {
    forall|i: int| 0 <= i < s.len() ==> s[i].wf()
}

/// Every prefix of the sequence has a representable exact sum: the condition
/// under which folding `checked_add` over the sequence succeeds.
pub open spec fn prefixes_representable(s: Seq<Amount>) -> bool {
    forall|i: int| 0 <= i <= s.len() ==> representable(sum_scaled(#[trigger] s.take(i)))
}

impl Amount {
    /// Folds exact addition over the amounts, starting from zero.  Succeeds
    /// precisely when every running sum is representable, and then returns
    /// the canonical amount of the exact total.
    pub fn checked_sum(amounts: &Vec<Amount>) -> (r: Result<Self, Error>)
        requires
            all_wf(amounts@),
        ensures
            r is Ok <==> prefixes_representable(amounts@),
            r matches Ok(s) ==> s.wf() && s.scaled() == sum_scaled(amounts@),
            r matches Ok(s) ==> (amounts@.len() > 0 ==> s.canonical() && s.reduced()),
            r matches Err(e) ==> e == Error::AmountIncompatible,
    {
        let mut sum = Amount { count: 0, unit: 0 };
        let mut i: usize = 0;
        proof {
            assert(amounts@.take(0) =~= Seq::<Amount>::empty());
            assert(sum.scaled() == 0) by (nonlinear_arith)
                requires sum.scaled() == (sum.count as nat) * pow10((sum.unit + 128) as nat), sum.count == 0,
            {};
            assert(representable(0)) by {
                assert(sum.wf() && sum.scaled() == 0);
            };
        }
        while i < amounts.len()
            invariant
                i <= amounts@.len(),
                all_wf(amounts@),
                sum.wf(),
                i > 0 ==> sum.canonical() && sum.reduced(),
                sum.scaled() == sum_scaled(amounts@.take(i as int)),
                forall|j: int| 0 <= j <= i ==> representable(sum_scaled(#[trigger] amounts@.take(j))),
            decreases amounts@.len() - i,
        {
            proof {
                assert(amounts@.take(i + 1).drop_last() =~= amounts@.take(i as int));
                assert(amounts@.take(i + 1).last() == amounts@[i as int]);
            }
            match sum.checked_add(amounts[i]) {
                Ok(next) => {
                    sum = next;
                }
                Err(e) => {
                    proof {
                        assert(!representable(sum_scaled(amounts@.take(i + 1))));
                    }
                    return Err(e);
                }
            }
            i = i + 1;
        }
        proof {
            assert(amounts@.take(amounts@.len() as int) =~= amounts@);
        }
        Ok(sum)
    }
}

impl PartialEq for Amount {
    /// Semantic equality: two amounts are equal when they denote the same
    /// rational value, whatever their representations.
    fn eq(&self, other: &Self) -> (r: bool) {
        matches!(self.cmp(other), core::cmp::Ordering::Equal)
    }
}

impl Eq for Amount {}

impl vstd::std_specs::cmp::PartialEqSpecImpl for Amount {
    open spec fn obeys_eq_spec() -> bool {
        true
    }

    open spec fn eq_spec(&self, other: &Self) -> bool {
        self.scaled() == other.scaled()
    }
}

impl PartialOrd for Amount {
    /// Semantic order: amounts are ordered by the rational value they
    /// denote.
    fn partial_cmp(&self, other: &Self) -> (r: Option<core::cmp::Ordering>) {
        Some(self.cmp(other))
    }
}

impl vstd::std_specs::cmp::PartialOrdSpecImpl for Amount {
    open spec fn obeys_partial_cmp_spec() -> bool {
        true
    }

    open spec fn partial_cmp_spec(&self, other: &Self) -> Option<core::cmp::Ordering> {
        if self.scaled() < other.scaled() {
            Some(core::cmp::Ordering::Less)
        } else if self.scaled() == other.scaled() {
            Some(core::cmp::Ordering::Equal)
        } else {
            Some(core::cmp::Ordering::Greater)
        }
    }
}

/// Exact addition is commutative: successful checked adds of the same two
/// amounts, taken in either order, return the identical amount.  The
/// premises are exactly what `checked_add` ensures of its results.
pub proof fn lemma_checked_add_commutes(a: Amount, b: Amount, ab: Amount, ba: Amount)
    requires
        ab.wf(),
        ba.wf(),
        ab.canonical(),
        ba.canonical(),
        ab.scaled() == a.scaled() + b.scaled(),
        ba.scaled() == b.scaled() + a.scaled(),
    ensures
        ab == ba,
{
    lemma_canonical_representation_unique(ab, ba);
}

/// Semantically equal amounts canonicalize to the identical representation,
/// so any hash computed on the canonical form agrees with equality.
pub proof fn lemma_eq_amounts_same_canonical(a: Amount, b: Amount, ca: Amount, cb: Amount)
    requires
        ca.wf(),
        cb.wf(),
        ca.canonical(),
        cb.canonical(),
        ca.scaled() == a.scaled(),
        cb.scaled() == b.scaled(),
        a.scaled() == b.scaled(),
    ensures
        ca == cb,
{
    lemma_canonical_representation_unique(ca, cb);
}

/// The character of one decimal digit.
pub open spec fn digit_char(d: nat) -> char {
    if d == 0 { '0' }
    else if d == 1 { '1' }
    else if d == 2 { '2' }
    else if d == 3 { '3' }
    else if d == 4 { '4' }
    else if d == 5 { '5' }
    else if d == 6 { '6' }
    else if d == 7 { '7' }
    else if d == 8 { '8' }
    else { '9' }
}

/// The decimal rendering of `n`, most significant digit first.
pub open spec fn dec_str(n: nat) -> Seq<char>
    decreases n,
{
    if n < 10 {
        seq![digit_char(n)]
    } else {
        dec_str(n / 10) + seq![digit_char(n % 10)]
    }
}

/// The decimal rendering of a signed integer.
pub open spec fn int_str(i: int) -> Seq<char> {
    if i < 0 {
        seq!['-'] + dec_str((-i) as nat)
    } else {
        dec_str(i as nat)
    }
}

fn digit_str(d: u64) -> (r: &'static str)
    requires
        d < 10,
    ensures
        r@ == seq![digit_char(d as nat)],
{
    proof {
        reveal_strlit("0");
        reveal_strlit("1");
        reveal_strlit("2");
        reveal_strlit("3");
        reveal_strlit("4");
        reveal_strlit("5");
        reveal_strlit("6");
        reveal_strlit("7");
        reveal_strlit("8");
        reveal_strlit("9");
        assert("0"@ =~= seq!['0']);
        assert("1"@ =~= seq!['1']);
        assert("2"@ =~= seq!['2']);
        assert("3"@ =~= seq!['3']);
        assert("4"@ =~= seq!['4']);
        assert("5"@ =~= seq!['5']);
        assert("6"@ =~= seq!['6']);
        assert("7"@ =~= seq!['7']);
        assert("8"@ =~= seq!['8']);
        assert("9"@ =~= seq!['9']);
    }
    match d {
        0 => "0",
        1 => "1",
        2 => "2",
        3 => "3",
        4 => "4",
        5 => "5",
        6 => "6",
        7 => "7",
        8 => "8",
        _ => "9",
    }
}

/// Appends the decimal rendering of `n` to `s`.
fn append_decimal(s: &mut String, n: u64)
    ensures
        final(s)@ == old(s)@ + dec_str(n as nat),
    decreases n,
{
    if n >= 10 {
        append_decimal(s, n / 10);
    }
    let ds = digit_str(n % 10);
    s.append(ds);
    proof {
        if n < 10 {
            assert(s@ =~= old(s)@ + dec_str(n as nat));
        } else {
            assert(s@ =~= old(s)@ + (dec_str((n / 10) as nat) + seq![digit_char((n % 10) as nat)]));
        }
    }
}

/// The nearest SI prefix unit at or below `u`: the unit itself where it is
/// mapped (magnitude below three, or a multiple of three), else the next
/// mapped unit downward, so that rescaling the counter upward by the
/// distance preserves the value.
pub open spec fn si_prefix_unit(u: int) -> int {
    if u >= 0 {
        if u < 3 { u } else { u - u % 3 }
    } else {
        if -u <= 3 { u } else { u - ((3 - (-u) % 3) % 3) }
    }
}

/// The name of an SI prefix unit.
pub open spec fn si_name(p: int) -> Seq<char> {
    if p == 24 { "yotta"@ }
    else if p == 21 { "zetta"@ }
    else if p == 18 { "exa"@ }
    else if p == 15 { "peta"@ }
    else if p == 12 { "tera"@ }
    else if p == 9 { "giga"@ }
    else if p == 6 { "mega"@ }
    else if p == 3 { "kilo"@ }
    else if p == 2 { "hecto"@ }
    else if p == 1 { "deka"@ }
    else if p == 0 { ""@ }
    else if p == -1 { "deci"@ }
    else if p == -2 { "centi"@ }
    else if p == -3 { "milli"@ }
    else if p == -6 { "micro"@ }
    else if p == -9 { "nano"@ }
    else if p == -12 { "pico"@ }
    else if p == -15 { "femto"@ }
    else if p == -18 { "atto"@ }
    else if p == -21 { "zepto"@ }
    else { "yocto"@ }
}

impl Amount {
    /// The plain exponent rendering of this amount: `count*10^unit`.
    pub open spec fn exp_string(self) -> Seq<char> {
        dec_str(self.count as nat) + "*10^"@ + int_str(self.unit as int)
    }

    /// The SI rendering of this amount: for a unit within the SI range the
    /// counter rescaled upward to the nearest prefix at or below the unit,
    /// then a space and the prefix name; outside that range the plain
    /// exponent rendering.
    pub open spec fn si_string(self) -> Seq<char> {
        if -24 <= self.unit <= 24 {
            let p = si_prefix_unit(self.unit as int);
            dec_str((self.count as nat) * pow10((self.unit - p) as nat)) + " "@ + si_name(p)
        } else {
            self.exp_string()
        }
    }

    /// Renders this amount as `count*10^unit`.
    pub fn to_exp_string(&self) -> (r: String)
        ensures
            r@ == self.exp_string(),
    {
        let mut s = String::from_str("");
        append_decimal(&mut s, self.count as u64);
        s.append("*10^");
        if self.unit < 0 {
            s.append("-");
            let mag: i32 = -(self.unit as i32);
            append_decimal(&mut s, mag as u64);
            proof {
                reveal_strlit("");
                reveal_strlit("-");
                assert("-"@ =~= seq!['-']);
                assert(s@ =~= self.exp_string());
            }
        } else {
            append_decimal(&mut s, self.unit as u64);
            proof {
                reveal_strlit("");
                assert(s@ =~= self.exp_string());
            }
        }
        s
    }

    /// Renders this amount with the nearest SI prefix at or below its unit,
    /// falling back to the exponent rendering outside the SI range.
    pub fn to_si_string(&self) -> (r: String)
        ensures
            r@ == self.si_string(),
    {
        if self.unit >= -24 && self.unit <= 24 {
            let au: i32 = if self.unit < 0 { -(self.unit as i32) } else { self.unit as i32 };
            let diff: i32 = if self.unit >= 0 {
                if au < 3 { 0 } else { au % 3 }
            } else {
                if au <= 3 { 0 } else { (3 - au % 3) % 3 }
            };
            let p: i32 = self.unit as i32 - diff;
            proof {
                assert(p == si_prefix_unit(self.unit as int));
            }
            let name: &str = if p == 24 { "yotta" }
                else if p == 21 { "zetta" }
                else if p == 18 { "exa" }
                else if p == 15 { "peta" }
                else if p == 12 { "tera" }
                else if p == 9 { "giga" }
                else if p == 6 { "mega" }
                else if p == 3 { "kilo" }
                else if p == 2 { "hecto" }
                else if p == 1 { "deka" }
                else if p == 0 { "" }
                else if p == -1 { "deci" }
                else if p == -2 { "centi" }
                else if p == -3 { "milli" }
                else if p == -6 { "micro" }
                else if p == -9 { "nano" }
                else if p == -12 { "pico" }
                else if p == -15 { "femto" }
                else if p == -18 { "atto" }
                else if p == -21 { "zepto" }
                else { "yocto" };
            proof {
                assert(name@ == si_name(p as int));
            }
            let scale = pow10_u64(diff as usize);
            proof {
                assert(pow10(2) == 100) by {
                    reveal_with_fuel(pow10, 3);
                };
                lemma_pow10_increases(diff as nat, 2);
                assert((self.count as nat) * pow10(diff as nat) <= 0xffffffffnat * 100nat)
                    by (nonlinear_arith)
                    requires
                        self.count <= 0xffffffffu32,
                        pow10(diff as nat) <= 100,
                {};
            }
            let newcount: u64 = self.count as u64 * scale;
            let mut s = String::from_str("");
            append_decimal(&mut s, newcount);
            s.append(" ");
            s.append(name);
            proof {
                reveal_strlit("");
                assert(s@ =~= self.si_string());
            }
            s
        } else {
            self.to_exp_string()
        }
    }
}

pub proof fn lemma_pow10_pos(e: nat)
    ensures
        pow10(e) >= 1,
    decreases e,
{
    if e > 0 {
        lemma_pow10_pos((e - 1) as nat);
    }
}

pub proof fn lemma_pow10_adds(a: nat, b: nat)
    ensures
        pow10(a + b) == pow10(a) * pow10(b),
    decreases a,
{
    if a == 0 {
        assert(pow10(b) == 1 * pow10(b));
    } else {
        lemma_pow10_adds((a - 1) as nat, b);
        assert(pow10(a + b) == 10 * pow10((a + b - 1) as nat));
        assert(10 * (pow10((a - 1) as nat) * pow10(b)) == (10 * pow10((a - 1) as nat)) * pow10(b))
            by (nonlinear_arith);
    }
}

pub proof fn lemma_pow10_increases(a: nat, b: nat)
    requires
        a <= b,
    ensures
        pow10(a) <= pow10(b),
{
    lemma_pow10_adds(a, (b - a) as nat);
    lemma_pow10_pos((b - a) as nat);
    lemma_pow10_pos(a);
    assert(pow10(a) * 1 <= pow10(a) * pow10((b - a) as nat)) by (nonlinear_arith)
        requires pow10(a) >= 1 && pow10((b - a) as nat) >= 1;
}


} // verus!
