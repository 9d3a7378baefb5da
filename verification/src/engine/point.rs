//! Transfer points: where along an edge a cell crosses from one block into
//! another.
//!
//! A transfer point is an exact fraction between 0 and 1, kept in lowest
//! terms. The arithmetic on it is done by `num_rational`; this module states
//! what that arithmetic returns, and on top of it proves the geometry of
//! leaving and entering a block.

use num_rational::Ratio;
use vstd::arithmetic::div_mod::{
    lemma_fundamental_div_mod, lemma_fundamental_div_mod_converse, lemma_mod_bound,
    lemma_small_mod,
};
use vstd::prelude::*;

use super::fraction::{
    in_lowest_terms, lemma_coprime_shift, lemma_lowest_terms, lemma_lowest_terms_is,
    lemma_lowest_terms_unique, lemma_same_floor, lowest_terms, divides,
};
use super::utility::Direction;

verus! {

/// A fraction `numer / denom`.
#[derive(Copy, Clone, Debug, PartialEq, Eq, Structural)]
pub struct TransferPoint {
    pub numer: i32,
    pub denom: i32,
}

impl TransferPoint {
    /// In lowest terms, with a positive denominator.
    pub open spec fn wf(self) -> bool {
        in_lowest_terms(self.numer as int, self.denom as int)
    }

    /// Well formed, and between 0 and 1 inclusive.
    pub open spec fn is_unit(self) -> bool {
        self.wf() && 0 <= self.numer <= self.denom
    }

    /// Well formed, at least 0 and below 1.
    pub open spec fn is_proper(self) -> bool {
        self.wf() && 0 <= self.numer < self.denom
    }

    /// The point of value `n / d`, in lowest terms.
    pub open spec fn of(n: int, d: int) -> TransferPoint {
        TransferPoint { numer: lowest_terms(n, d).0 as i32, denom: lowest_terms(n, d).1 as i32 }
    }

    /// One half: the centre of a cell.
    pub open spec fn spec_middle() -> TransferPoint {
        TransferPoint { numer: 1, denom: 2 }
    }

    /// One: the far end of an edge.
    pub open spec fn spec_one() -> TransferPoint {
        TransferPoint { numer: 1, denom: 1 }
    }

    /// The mirror image `1 - p` of a point.
    pub open spec fn mirrored(self) -> TransferPoint {
        TransferPoint { numer: (self.denom - self.numer) as i32, denom: self.denom }
    }

    /// Whether leaving at this point stays within 32-bit fractions.
    pub open spec fn exit_fits(self, coord: int, side: int) -> bool {
        self.numer + self.denom * coord <= i32::MAX && self.denom * side <= i32::MAX
    }

    /// The point at which a cell leaves a block: it crossed an edge of
    /// length `side` from the cell at `coord` along that edge, at point
    /// `self` within that cell. The result is `(self + coord) / side`, or
    /// `None` where that does not fit 32-bit fractions.
    pub open spec fn exited(self, coord: int, side: int) -> Option<TransferPoint> {
        if self.exit_fits(coord, side) {
            Some(Self::of(self.numer + self.denom * coord, self.denom * side))
        } else {
            None
        }
    }

    /// Where a cell lands that enters a block at this point across an edge of
    /// length `side`: the coordinate `floor(self * side)` along the edge, and
    /// the point left over within that cell. `None` where the point is 1,
    /// which lies beyond the last cell, or where `self * side` does not fit
    /// 32-bit fractions.
    pub open spec fn entered(self, side: int) -> Option<(i32, TransferPoint)> {
        if self.numer < self.denom && self.numer * side <= i32::MAX {
            Some(
                (
                    ((self.numer * side) / (self.denom as int)) as i32,
                    Self::of((self.numer * side) % (self.denom as int), self.denom as int),
                ),
            )
        } else {
            None
        }
    }

    pub fn middle() -> (r: TransferPoint)
        ensures
            r == Self::spec_middle(),
            r.is_proper(),
    {
        proof {
            lemma_constants();
        }
        TransferPoint { numer: 1, denom: 2 }
    }

    pub fn one() -> (r: TransferPoint)
        ensures
            r == Self::spec_one(),
            r.is_unit(),
    {
        proof {
            lemma_constants();
        }
        TransferPoint { numer: 1, denom: 1 }
    }

    /// Computes [`TransferPoint::exited`].
    pub fn exit(self, coord: i32, side: i32) -> (r: Option<TransferPoint>)
        requires
            self.is_unit(),
            0 <= coord < side,
        ensures
            r == self.exited(coord as int, side as int),
            r is Some ==> r.unwrap().is_unit(),
            r is Some && self.is_proper() ==> r.unwrap().is_proper(),
    {
        let ghost n = self.numer as int;
        let ghost d = self.denom as int;
        let ghost c = coord as int;
        let ghost s = side as int;
        assert(0 <= d * c && 0 < d * s && d * c < 0x1_0000_0000_0000_0000 && d * s
            < 0x1_0000_0000_0000_0000 && n + d * c <= d * s) by (nonlinear_arith)
            requires
                0 < d <= i32::MAX,
                0 <= c < s <= i32::MAX,
                0 <= n <= d,
        ;
        assert(d * c <= 0x7fff_ffff * 0x7fff_ffff && d * s <= 0x7fff_ffff * 0x7fff_ffff)
            by (nonlinear_arith)
            requires
                0 < d <= 0x7fff_ffff,
                0 <= c < s <= 0x7fff_ffff,
        ;
        let shifted: i64 = self.numer as i64 + self.denom as i64 * coord as i64;
        let scaled: i64 = self.denom as i64 * side as i64;
        if shifted > i32::MAX as i64 || scaled > i32::MAX as i64 {
            return None;
        }
        let t = ratio_add_int(self, coord);
        proof {
            assert(c * d == d * c) by (nonlinear_arith);
            lemma_coprime_shift(n, d, n + d * c, c);
            lemma_lowest_terms_unique(t.numer as int, t.denom as int, n + d * c, d);
        }
        let q = ratio_div_int(t, side);
        proof {
            lemma_lowest_terms_is(n + d * c, d * s, q.numer as int, q.denom as int);
            let qn = q.numer as int;
            let qd = q.denom as int;
            assert(0 <= qn <= qd) by (nonlinear_arith)
                requires
                    qn * (d * s) == (n + d * c) * qd,
                    0 <= n + d * c <= d * s,
                    0 < d * s,
                    0 < qd,
            ;
            if n < d {
                assert(n + d * c < d * s) by (nonlinear_arith)
                    requires
                        n < d,
                        0 < d,
                        0 <= c < s,
                ;
                assert(qn < qd) by (nonlinear_arith)
                    requires
                        qn * (d * s) == (n + d * c) * qd,
                        0 <= n + d * c < d * s,
                        0 < qd,
                ;
            }
        }
        Some(q)
    }

    /// Computes [`TransferPoint::entered`].
    pub fn enter(self, side: i32) -> (r: Option<(i32, TransferPoint)>)
        requires
            self.is_unit(),
            side >= 1,
        ensures
            r == self.entered(side as int),
            r is Some ==> 0 <= r.unwrap().0 < side && r.unwrap().1.is_proper(),
    {
        let ghost n = self.numer as int;
        let ghost d = self.denom as int;
        let ghost s = side as int;
        if self.numer >= self.denom {
            return None;
        }
        assert(0 <= n * s <= 0x7fff_ffff * 0x7fff_ffff) by (nonlinear_arith)
            requires
                0 <= n <= 0x7fff_ffff,
                0 < s <= 0x7fff_ffff,
        ;
        let scaled: i64 = self.numer as i64 * side as i64;
        if scaled > i32::MAX as i64 {
            return None;
        }
        let m = ratio_mul_int(self, side);
        let ghost mn = m.numer as int;
        let ghost md = m.denom as int;
        proof {
            assert(mn * d == (n * s) * md);
            assert(0 <= mn) by (nonlinear_arith)
                requires
                    mn * d == (n * s) * md,
                    0 <= n * s,
                    0 < d,
                    0 < md,
            ;
            lemma_same_floor(mn, md, n * s, d);
            lemma_fundamental_div_mod(mn, md);
            lemma_mod_bound(mn, md);
            lemma_fundamental_div_mod(n * s, d);
            lemma_mod_bound(n * s, d);
        }
        let coord = ratio_to_integer(m);
        proof {
            assert(0 <= coord < s) by (nonlinear_arith)
                requires
                    n * s == d * (coord as int) + (n * s) % d,
                    0 <= (n * s) % d < d,
                    0 <= n < d,
                    0 < s,
            ;
            assert(0 <= md * coord <= mn) by (nonlinear_arith)
                requires
                    mn == md * (coord as int) + mn % md,
                    0 <= mn % md,
                    0 <= coord,
                    0 < md,
            ;
        }
        let rest = ratio_sub_int(m, coord);
        proof {
            let rn = rest.numer as int;
            let rd = rest.denom as int;
            let e = (n * s) % d;
            assert(rn * md == (mn % md) * rd);
            assert(rn * d == e * rd) by (nonlinear_arith)
                requires
                    rn * md == (mn % md) * rd,
                    (mn % md) * d == e * md,
                    0 < md,
            ;
            lemma_lowest_terms_is(e, d, rn, rd);
            assert(0 <= rn < rd) by (nonlinear_arith)
                requires
                    rn * d == e * rd,
                    0 <= e < d,
                    0 < rd,
            ;
        }
        Some((coord, rest))
    }

    /// Computes [`TransferPoint::mirrored`].
    pub fn mirror(self) -> (r: TransferPoint)
        requires
            self.is_unit(),
        ensures
            r == self.mirrored(),
            r.is_unit(),
    {
        let ghost n = self.numer as int;
        let ghost d = self.denom as int;
        let one = Self::one();
        assert(1 * d == d && n * 1 == n);
        let r = ratio_sub(one, self);
        proof {
            assert(1 * d - n * 1 == d - n);
            lemma_coprime_shift(n, d, d - n, 1);
            assert((r.numer as int) * d == (d - n) * (r.denom as int));
            lemma_lowest_terms_unique(r.numer as int, r.denom as int, d - n, d);
        }
        r
    }
}

/// The heading of a cell after it passes a flipping portal: left and right
/// trade places; for a vertical movement the point is mirrored instead.
pub open spec fn flipped_heading(direction: Direction, point: TransferPoint) -> (
    Direction,
    TransferPoint,
) {
    match direction {
        Direction::Left => (Direction::Right, point),
        Direction::Right => (Direction::Left, point),
        _ => (direction, point.mirrored()),
    }
}

/// Computes [`flipped_heading`].
pub fn flip_heading(direction: Direction, point: TransferPoint) -> (r: (Direction, TransferPoint))
    requires
        point.is_unit(),
    ensures
        r == flipped_heading(direction, point),
        r.1.is_unit(),
{
    match direction {
        Direction::Left => (Direction::Right, point),
        Direction::Right => (Direction::Left, point),
        _ => (direction, point.mirror()),
    }
}

/// One half and one are in lowest terms.
pub proof fn lemma_constants()
    ensures
        TransferPoint::spec_middle().is_proper(),
        TransferPoint::spec_one().is_unit(),
{
    assert forall|k: int| k > 1 && #[trigger] divides(k, 1) implies !divides(k, 2) by {
        lemma_small_mod(1, k as nat);
    }
    assert forall|k: int| k > 1 && #[trigger] divides(k, 1) implies !divides(k, 1) by {
        lemma_small_mod(1, k as nat);
    }
}

/// Leaving a block and entering one of the same side length across a portal
/// that does not flip returns the cell to the coordinate and the point that
/// it left from, exactly.
pub proof fn lemma_round_trip(p: TransferPoint, coord: int, side: int)
    requires
        p.is_proper(),
        0 <= coord < side,
        p.exited(coord, side) is Some,
        p.exited(coord, side).unwrap().entered(side) is Some,
    ensures
        p.exited(coord, side).unwrap().entered(side) == Some((coord as i32, p)),
{
    let n = p.numer as int;
    let d = p.denom as int;
    let q = p.exited(coord, side).unwrap();
    assert(0 <= n + d * coord <= d * side && 0 < d * side) by (nonlinear_arith)
        requires
            0 <= n < d,
            0 <= coord < side,
    ;
    lemma_lowest_terms(n + d * coord, d * side);
    let qn = q.numer as int;
    let qd = q.denom as int;
    assert(qn == lowest_terms(n + d * coord, d * side).0);
    assert(qd == lowest_terms(n + d * coord, d * side).1);
    assert((qn * side) * d == (n + d * coord) * qd) by (nonlinear_arith)
        requires
            qn * (d * side) == (n + d * coord) * qd,
    ;
    lemma_same_floor(qn * side, qd, n + d * coord, d);
    assert(n + d * coord == coord * d + n) by (nonlinear_arith);
    lemma_fundamental_div_mod_converse(n + d * coord, d, coord, n);
    let e = (qn * side) % qd;
    assert(n * qd == e * d);
    lemma_lowest_terms_is(e, qd, n, d);
}

/// Passing a flipping portal twice restores the heading: the direction, the
/// point, and with them the orientation of the cell, which toggles once per
/// passage.
pub proof fn lemma_flip_involution(direction: Direction, point: TransferPoint, fliph: bool)
    requires
        point.is_unit(),
    ensures
        flipped_heading(flipped_heading(direction, point).0, flipped_heading(direction, point).1)
            == (direction, point),
        !!fliph == fliph,
        direction.mirrored().mirrored() == direction,
        direction.mirrored().reversed() == direction.reversed().mirrored(),
{
}

/// `Ratio<i32> + i32` of `num_rational`: the sum in lowest terms, for
/// operands whose intermediate products fit in `i32`.
#[verifier::external_body]
fn ratio_add_int(p: TransferPoint, k: i32) -> (r: TransferPoint)
    requires
        p.denom > 0,
        i32::MIN < p.denom * k <= i32::MAX,
        i32::MIN < p.numer + p.denom * k <= i32::MAX,
    ensures
        in_lowest_terms(r.numer as int, r.denom as int),
        r.numer * p.denom == (p.numer + p.denom * k) * r.denom,
{
    let r = Ratio::new_raw(p.numer, p.denom) + k;
    TransferPoint { numer: *r.numer(), denom: *r.denom() }
}

/// `Ratio<i32> / i32` of `num_rational`: the quotient by a positive integer,
/// in lowest terms, where the new denominator fits in `i32`.
#[verifier::external_body]
fn ratio_div_int(p: TransferPoint, k: i32) -> (r: TransferPoint)
    requires
        p.denom > 0,
        k > 0,
        p.numer > i32::MIN,
        p.denom * k <= i32::MAX,
    ensures
        in_lowest_terms(r.numer as int, r.denom as int),
        r.numer * (p.denom * k) == p.numer * r.denom,
{
    let r = Ratio::new_raw(p.numer, p.denom) / k;
    TransferPoint { numer: *r.numer(), denom: *r.denom() }
}

/// `Ratio<i32> - Ratio<i32>` of `num_rational`: the difference of two
/// non-negative fractions in lowest terms, where the cross products fit in
/// `i32`.
#[verifier::external_body]
fn ratio_sub(a: TransferPoint, b: TransferPoint) -> (r: TransferPoint)
    requires
        a.denom > 0,
        b.denom > 0,
        a.numer >= 0,
        b.numer >= 0,
        a.denom * b.denom <= i32::MAX,
        a.numer * b.denom <= i32::MAX,
        b.numer * a.denom <= i32::MAX,
    ensures
        in_lowest_terms(r.numer as int, r.denom as int),
        r.numer * (a.denom * b.denom) == (a.numer * b.denom - b.numer * a.denom) * r.denom,
{
    let r = Ratio::new_raw(a.numer, a.denom) - Ratio::new_raw(b.numer, b.denom);
    TransferPoint { numer: *r.numer(), denom: *r.denom() }
}

/// `Ratio<i32> *= i32` of `num_rational`: the product of a non-negative
/// fraction and a positive integer, in lowest terms, where the new numerator
/// fits in `i32`.
#[verifier::external_body]
fn ratio_mul_int(p: TransferPoint, k: i32) -> (r: TransferPoint)
    requires
        p.denom > 0,
        p.numer >= 0,
        k > 0,
        p.numer * k <= i32::MAX,
    ensures
        in_lowest_terms(r.numer as int, r.denom as int),
        r.numer * p.denom == (p.numer * k) * r.denom,
{
    let mut r = Ratio::new_raw(p.numer, p.denom);
    r *= k;
    TransferPoint { numer: *r.numer(), denom: *r.denom() }
}

/// `Ratio::to_integer` of `num_rational`: the integer part of a non-negative
/// fraction.
#[verifier::external_body]
fn ratio_to_integer(p: TransferPoint) -> (r: i32)
    requires
        p.denom > 0,
        p.numer >= 0,
    ensures
        r == p.numer as int / p.denom as int,
{
    Ratio::new_raw(p.numer, p.denom).to_integer()
}

/// `Ratio<i32> -= i32` of `num_rational`: the difference in lowest terms,
/// for operands whose intermediate products fit in `i32`.
#[verifier::external_body]
fn ratio_sub_int(p: TransferPoint, k: i32) -> (r: TransferPoint)
    requires
        p.denom > 0,
        i32::MIN < p.denom * k <= i32::MAX,
        i32::MIN < p.numer - p.denom * k <= i32::MAX,
    ensures
        in_lowest_terms(r.numer as int, r.denom as int),
        r.numer * p.denom == (p.numer - p.denom * k) * r.denom,
{
    let mut r = Ratio::new_raw(p.numer, p.denom);
    r -= k;
    TransferPoint { numer: *r.numer(), denom: *r.denom() }
}

} // verus!
