//! Perception sectors: a cone around a facing, cut to a band of distances.

use vstd::prelude::*;
use crate::geometry::{Direction, Point, dist_sq, dot_toward, norm_sq};
use crate::geometry::{dist_sq_bound, dot_bound, norm_sq_bound};
use crate::geometry::{distance_squared, dot_product, length_squared};
use crate::geometry::{lemma_dist_sq_range, lemma_product_within};
use crate::wide::product_less;

verus! {

/// What a sector is made of, as mathematical integers.
///
/// The half angle of the cone is given by its cosine, the fraction
/// `cos_num / cos_den`.
pub struct SectorView {
    pub cos_num: int,
    pub cos_den: int,
    pub min_distance: int,
    pub max_distance: int,
}

impl SectorView {
    /// The distances are ordered, and the cosine is that of a half angle
    /// above zero and up to a half turn: at least -1 and below 1.
    pub open spec fn valid(self) -> bool {
        &&& 0 <= self.min_distance <= self.max_distance
        &&& 0 < self.cos_den
        &&& -self.cos_den <= self.cos_num < self.cos_den
    }
}

/// Why a sector was refused.
#[derive(Clone, Copy, Debug, PartialEq, Eq, Structural)]
pub enum SectorError {
    /// The near distance lies beyond the far distance.
    InvertedRange,
    /// The cosine is no fraction in `[-1, 1)` with a positive denominator.
    InvalidAperture,
}

/// Where a target stands with respect to a sector.
#[derive(Clone, Copy, Debug, PartialEq, Eq, Structural)]
pub enum SectorOutcome {
    /// Nearer than the near distance: caught whatever the angle.
    WithinCaptureRange,
    /// Inside the cone and the distance band: a line of sight decides.
    WithinConeCandidate,
    /// Neither.
    OutOfRange,
}

/// A cone of half angle `acos(cos_num / cos_den)` around the owner's
/// facing, between a near and a far distance.
#[derive(Clone, Copy, Debug)]
pub struct Sector {
    cos_num: i32,
    cos_den: i32,
    min_distance: u32,
    max_distance: u32,
}

/// Whether `dot / sqrt(scale)` exceeds `num / den`, for `scale > 0` and
/// `den > 0`.
///
/// Both sides are squared once their signs are known, so no root is taken.
pub open spec fn cosine_exceeds(dot: int, scale: int, num: int, den: int) -> bool {
    if num >= 0 {
        dot > 0 && dot * dot * den * den > num * num * scale
    } else {
        dot >= 0 || dot * dot * den * den < num * num * scale
    }
}

/// Whether the angle between `forward` and the displacement from `origin`
/// to `target` is strictly less than the half angle of cosine `num / den`.
///
/// No angle is defined when either vector is zero, and then the answer is
/// no.
pub open spec fn within_cone(
    origin: Point,
    forward: Direction,
    target: Point,
    num: int,
    den: int,
) -> bool {
    let scale = norm_sq(forward) * dist_sq(origin, target);
    scale > 0 && cosine_exceeds(dot_toward(forward, origin, target), scale, num, den)
}

/// The outcome of the sector test, from the squared distance and the cone.
pub open spec fn classify_spec(
    origin: Point,
    forward: Direction,
    target: Point,
    sector: SectorView,
) -> SectorOutcome {
    let d2 = dist_sq(origin, target);
    if d2 < sector.min_distance * sector.min_distance {
        SectorOutcome::WithinCaptureRange
    } else if d2 < sector.max_distance * sector.max_distance && within_cone(
        origin,
        forward,
        target,
        sector.cos_num,
        sector.cos_den,
    ) {
        SectorOutcome::WithinConeCandidate
    } else {
        SectorOutcome::OutOfRange
    }
}

/// The product of two positive numbers is positive, and only such a
/// product of non-negative numbers is.
proof fn lemma_scale_positive(a: int, b: int)
    by (nonlinear_arith)
    requires
        0 <= a,
        0 <= b,
    ensures
        a * b > 0 <==> (a > 0 && b > 0),
{
}

/// Rewrites the two sides of the squared comparison as products of two
/// factors each.
proof fn lemma_squared_sides(dot: int, den: int, num: int, nf: int, nd: int, m: int, n: int)
    requires
        m == dot || m == -dot,
        n == num || n == -num,
    ensures
        (m * den) * (m * den) == dot * dot * den * den,
        (n * nf) * (n * nd) == num * num * (nf * nd),
{
    assert((m * den) * (m * den) == dot * dot * den * den) by (nonlinear_arith)
        requires
            m == dot || m == -dot,
    ;
    assert((n * nf) * (n * nd) == num * num * (nf * nd)) by (nonlinear_arith)
        requires
            n == num || n == -num,
    ;
}

/// Comparing two integers through their squares, once the sign of the
/// right one is known.
proof fn lemma_order_by_squares(p: int, q: int)
    by (nonlinear_arith)
    ensures
        q >= 0 ==> (p > q <==> (p > 0 && p * p > q * q)),
        q < 0 ==> (p > q <==> (p >= 0 || p * p < q * q)),
{
}

/// Where the two vectors' lengths multiply to a whole number `root`, the
/// cone test is the comparison of `dot / root` with `num / den`, cross
/// multiplied: the cosine of the angle against the cosine of the half
/// angle.
pub proof fn lemma_cosine_exceeds_exact(dot: int, root: int, num: int, den: int)
    requires
        den > 0,
        root > 0,
    ensures
        cosine_exceeds(dot, root * root, num, den) <==> dot * den > num * root,
{
    let p = dot * den;
    let q = num * root;
    lemma_order_by_squares(p, q);
    assert(p * p == dot * dot * den * den) by (nonlinear_arith)
        requires
            p == dot * den,
    ;
    assert(q * q == num * num * (root * root)) by (nonlinear_arith)
        requires
            q == num * root,
    ;
    assert((p > 0 <==> dot > 0) && (p >= 0 <==> dot >= 0)) by (nonlinear_arith)
        requires
            p == dot * den,
            den > 0,
    ;
    assert((q >= 0 <==> num >= 0)) by (nonlinear_arith)
        requires
            q == num * root,
            root > 0,
    ;
}

/// Scaling both sides of a comparison by a positive factor changes
/// nothing.
proof fn lemma_scaled_order(a: int, b: int, k: int)
    by (nonlinear_arith)
    requires
        k > 0,
    ensures
        k * a > k * b <==> a > b,
        k * a < k * b <==> a < b,
        k * a > 0 <==> a > 0,
        k * a >= 0 <==> a >= 0,
{
}

/// The cone test does not depend on the length of the facing: a facing
/// `k` times as long gives `k` times the dot product and `k * k` times
/// the scale, and the same answer.
pub proof fn lemma_facing_length_is_irrelevant(dot: int, scale: int, num: int, den: int, k: int)
    requires
        k > 0,
    ensures
        cosine_exceeds(k * dot, (k * k) * scale, num, den) == cosine_exceeds(dot, scale, num, den),
{
    let left = dot * dot * den * den;
    let right = num * num * scale;
    assert((k * dot) * (k * dot) * den * den == (k * k) * left) by (nonlinear_arith)
        requires
            left == dot * dot * den * den,
    ;
    assert(num * num * ((k * k) * scale) == (k * k) * right) by (nonlinear_arith)
        requires
            right == num * num * scale,
    ;
    assert(k * k > 0) by (nonlinear_arith)
        requires
            k > 0,
    ;
    lemma_scaled_order(left, right, k * k);
    lemma_scaled_order(dot, 0, k);
}

/// The cone test does not depend on how the cosine is written: the
/// fraction `(m * num) / (m * den)` gives the same answer as
/// `num / den`.
pub proof fn lemma_cosine_fraction_is_irrelevant(dot: int, scale: int, num: int, den: int, m: int)
    requires
        m > 0,
    ensures
        cosine_exceeds(dot, scale, m * num, m * den) == cosine_exceeds(dot, scale, num, den),
{
    let left = dot * dot * den * den;
    let right = num * num * scale;
    assert(dot * dot * (m * den) * (m * den) == (m * m) * left) by (nonlinear_arith)
        requires
            left == dot * dot * den * den,
    ;
    assert((m * num) * (m * num) * scale == (m * m) * right) by (nonlinear_arith)
        requires
            right == num * num * scale,
    ;
    assert(m * m > 0) by (nonlinear_arith)
        requires
            m > 0,
    ;
    lemma_scaled_order(left, right, m * m);
    lemma_scaled_order(num, 0, m);
}

/// A target at the far distance or beyond is out of range, whatever the
/// angle.
pub proof fn lemma_beyond_max_distance(
    origin: Point,
    forward: Direction,
    target: Point,
    sector: SectorView,
)
    requires
        sector.valid(),
        dist_sq(origin, target) >= sector.max_distance * sector.max_distance,
    ensures
        classify_spec(origin, forward, target, sector) == SectorOutcome::OutOfRange,
{
    assert(sector.min_distance * sector.min_distance <= sector.max_distance
        * sector.max_distance) by (nonlinear_arith)
        requires
            0 <= sector.min_distance <= sector.max_distance,
    ;
}

/// A target nearer than the near distance is caught, whatever the angle.
pub proof fn lemma_inside_min_distance(
    origin: Point,
    forward: Direction,
    target: Point,
    sector: SectorView,
)
    requires
        dist_sq(origin, target) < sector.min_distance * sector.min_distance,
    ensures
        classify_spec(origin, forward, target, sector) == SectorOutcome::WithinCaptureRange,
{
}

/// The cone is open: a target whose angle off the facing has exactly the
/// cosine `cos_num / cos_den` is not inside it, and so is no candidate.
///
/// Equal cosines are equal squares with equal signs.
pub proof fn lemma_boundary_angle_is_outside(
    origin: Point,
    forward: Direction,
    target: Point,
    sector: SectorView,
)
    requires
        sector.valid(),
        ({
            let dot = dot_toward(forward, origin, target);
            let scale = norm_sq(forward) * dist_sq(origin, target);
            &&& dot * dot * sector.cos_den * sector.cos_den == sector.cos_num * sector.cos_num
                * scale
            &&& sector.cos_num >= 0 ==> dot >= 0
            &&& sector.cos_num < 0 ==> dot < 0
        }),
    ensures
        !within_cone(origin, forward, target, sector.cos_num, sector.cos_den),
        classify_spec(origin, forward, target, sector) != SectorOutcome::WithinConeCandidate,
{
}

/// A target at the apex, or a zero facing, is never a candidate: it is
/// caught only by nearness.
pub proof fn lemma_no_angle_no_candidate(
    origin: Point,
    forward: Direction,
    target: Point,
    sector: SectorView,
)
    requires
        target == origin || norm_sq(forward) == 0,
    ensures
        classify_spec(origin, forward, target, sector) != SectorOutcome::WithinConeCandidate,
{
    lemma_dist_sq_range(origin, target);
    assert(norm_sq(forward) * dist_sq(origin, target) == 0) by (nonlinear_arith)
        requires
            dist_sq(origin, target) == 0 || norm_sq(forward) == 0,
    ;
}

impl View for Sector {
    type V = SectorView;

    closed spec fn view(&self) -> SectorView {
        SectorView {
            cos_num: self.cos_num as int,
            cos_den: self.cos_den as int,
            min_distance: self.min_distance as int,
            max_distance: self.max_distance as int,
        }
    }
}

impl Sector {
    /// Every sector is valid.
    #[verifier::type_invariant]
    pub open spec fn well_formed(self) -> bool {
        self@.valid()
    }

    /// A sector from the cosine of its half angle, as the fraction
    /// `cos_num / cos_den`, and its two distances.
    ///
    /// Distances out of order are refused first, then a cosine outside
    /// `[-1, 1)` or a denominator that is not positive.
    pub fn new(
        cos_num: i32,
        cos_den: i32,
        min_distance: u32,
        max_distance: u32,
    ) -> (r: Result<Sector, SectorError>)
        ensures
            match r {
                Ok(sector) => {
                    &&& sector@ == (SectorView {
                        cos_num: cos_num as int,
                        cos_den: cos_den as int,
                        min_distance: min_distance as int,
                        max_distance: max_distance as int,
                    })
                    &&& sector@.valid()
                },
                Err(SectorError::InvertedRange) => min_distance > max_distance,
                Err(SectorError::InvalidAperture) => {
                    &&& min_distance <= max_distance
                    &&& !(0 < cos_den && -cos_den <= cos_num < cos_den)
                },
            },
    {
        if min_distance > max_distance {
            return Err(SectorError::InvertedRange);
        }
        if cos_den <= 0 || cos_num >= cos_den || cos_num < -cos_den {
            return Err(SectorError::InvalidAperture);
        }
        Ok(Sector { cos_num, cos_den, min_distance, max_distance })
    }

    /// The numerator of the half angle's cosine.
    pub fn cos_num(&self) -> (r: i32)
        ensures
            r == self@.cos_num,
    {
        self.cos_num
    }

    /// The denominator of the half angle's cosine.
    pub fn cos_den(&self) -> (r: i32)
        ensures
            r == self@.cos_den,
            r > 0,
    {
        proof {
            use_type_invariant(self);
        }
        self.cos_den
    }

    /// The distance below which a target is caught whatever the angle.
    pub fn min_distance(&self) -> (r: u32)
        ensures
            r == self@.min_distance,
    {
        self.min_distance
    }

    /// The distance from which on nothing is perceived.
    pub fn max_distance(&self) -> (r: u32)
        ensures
            r == self@.max_distance,
            self@.min_distance <= r,
    {
        proof {
            use_type_invariant(self);
        }
        self.max_distance
    }

    /// Whether `target` lies strictly inside the cone around `forward`
    /// with its apex at `origin`, at any distance.
    pub fn in_cone(&self, origin: Point, forward: Direction, target: Point) -> (r: bool)
        ensures
            r == within_cone(origin, forward, target, self@.cos_num, self@.cos_den),
    {
        proof {
            use_type_invariant(self);
        }
        let nf: u128 = length_squared(forward);
        let nd: u128 = distance_squared(origin, target);
        proof {
            lemma_dist_sq_range(origin, target);
            lemma_scale_positive(nf as int, nd as int);
        }
        if nf == 0 || nd == 0 {
            return false;
        }
        let dot: i128 = dot_product(forward, origin, target);
        let dot_abs: u128 = if dot < 0 {
            (-dot) as u128
        } else {
            dot as u128
        };
        let num: i64 = self.cos_num as i64;
        let num_abs: u128 = if num < 0 {
            (-num) as u128
        } else {
            num as u128
        };
        let den: u128 = self.cos_den as u128;
        proof {
            lemma_product_within(
                dot_abs as int,
                den as int,
                dot_bound(),
                0x8000_0000,
            );
            lemma_product_within(
                num_abs as int,
                nf as int,
                0x8000_0000,
                norm_sq_bound(),
            );
            lemma_product_within(
                num_abs as int,
                nd as int,
                0x8000_0000,
                dist_sq_bound(),
            );
            assert(0 <= dot_abs * den) by (nonlinear_arith);
            assert(0 <= num_abs * nf) by (nonlinear_arith);
            assert(0 <= num_abs * nd) by (nonlinear_arith);
        }
        let a: u128 = dot_abs * den;
        let b: u128 = num_abs * nf;
        let c: u128 = num_abs * nd;
        proof {
            lemma_squared_sides(
                dot as int,
                den as int,
                num as int,
                nf as int,
                nd as int,
                dot_abs as int,
                num_abs as int,
            );
        }
        if num >= 0 {
            dot > 0 && product_less(b, c, a, a)
        } else {
            dot >= 0 || product_less(a, a, b, c)
        }
    }

    /// Classifies `target` as seen from `origin` facing `forward`: caught
    /// by nearness alone, a candidate inside cone and band, or out of
    /// range.
    pub fn classify(&self, origin: Point, forward: Direction, target: Point) -> (r: SectorOutcome)
        ensures
            r == classify_spec(origin, forward, target, self@),
    {
        proof {
            use_type_invariant(self);
            lemma_product_within(
                self.min_distance as int,
                self.min_distance as int,
                0xffff_ffff,
                0xffff_ffff,
            );
            lemma_product_within(
                self.max_distance as int,
                self.max_distance as int,
                0xffff_ffff,
                0xffff_ffff,
            );
        }
        let d2: u128 = distance_squared(origin, target);
        let near: u128 = self.min_distance as u128;
        let far: u128 = self.max_distance as u128;
        if d2 < near * near {
            SectorOutcome::WithinCaptureRange
        } else if d2 < far * far && self.in_cone(origin, forward, target) {
            SectorOutcome::WithinConeCandidate
        } else {
            SectorOutcome::OutOfRange
        }
    }
}

} // verus!
