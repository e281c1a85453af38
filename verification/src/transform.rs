//! Fits the surveyed extent into the canvas.
//!
//! One scale serves both axes, so shapes keep their proportions. Canvas
//! coordinates are counted in hundredths of a canvas unit, the precision of
//! the drawing, and the vertical axis is flipped so that larger surveyed
//! values lie higher up.
//!
//! An axis without extent (all points on one line) sets no limit on the
//! scale: the other axis alone decides it. Where neither axis has extent
//! there is nothing to scale by, and the transform is refused.

use vstd::prelude::*;
use vstd::arithmetic::div_mod::{lemma_fundamental_div_mod, lemma_fundamental_div_mod_converse};
use crate::geometry::GeoPoint;

verus! {

/// Largest scale numerator: the largest canvas side times the largest
/// margin.
pub const NUMERATOR_LIMIT: u32 = 16_711_425;

/// Why a hole cannot be drawn.
#[derive(Clone, Copy, Debug, PartialEq, Eq, Structural)]
pub enum RenderError {
    /// No polygon has a point, so there is no extent to fit.
    EmptyGeometry,
    /// All polygon points coincide, so neither axis has extent.
    DegenerateAxis,
}

/// The smallest axis-parallel box around a set of points.
#[derive(Clone, Copy, Debug, PartialEq, Eq, Structural)]
pub struct BoundingBox {
    pub min_x: i32,
    pub max_x: i32,
    pub min_y: i32,
    pub max_y: i32,
}

/// A position on the canvas, in hundredths of a canvas unit.
#[derive(Clone, Copy, Debug, PartialEq, Eq, Structural)]
pub struct CanvasPoint {
    pub x: i64,
    pub y: i64,
}

/// `b` bounds every point, and each of its four sides is touched by one.
pub open spec fn is_bounding_box(points: Seq<GeoPoint>, b: BoundingBox) -> bool {
    &&& forall|k: int|
        0 <= k < points.len() ==> b.min_x <= (#[trigger] points[k]).lat <= b.max_x && b.min_y
            <= points[k].lon <= b.max_y
    &&& exists|k: int| 0 <= k < points.len() && (#[trigger] points[k]).lat == b.min_x
    &&& exists|k: int| 0 <= k < points.len() && (#[trigger] points[k]).lat == b.max_x
    &&& exists|k: int| 0 <= k < points.len() && (#[trigger] points[k]).lon == b.min_y
    &&& exists|k: int| 0 <= k < points.len() && (#[trigger] points[k]).lon == b.max_y
}

/// The bounding box of a non-empty point sequence.
pub open spec fn bounds_of(points: Seq<GeoPoint>) -> BoundingBox {
    choose|b: BoundingBox| is_bounding_box(points, b)
}

/// A point sequence has at most one bounding box.
pub proof fn lemma_bounding_box_unique(points: Seq<GeoPoint>, a: BoundingBox, b: BoundingBox)
    requires
        is_bounding_box(points, a),
        is_bounding_box(points, b),
    ensures
        a == b,
{
}

/// Neither axis of the box has extent.
pub open spec fn degenerate(b: BoundingBox) -> bool {
    b.max_x == b.min_x && b.max_y == b.min_y
}

/// The horizontal axis decides the scale: the vertical one has no extent,
/// or the box is relatively wider than the canvas.
pub open spec fn x_axis_limits(b: BoundingBox, width: int, height: int) -> bool {
    let dx = b.max_x - b.min_x;
    let dy = b.max_y - b.min_y;
    dy == 0 || (dx > 0 && width * dy <= height * dx)
}

/// Mathematical model of a transform. The scale is the fraction
/// `numerator / denominator`, in hundredths of a canvas unit per coordinate
/// unit.
pub struct TransformView {
    pub min_x: int,
    pub min_y: int,
    pub numerator: int,
    pub denominator: int,
    pub canvas_height: int,
}

/// The transform that fits box `b` into a canvas of the given size, using
/// `margin_percent` hundredths of the room that the limiting axis offers.
pub open spec fn fitted(b: BoundingBox, width: int, height: int, margin_percent: int) -> TransformView {
    if x_axis_limits(b, width, height) {
        TransformView {
            min_x: b.min_x as int,
            min_y: b.min_y as int,
            numerator: width * margin_percent,
            denominator: b.max_x - b.min_x,
            canvas_height: height,
        }
    } else {
        TransformView {
            min_x: b.min_x as int,
            min_y: b.min_y as int,
            numerator: height * margin_percent,
            denominator: b.max_y - b.min_y,
            canvas_height: height,
        }
    }
}

/// `a / d` rounded to the nearest integer, halves upwards.
pub open spec fn rounded_quotient(a: int, d: int) -> int {
    (2 * a + d) / (2 * d)
}

/// Horizontal canvas position of `p`, in hundredths.
pub open spec fn canvas_x(t: TransformView, p: GeoPoint) -> int {
    rounded_quotient((p.lat - t.min_x) * t.numerator, t.denominator)
}

/// Vertical canvas position of `p`, in hundredths, measured from the top.
pub open spec fn canvas_y(t: TransformView, p: GeoPoint) -> int {
    t.canvas_height * 100 - rounded_quotient((p.lon - t.min_y) * t.numerator, t.denominator)
}

/// The canvas position of `p`.
pub open spec fn mapped(t: TransformView, p: GeoPoint) -> CanvasPoint {
    CanvasPoint { x: canvas_x(t, p) as i64, y: canvas_y(t, p) as i64 }
}

/// The canvas positions of a ring, in order.
pub open spec fn mapped_ring(t: TransformView, ring: Seq<GeoPoint>) -> Seq<CanvasPoint> {
    ring.map_values(|p: GeoPoint| mapped(t, p))
}

/// Maps surveyed positions to canvas positions.
#[derive(Clone, Copy, Debug)]
pub struct Transform {
    min_x: i32,
    min_y: i32,
    numerator: u32,
    denominator: u32,
    canvas_height: u16,
}

impl View for Transform {
    type V = TransformView;

    closed spec fn view(&self) -> TransformView {
        TransformView {
            min_x: self.min_x as int,
            min_y: self.min_y as int,
            numerator: self.numerator as int,
            denominator: self.denominator as int,
            canvas_height: self.canvas_height as int,
        }
    }
}

/// Finds the bounding box of `points`; there is none where there is no
/// point.
pub fn bounding_box(points: &Vec<GeoPoint>) -> (found: Option<BoundingBox>)
    ensures
        match found {
            Some(b) => is_bounding_box(points@, b) && b == bounds_of(points@),
            None => points@.len() == 0,
        },
{
    if points.len() == 0 {
        return None;
    }
    let first = points[0];
    let mut b = BoundingBox { min_x: first.lat, max_x: first.lat, min_y: first.lon, max_y: first.lon };
    let mut k: usize = 1;
    assert(points@.take(1)[0] == first);
    while k < points.len()
        invariant
            1 <= k <= points.len(),
            is_bounding_box(points@.take(k as int), b),
        decreases points.len() - k,
    {
        let ghost seen = points@.take(k as int);
        let ghost next = points@.take(k + 1);
        let ghost old_b = b;
        let p = points[k];
        if p.lat < b.min_x {
            b.min_x = p.lat;
        }
        if p.lat > b.max_x {
            b.max_x = p.lat;
        }
        if p.lon < b.min_y {
            b.min_y = p.lon;
        }
        if p.lon > b.max_y {
            b.max_y = p.lon;
        }
        proof {
            assert(next[k as int] == p);
            assert forall|n: int| 0 <= n < k implies next[n] == #[trigger] seen[n] by {}
            let a = choose|n: int| 0 <= n < seen.len() && (#[trigger] seen[n]).lat == old_b.min_x;
            assert(next[a].lat == old_b.min_x);
            let c = choose|n: int| 0 <= n < seen.len() && (#[trigger] seen[n]).lat == old_b.max_x;
            assert(next[c].lat == old_b.max_x);
            let d = choose|n: int| 0 <= n < seen.len() && (#[trigger] seen[n]).lon == old_b.min_y;
            assert(next[d].lon == old_b.min_y);
            let e = choose|n: int| 0 <= n < seen.len() && (#[trigger] seen[n]).lon == old_b.max_y;
            assert(next[e].lon == old_b.max_y);
            assert forall|n: int| 0 <= n < next.len() implies b.min_x <= (#[trigger] next[n]).lat
                <= b.max_x && b.min_y <= next[n].lon <= b.max_y by {
                if n < k {
                    assert(next[n] == seen[n]);
                }
            }
        }
        k += 1;
    }
    proof {
        assert(points@.take(points.len() as int) =~= points@);
        lemma_bounding_box_unique(points@, b, bounds_of(points@));
    }
    Some(b)
}

proof fn lemma_product_bound(a: int, b: int, bound_a: int, bound_b: int)
    requires
        -bound_a <= a <= bound_a,
        0 <= b <= bound_b,
    ensures
        -(bound_a * bound_b) <= a * b <= bound_a * bound_b,
{
    assert(-(bound_a * bound_b) <= a * b <= bound_a * bound_b) by (nonlinear_arith)
        requires
            -bound_a <= a <= bound_a,
            0 <= b <= bound_b,
    ;
}

/// Computes `a / d` rounded to the nearest integer, halves upwards.
pub fn divide_rounded(a: i64, d: u32) -> (q: i64)
    requires
        d > 0,
        -0x0100_0000_0000_0000 <= a <= 0x0100_0000_0000_0000,
    ensures
        q == rounded_quotient(a as int, d as int),
        -0x0400_0000_0000_0000 <= q <= 0x0400_0000_0000_0000,
{
    let n: i64 = 2 * a + d as i64;
    let m: i64 = 2 * d as i64;
    if n >= 0 {
        let q = n / m;
        proof {
            lemma_fundamental_div_mod(n as int, m as int);
            assert(m * q <= n) by (nonlinear_arith)
                requires
                    n == m * (n as int / m as int) + (n as int % m as int),
                    0 <= n as int % m as int,
                    q == n as int / m as int,
            ;
            assert(q <= n) by (nonlinear_arith)
                requires
                    m * q <= n,
                    m >= 2,
                    n >= 0,
                    q >= 0,
            ;
        }
        q
    } else {
        let pos: i64 = -n;
        let c: i64 = (pos + (m - 1)) / m;
        proof {
            let x = pos + (m - 1);
            lemma_fundamental_div_mod(x as int, m as int);
            let r = x as int % m as int;
            assert(x == m * c + r);
            assert(c <= x) by (nonlinear_arith)
                requires
                    x == m * c + r,
                    0 <= r,
                    m >= 2,
                    c >= 0,
            ;
            let back = m - 1 - r;
            assert(n == (-c) * m + back) by (nonlinear_arith)
                requires
                    x == m * c + r,
                    x == -n + (m - 1),
                    back == m - 1 - r,
            ;
            lemma_fundamental_div_mod_converse(n as int, m as int, -c, back as int);
        }
        -c
    }
}

impl Transform {
    #[verifier::type_invariant]
    spec fn well_formed(self) -> bool {
        self.denominator > 0 && self.numerator <= NUMERATOR_LIMIT
    }

    /// Builds the transform that fits the bounding box of `all_points` into
    /// the canvas.
    pub fn build(
        all_points: &Vec<GeoPoint>,
        canvas_width: u16,
        canvas_height: u16,
        margin_percent: u8,
    ) -> (built: Result<Transform, RenderError>)
        ensures
            match built {
                Ok(t) => all_points@.len() > 0 && !degenerate(bounds_of(all_points@)) && t@
                    == fitted(
                    bounds_of(all_points@),
                    canvas_width as int,
                    canvas_height as int,
                    margin_percent as int,
                ),
                Err(RenderError::EmptyGeometry) => all_points@.len() == 0,
                Err(RenderError::DegenerateAxis) => all_points@.len() > 0 && degenerate(
                    bounds_of(all_points@),
                ),
            },
    {
        match bounding_box(all_points) {
            None => Err(RenderError::EmptyGeometry),
            Some(b) => {
                let dx: u64 = (b.max_x as i64 - b.min_x as i64) as u64;
                let dy: u64 = (b.max_y as i64 - b.min_y as i64) as u64;
                if dx == 0 && dy == 0 {
                    return Err(RenderError::DegenerateAxis);
                }
                let w: u64 = canvas_width as u64;
                let h: u64 = canvas_height as u64;
                proof {
                    lemma_product_bound(w as int, dy as int, 0xFFFF, 0xFFFF_FFFF);
                    lemma_product_bound(h as int, dx as int, 0xFFFF, 0xFFFF_FFFF);
                    lemma_product_bound(w as int, margin_percent as int, 0xFFFF, 0xFF);
                    lemma_product_bound(h as int, margin_percent as int, 0xFFFF, 0xFF);
                }
                let x_limits = dy == 0 || (dx > 0 && w * dy <= h * dx);
                let t = if x_limits {
                    Transform {
                        min_x: b.min_x,
                        min_y: b.min_y,
                        numerator: canvas_width as u32 * margin_percent as u32,
                        denominator: dx as u32,
                        canvas_height,
                    }
                } else {
                    Transform {
                        min_x: b.min_x,
                        min_y: b.min_y,
                        numerator: canvas_height as u32 * margin_percent as u32,
                        denominator: dy as u32,
                        canvas_height,
                    }
                };
                Ok(t)
            },
        }
    }

    /// Maps a surveyed position to the canvas.
    pub fn apply(&self, p: GeoPoint) -> (at: CanvasPoint)
        ensures
            at == mapped(self@, p),
            at.x == canvas_x(self@, p),
            at.y == canvas_y(self@, p),
    {
        proof {
            use_type_invariant(self);
        }
        let ax: i64 = p.lat as i64 - self.min_x as i64;
        let ay: i64 = p.lon as i64 - self.min_y as i64;
        let num: i64 = self.numerator as i64;
        proof {
            lemma_product_bound(ax as int, num as int, 0x1_0000_0000, NUMERATOR_LIMIT as int);
            lemma_product_bound(ay as int, num as int, 0x1_0000_0000, NUMERATOR_LIMIT as int);
        }
        let x = divide_rounded(ax * num, self.denominator);
        let y = self.canvas_height as i64 * 100 - divide_rounded(ay * num, self.denominator);
        CanvasPoint { x, y }
    }

    /// Maps the points of a ring to the canvas, in order.
    pub fn apply_ring(&self, ring: &Vec<GeoPoint>) -> (at: Vec<CanvasPoint>)
        ensures
            at@ == mapped_ring(self@, ring@),
    {
        let mut at: Vec<CanvasPoint> = Vec::new();
        let mut k: usize = 0;
        while k < ring.len()
            invariant
                k <= ring.len(),
                at@ == mapped_ring(self@, ring@.take(k as int)),
            decreases ring.len() - k,
        {
            at.push(self.apply(ring[k]));
            assert(ring@.take(k + 1) =~= ring@.take(k as int).push(ring@[k as int]));
            assert(at@ =~= mapped_ring(self@, ring@.take(k + 1)));
            k += 1;
        }
        assert(ring@.take(ring.len() as int) =~= ring@);
        at
    }

    /// Numerator of the scale, in hundredths of a canvas unit.
    pub fn scale_numerator(&self) -> (n: u32)
        ensures
            n == self@.numerator,
    {
        self.numerator
    }

    /// Denominator of the scale, in coordinate units. It is never zero.
    pub fn scale_denominator(&self) -> (d: u32)
        ensures
            d == self@.denominator,
            d > 0,
    {
        proof {
            use_type_invariant(self);
        }
        self.denominator
    }

    /// The surveyed position that maps to the left edge and, before the
    /// flip, to the bottom edge of the canvas.
    pub fn origin(&self) -> (p: GeoPoint)
        ensures
            p.lat == self@.min_x,
            p.lon == self@.min_y,
    {
        GeoPoint { lat: self.min_x, lon: self.min_y }
    }

    /// Height of the canvas, in canvas units.
    pub fn canvas_height(&self) -> (h: u16)
        ensures
            h == self@.canvas_height,
    {
        self.canvas_height
    }
}

/// Every non-empty point sequence has a bounding box, and `bounds_of` names
/// it.
pub proof fn lemma_bounding_box_exists(points: Seq<GeoPoint>)
    requires
        points.len() > 0,
    ensures
        is_bounding_box(points, bounds_of(points)),
    decreases points.len(),
{
    let p = points.last();
    let b = if points.len() == 1 {
        BoundingBox { min_x: p.lat, max_x: p.lat, min_y: p.lon, max_y: p.lon }
    } else {
        let rest = points.drop_last();
        lemma_bounding_box_exists(rest);
        let r = bounds_of(rest);
        let a = choose|n: int| 0 <= n < rest.len() && (#[trigger] rest[n]).lat == r.min_x;
        assert(points[a].lat == r.min_x);
        let c = choose|n: int| 0 <= n < rest.len() && (#[trigger] rest[n]).lat == r.max_x;
        assert(points[c].lat == r.max_x);
        let d = choose|n: int| 0 <= n < rest.len() && (#[trigger] rest[n]).lon == r.min_y;
        assert(points[d].lon == r.min_y);
        let e = choose|n: int| 0 <= n < rest.len() && (#[trigger] rest[n]).lon == r.max_y;
        assert(points[e].lon == r.max_y);
        assert forall|n: int| 0 <= n < rest.len() implies r.min_x <= (#[trigger] points[n]).lat
            <= r.max_x && r.min_y <= points[n].lon <= r.max_y by {
            assert(points[n] == rest[n]);
        }
        BoundingBox {
            min_x: if p.lat < r.min_x {
                p.lat
            } else {
                r.min_x
            },
            max_x: if p.lat > r.max_x {
                p.lat
            } else {
                r.max_x
            },
            min_y: if p.lon < r.min_y {
                p.lon
            } else {
                r.min_y
            },
            max_y: if p.lon > r.max_y {
                p.lon
            } else {
                r.max_y
            },
        }
    };
    assert(points[points.len() - 1] == p);
    assert(is_bounding_box(points, b));
}

/// A rounded quotient of a value between zero and `c * d` lies between zero
/// and `c`.
proof fn lemma_rounded_quotient_bounds(v: int, d: int, c: int)
    requires
        d > 0,
        0 <= v <= c * d,
    ensures
        0 <= rounded_quotient(v, d) <= c,
{
    let n = 2 * v + d;
    let m = 2 * d;
    lemma_fundamental_div_mod(n, m);
    let q = n / m;
    let r = n % m;
    assert(0 <= q <= c) by (nonlinear_arith)
        requires
            n == m * q + r,
            0 <= r < m,
            m == 2 * d,
            n == 2 * v + d,
            d > 0,
            0 <= v <= c * d,
    ;
}

/// With a margin of at most 100 percent, every point inside the box lands
/// on the canvas.
pub proof fn lemma_boxed_point_stays_on_canvas(
    b: BoundingBox,
    width: int,
    height: int,
    margin_percent: int,
    p: GeoPoint,
)
    requires
        b.min_x <= p.lat <= b.max_x,
        b.min_y <= p.lon <= b.max_y,
        !degenerate(b),
        0 <= width,
        0 <= height,
        0 <= margin_percent <= 100,
    ensures
        0 <= canvas_x(fitted(b, width, height, margin_percent), p) <= width * 100,
        0 <= canvas_y(fitted(b, width, height, margin_percent), p) <= height * 100,
{
    let t = fitted(b, width, height, margin_percent);
    let dx = b.max_x - b.min_x;
    let dy = b.max_y - b.min_y;
    let ax = p.lat - b.min_x;
    let ay = p.lon - b.min_y;
    let m = margin_percent;
    let vx = ax * t.numerator;
    let vy = ay * t.numerator;
    if x_axis_limits(b, width, height) {
        assert(0 <= vx <= (width * m) * dx && 0 <= vy <= (height * m) * dx) by (nonlinear_arith)
            requires
                vx == ax * (width * m),
                vy == ay * (width * m),
                0 <= ax <= dx,
                0 <= ay <= dy,
                dy == 0 || width * dy <= height * dx,
                0 <= width,
                0 <= height,
                0 <= m,
        ;
    } else {
        assert(0 <= vx <= (width * m) * dy && 0 <= vy <= (height * m) * dy) by (nonlinear_arith)
            requires
                vx == ax * (height * m),
                vy == ay * (height * m),
                0 <= ax <= dx,
                0 <= ay <= dy,
                dx == 0 || width * dy > height * dx,
                0 <= width,
                0 <= height,
                0 <= m,
        ;
    }
    lemma_rounded_quotient_bounds(vx, t.denominator, width * m);
    lemma_rounded_quotient_bounds(vy, t.denominator, height * m);
    assert(width * m <= width * 100 && height * m <= height * 100) by (nonlinear_arith)
        requires
            0 <= width,
            0 <= height,
            0 <= m <= 100,
    ;
}

/// With a margin of at most 100 percent, every point of the fitted
/// sequence lands on the canvas.
pub proof fn lemma_fitted_points_stay_on_canvas(
    points: Seq<GeoPoint>,
    width: int,
    height: int,
    margin_percent: int,
    k: int,
)
    requires
        0 <= k < points.len(),
        !degenerate(bounds_of(points)),
        0 <= width,
        0 <= height,
        0 <= margin_percent <= 100,
    ensures
        0 <= canvas_x(fitted(bounds_of(points), width, height, margin_percent), points[k])
            <= width * 100,
        0 <= canvas_y(fitted(bounds_of(points), width, height, margin_percent), points[k])
            <= height * 100,
{
    lemma_bounding_box_exists(points);
    lemma_boxed_point_stays_on_canvas(
        bounds_of(points),
        width,
        height,
        margin_percent,
        points[k],
    );
}

/// The corner of the box with the smallest coordinates lands on the lower
/// left corner of the canvas.
pub proof fn lemma_box_corner_lands_on_canvas_corner(
    b: BoundingBox,
    width: int,
    height: int,
    margin_percent: int,
)
    requires
        b.min_x <= b.max_x,
        b.min_y <= b.max_y,
        !degenerate(b),
    ensures
        canvas_x(
            fitted(b, width, height, margin_percent),
            GeoPoint { lat: b.min_x, lon: b.min_y },
        ) == 0,
        canvas_y(
            fitted(b, width, height, margin_percent),
            GeoPoint { lat: b.min_x, lon: b.min_y },
        ) == height * 100,
{
    let t = fitted(b, width, height, margin_percent);
    assert(0 * t.numerator == 0);
    lemma_rounded_quotient_bounds(0, t.denominator, 0);
}

} // verus!
