//! Integer plane geometry: points, pivot origins, quad rects, texture frames.
//!
//! World coordinates follow the engine convention: origin at the world's
//! top-left corner, `+x` to the right, `+y` downward. Depth is a separate
//! scalar carried by each rect. Scale and rotation are applied about a pivot
//! through fixed-point coefficients scaled by [`SCALE_ONE`], with division
//! truncating toward zero.

use vstd::prelude::*;

verus! {

/// Largest magnitude accepted for caller-supplied world coordinates.
pub const GEOM_LIMIT: i64 = 0x1_0000_0000;

/// Largest magnitude a rect coordinate may have for the transform
/// arithmetic to stay within `i64`.
pub const COORD_BOUND: i64 = 0x8_0000_0000;

/// Largest magnitude a stored transform pivot offset may have.
pub const ORIGIN_LIMIT: i64 = 0x4_0000_0000;

/// Fixed-point unit for scale and rotation coefficients: a coefficient of
/// `SCALE_ONE` means a factor of exactly one.
pub const SCALE_ONE: i64 = 65536;

/// Largest magnitude accepted for a fixed-point transform coefficient.
pub const SCALE_LIMIT: i64 = 0x200_0000;

/// Truncating division (toward zero), the rounding used by all fixed-point
/// transforms in this crate.
pub open spec fn spec_div_trunc(n: int, q: int) -> int
    recommends
        q >= 1,
{
    if n >= 0 {
        n / q
    } else {
        -((-n) / q)
    }
}

proof fn lemma_nonneg_div_bounds(n: int, q: int)
    requires
        0 <= n,
        1 <= q,
    ensures
        0 <= n / q <= n,
{
    assert(0 <= n / q <= n) by (nonlinear_arith)
        requires
            0 <= n,
            1 <= q,
    ;
}

/// The quotient never exceeds the dividend in magnitude.
pub proof fn lemma_div_trunc_bound(n: int, q: int)
    requires
        1 <= q,
    ensures
        n >= 0 ==> 0 <= spec_div_trunc(n, q) <= n,
        n < 0 ==> n <= spec_div_trunc(n, q) <= 0,
{
    if n >= 0 {
        lemma_nonneg_div_bounds(n, q);
    } else {
        lemma_nonneg_div_bounds(-n, q);
    }
}

/// Exec form of [`spec_div_trunc`].
pub fn div_trunc(n: i64, q: i64) -> (r: i64)
    requires
        1 <= q,
        -0x4000_0000_0000_0000 <= n <= 0x4000_0000_0000_0000,
    ensures
        r == spec_div_trunc(n as int, q as int),
        -0x4000_0000_0000_0000 <= r <= 0x4000_0000_0000_0000,
{
    proof {
        lemma_div_trunc_bound(n as int, q as int);
    }
    if n >= 0 {
        ((n as u64) / (q as u64)) as i64
    } else {
        let m = (-n) as u64;
        -((m / (q as u64)) as i64)
    }
}

/// A point or displacement in the integer world plane.
#[derive(Clone, Copy, PartialEq, Eq, Structural, Debug)]
pub struct Vector2d {
    pub x: i64,
    pub y: i64,
}

impl Vector2d {
    /// Both components lie within `[-b, b]`.
    pub open spec fn bounded(self, b: int) -> bool {
        &&& -b <= self.x <= b
        &&& -b <= self.y <= b
    }

    pub fn new(x: i64, y: i64) -> (r: Vector2d)
        ensures
            r == (Vector2d { x, y }),
    {
        Vector2d { x, y }
    }

    pub fn add(self, rhs: Vector2d) -> (r: Vector2d)
        requires
            self.bounded(2 * COORD_BOUND as int),
            rhs.bounded(2 * COORD_BOUND as int),
        ensures
            r.x == self.x + rhs.x,
            r.y == self.y + rhs.y,
    {
        Vector2d { x: self.x + rhs.x, y: self.y + rhs.y }
    }

    pub fn sub(self, rhs: Vector2d) -> (r: Vector2d)
        requires
            self.bounded(2 * COORD_BOUND as int),
            rhs.bounded(2 * COORD_BOUND as int),
        ensures
            r.x == self.x - rhs.x,
            r.y == self.y - rhs.y,
    {
        Vector2d { x: self.x - rhs.x, y: self.y - rhs.y }
    }

    pub fn neg(self) -> (r: Vector2d)
        requires
            self.bounded(2 * COORD_BOUND as int),
        ensures
            r.x == -self.x,
            r.y == -self.y,
    {
        Vector2d { x: -self.x, y: -self.y }
    }

    pub fn to_origin(self) -> (r: Origin)
        ensures
            r.vector2d == self,
    {
        Origin { vector2d: self }
    }
}

/// A sprite's transform pivot, stored as an offset from the rect's
/// top-left corner.
#[derive(Clone, Copy, PartialEq, Eq, Structural, Debug)]
pub struct Origin {
    pub vector2d: Vector2d,
}

impl Origin {
    pub fn new(x: i64, y: i64) -> (r: Origin)
        ensures
            r.vector2d == (Vector2d { x, y }),
    {
        Origin { vector2d: Vector2d { x, y } }
    }

    pub fn zero() -> (r: Origin)
        ensures
            r.vector2d == (Vector2d { x: 0, y: 0 }),
    {
        Origin { vector2d: Vector2d { x: 0, y: 0 } }
    }

    pub fn set(&mut self, x: i64, y: i64)
        ensures
            final(self).vector2d == (Vector2d { x, y }),
    {
        self.vector2d.x = x;
        self.vector2d.y = y;
    }

    pub fn x(&self) -> (r: i64)
        ensures
            r == self.vector2d.x,
    {
        self.vector2d.x
    }

    pub fn y(&self) -> (r: i64)
        ensures
            r == self.vector2d.y,
    {
        self.vector2d.y
    }
}

/// One coordinate of a point transformed about a pivot: the pivot coordinate
/// plus the fixed-point linear combination of the point's offsets from the
/// pivot, with truncating division by `q`.
pub open spec fn spec_affine_coord(o: int, a: int, b: int, dx: int, dy: int, q: int) -> int {
    o + spec_div_trunc(a * dx + b * dy, q)
}

/// A point transformed about the pivot `og` by the fixed-point linear map
/// with rows `(ax, bx) / qx` and `(ay, by) / qy`.
pub open spec fn spec_affine_point(
    p: Vector2d,
    og: Vector2d,
    ax: int,
    bx: int,
    qx: int,
    ay: int,
    by: int,
    qy: int,
) -> Vector2d {
    Vector2d {
        x: spec_affine_coord(og.x as int, ax, bx, p.x - og.x, p.y - og.y, qx) as i64,
        y: spec_affine_coord(og.y as int, ay, by, p.x - og.x, p.y - og.y, qy) as i64,
    }
}

proof fn lemma_affine_product_bound(a: int, d: int)
    requires
        -SCALE_LIMIT <= a <= SCALE_LIMIT,
        -0x10_0000_0000 <= d <= 0x10_0000_0000,
    ensures
        -0x2000_0000_0000_0000 <= a * d <= 0x2000_0000_0000_0000,
{
    assert(-0x2000_0000_0000_0000 <= a * d <= 0x2000_0000_0000_0000) by (nonlinear_arith)
        requires
            -0x200_0000 <= a <= 0x200_0000,
            -0x10_0000_0000 <= d <= 0x10_0000_0000,
    ;
}

/// Exec form of [`spec_affine_point`].
pub fn affine_point(
    p: Vector2d,
    og: Vector2d,
    ax: i64,
    bx: i64,
    qx: i64,
    ay: i64,
    by: i64,
    qy: i64,
) -> (r: Vector2d)
    requires
        p.bounded(COORD_BOUND as int),
        og.bounded(COORD_BOUND as int),
        -SCALE_LIMIT <= ax <= SCALE_LIMIT,
        -SCALE_LIMIT <= bx <= SCALE_LIMIT,
        -SCALE_LIMIT <= ay <= SCALE_LIMIT,
        -SCALE_LIMIT <= by <= SCALE_LIMIT,
        1 <= qx,
        1 <= qy,
    ensures
        r == spec_affine_point(p, og, ax as int, bx as int, qx as int, ay as int, by as int,
            qy as int),
        og.x - 0x4000_0000_0000_0000 <= r.x <= og.x + 0x4000_0000_0000_0000,
        og.y - 0x4000_0000_0000_0000 <= r.y <= og.y + 0x4000_0000_0000_0000,
{
    let dx = p.x - og.x;
    let dy = p.y - og.y;
    proof {
        lemma_affine_product_bound(ax as int, dx as int);
        lemma_affine_product_bound(bx as int, dy as int);
        lemma_affine_product_bound(ay as int, dx as int);
        lemma_affine_product_bound(by as int, dy as int);
    }
    let nx = ax * dx + bx * dy;
    let ny = ay * dx + by * dy;
    proof {
        lemma_div_trunc_bound(nx as int, qx as int);
        lemma_div_trunc_bound(ny as int, qy as int);
    }
    Vector2d { x: og.x + div_trunc(nx, qx), y: og.y + div_trunc(ny, qy) }
}

/// A quad in the world plane: four corner points and a depth scalar.
///
/// Freshly built rects are axis-aligned; a rotation may carry the corners
/// anywhere, and the axis-aligned hull is then recovered with
/// [`Rect::get_bounding_rect`].
#[derive(Clone, Copy, PartialEq, Eq, Structural, Debug)]
pub struct Rect {
    pub top_left: Vector2d,
    pub bottom_left: Vector2d,
    pub bottom_right: Vector2d,
    pub top_right: Vector2d,
    pub depth: i64,
}

impl Rect {
    /// All four corners lie within `[-b, b]` on both axes.
    pub open spec fn coords_bounded(self, b: int) -> bool {
        &&& self.top_left.bounded(b)
        &&& self.bottom_left.bounded(b)
        &&& self.bottom_right.bounded(b)
        &&& self.top_right.bounded(b)
    }

    /// Every corner lies within `d` of the point `og` on both axes.
    pub open spec fn corners_near(self, og: Vector2d, d: int) -> bool {
        &&& og.x - d <= self.top_left.x <= og.x + d
        &&& og.y - d <= self.top_left.y <= og.y + d
        &&& og.x - d <= self.bottom_left.x <= og.x + d
        &&& og.y - d <= self.bottom_left.y <= og.y + d
        &&& og.x - d <= self.bottom_right.x <= og.x + d
        &&& og.y - d <= self.bottom_right.y <= og.y + d
        &&& og.x - d <= self.top_right.x <= og.x + d
        &&& og.y - d <= self.top_right.y <= og.y + d
    }

    /// The corners form an axis-aligned rect with non-negative extent,
    /// corner names matching their geometric role (`+y` down).
    pub open spec fn axis_aligned(self) -> bool {
        &&& self.top_left.x == self.bottom_left.x
        &&& self.top_right.x == self.bottom_right.x
        &&& self.top_left.y == self.top_right.y
        &&& self.bottom_left.y == self.bottom_right.y
        &&& self.top_left.x <= self.top_right.x
        &&& self.top_left.y <= self.bottom_left.y
    }

    /// Smallest x over the four corners.
    pub open spec fn left_extent(self) -> int {
        vstd::math::min(
            vstd::math::min(self.top_left.x as int, self.top_right.x as int),
            vstd::math::min(self.bottom_left.x as int, self.bottom_right.x as int),
        )
    }

    /// Largest x over the four corners.
    pub open spec fn right_extent(self) -> int {
        vstd::math::max(
            vstd::math::max(self.top_left.x as int, self.top_right.x as int),
            vstd::math::max(self.bottom_left.x as int, self.bottom_right.x as int),
        )
    }

    /// Smallest y over the four corners (the topmost, since `+y` is down).
    pub open spec fn top_extent(self) -> int {
        vstd::math::min(
            vstd::math::min(self.top_left.y as int, self.top_right.y as int),
            vstd::math::min(self.bottom_left.y as int, self.bottom_right.y as int),
        )
    }

    /// Largest y over the four corners (the bottommost).
    pub open spec fn bottom_extent(self) -> int {
        vstd::math::max(
            vstd::math::max(self.top_left.y as int, self.top_right.y as int),
            vstd::math::max(self.bottom_left.y as int, self.bottom_right.y as int),
        )
    }

    /// The axis-aligned bounding rect of the four corners, same depth.
    pub open spec fn spec_bounding(self) -> Rect {
        Rect {
            top_left: (Vector2d { x: self.left_extent() as i64, y: self.top_extent() as i64 }),
            bottom_left: (Vector2d { x: self.left_extent() as i64, y: self.bottom_extent() as i64 }),
            bottom_right: (Vector2d {
                x: self.right_extent() as i64,
                y: self.bottom_extent() as i64,
            }),
            top_right: (Vector2d { x: self.right_extent() as i64, y: self.top_extent() as i64 }),
            depth: self.depth,
        }
    }

    /// An axis-aligned rect with top-left corner `(x, y)`, the given width
    /// and height extending right and down, and the given depth.
    pub open spec fn spec_new_raw(x: int, y: int, depth: int, width: int, height: int) -> Rect {
        Rect {
            top_left: (Vector2d { x: x as i64, y: y as i64 }),
            bottom_left: (Vector2d { x: x as i64, y: (y + height) as i64 }),
            bottom_right: (Vector2d { x: (x + width) as i64, y: (y + height) as i64 }),
            top_right: (Vector2d { x: (x + width) as i64, y: y as i64 }),
            depth: depth as i64,
        }
    }

    pub fn new_raw(x: i64, y: i64, depth: i64, width: i64, height: i64) -> (r: Rect)
        requires
            -GEOM_LIMIT <= x <= GEOM_LIMIT,
            -GEOM_LIMIT <= y <= GEOM_LIMIT,
            -GEOM_LIMIT <= width <= GEOM_LIMIT,
            -GEOM_LIMIT <= height <= GEOM_LIMIT,
        ensures
            r == Rect::spec_new_raw(x as int, y as int, depth as int, width as int, height as int),
    {
        Rect {
            top_left: Vector2d { x, y },
            bottom_left: Vector2d { x, y: y + height },
            bottom_right: Vector2d { x: x + width, y: y + height },
            top_right: Vector2d { x: x + width, y },
            depth,
        }
    }

    /// The axis-aligned rect spanned by a top-left and a bottom-right point.
    pub fn from_two_points(top_left: Vector2d, bottom_right: Vector2d, depth: i64) -> (r: Rect)
        ensures
            r.top_left == top_left,
            r.bottom_left == (Vector2d { x: top_left.x, y: bottom_right.y }),
            r.bottom_right == bottom_right,
            r.top_right == (Vector2d { x: bottom_right.x, y: top_left.y }),
            r.depth == depth,
    {
        Rect {
            top_left,
            bottom_left: Vector2d { x: top_left.x, y: bottom_right.y },
            bottom_right,
            top_right: Vector2d { x: bottom_right.x, y: top_left.y },
            depth,
        }
    }

    pub fn top_left(&self) -> (r: Vector2d)
        ensures
            r == self.top_left,
    {
        self.top_left
    }

    pub fn bottom_left(&self) -> (r: Vector2d)
        ensures
            r == self.bottom_left,
    {
        self.bottom_left
    }

    pub fn bottom_right(&self) -> (r: Vector2d)
        ensures
            r == self.bottom_right,
    {
        self.bottom_right
    }

    pub fn top_right(&self) -> (r: Vector2d)
        ensures
            r == self.top_right,
    {
        self.top_right
    }

    /// Signed distance from the top-left to the top-right corner.
    pub fn width(&self) -> (r: i64)
        requires
            self.coords_bounded(2 * COORD_BOUND as int),
        ensures
            r == self.top_right.x - self.top_left.x,
    {
        self.top_right.x - self.top_left.x
    }

    /// Signed distance from the top-left to the bottom-left corner.
    pub fn height(&self) -> (r: i64)
        requires
            self.coords_bounded(2 * COORD_BOUND as int),
        ensures
            r == self.bottom_left.y - self.top_left.y,
    {
        self.bottom_left.y - self.top_left.y
    }

    pub fn set_depth(&mut self, z: i64)
        ensures
            *final(self) == (Rect { depth: z, ..*old(self) }),
    {
        self.depth = z;
    }

    /// Rebuilds the rect axis-aligned at top-left `(x, y)` with its current
    /// width and height.
    pub fn set_pos_top_left(&mut self, x: i64, y: i64)
        requires
            old(self).coords_bounded(COORD_BOUND as int),
            -GEOM_LIMIT <= x <= GEOM_LIMIT,
            -GEOM_LIMIT <= y <= GEOM_LIMIT,
        ensures
            *final(self) == Rect::spec_new_raw(
                x as int,
                y as int,
                old(self).depth as int,
                old(self).top_right.x - old(self).top_left.x,
                old(self).bottom_left.y - old(self).top_left.y,
            ),
    {
        let width = self.width();
        let height = self.height();
        *self = Rect {
            top_left: Vector2d { x, y },
            bottom_left: Vector2d { x, y: y + height },
            bottom_right: Vector2d { x: x + width, y: y + height },
            top_right: Vector2d { x: x + width, y },
            depth: self.depth,
        };
    }

    /// The rect translated by `d`: every corner moves by the same offset.
    pub open spec fn spec_translated(self, d: Vector2d) -> Rect {
        Rect {
            top_left: (Vector2d {
                x: (self.top_left.x + d.x) as i64,
                y: (self.top_left.y + d.y) as i64,
            }),
            bottom_left: (Vector2d {
                x: (self.bottom_left.x + d.x) as i64,
                y: (self.bottom_left.y + d.y) as i64,
            }),
            bottom_right: (Vector2d {
                x: (self.bottom_right.x + d.x) as i64,
                y: (self.bottom_right.y + d.y) as i64,
            }),
            top_right: (Vector2d {
                x: (self.top_right.x + d.x) as i64,
                y: (self.top_right.y + d.y) as i64,
            }),
            depth: self.depth,
        }
    }

    /// Translates the whole rect by `vector`, preserving its shape.
    pub fn offset_pos(&mut self, vector: Vector2d)
        requires
            old(self).coords_bounded(COORD_BOUND as int),
            vector.bounded(2 * COORD_BOUND as int),
        ensures
            *final(self) == old(self).spec_translated(vector),
    {
        self.top_left.x = self.top_left.x + vector.x;
        self.top_left.y = self.top_left.y + vector.y;
        self.bottom_left.x = self.bottom_left.x + vector.x;
        self.bottom_left.y = self.bottom_left.y + vector.y;
        self.bottom_right.x = self.bottom_right.x + vector.x;
        self.bottom_right.y = self.bottom_right.y + vector.y;
        self.top_right.x = self.top_right.x + vector.x;
        self.top_right.y = self.top_right.y + vector.y;
    }

    /// Moves the rect so that the pivot described by `origin` (an offset from
    /// the top-left corner) comes to rest at `(origin_x, origin_y)`.
    pub fn set_pos_with_origin(&mut self, origin: Origin, origin_x: i64, origin_y: i64)
        requires
            old(self).coords_bounded(ORIGIN_LIMIT as int),
            origin.vector2d.bounded(ORIGIN_LIMIT as int),
            -GEOM_LIMIT <= origin_x <= GEOM_LIMIT,
            -GEOM_LIMIT <= origin_y <= GEOM_LIMIT,
        ensures
            *final(self) == old(self).spec_translated(
                Vector2d {
                    x: (origin_x - origin.vector2d.x - old(self).top_left.x) as i64,
                    y: (origin_y - origin.vector2d.y - old(self).top_left.y) as i64,
                },
            ),
    {
        let offset = Vector2d {
            x: origin_x - origin.vector2d.x - self.top_left.x,
            y: origin_y - origin.vector2d.y - self.top_left.y,
        };
        self.offset_pos(offset);
    }

    /// The axis-aligned bounding rect of the four corners, keeping the depth.
    pub fn get_bounding_rect(&self) -> (r: Rect)
        ensures
            r == self.spec_bounding(),
            r.axis_aligned(),
    {
        let left = min_i64(
            min_i64(self.top_left.x, self.top_right.x),
            min_i64(self.bottom_left.x, self.bottom_right.x),
        );
        let right = max_i64(
            max_i64(self.top_left.x, self.top_right.x),
            max_i64(self.bottom_left.x, self.bottom_right.x),
        );
        let top = min_i64(
            min_i64(self.top_left.y, self.top_right.y),
            min_i64(self.bottom_left.y, self.bottom_right.y),
        );
        let bottom = max_i64(
            max_i64(self.top_left.y, self.top_right.y),
            max_i64(self.bottom_left.y, self.bottom_right.y),
        );
        Rect {
            top_left: Vector2d { x: left, y: top },
            bottom_left: Vector2d { x: left, y: bottom },
            bottom_right: Vector2d { x: right, y: bottom },
            top_right: Vector2d { x: right, y: top },
            depth: self.depth,
        }
    }

    /// The rect with every corner carried through [`spec_affine_point`]
    /// about the pivot `og`, depth unchanged.
    pub open spec fn spec_transformed(
        self,
        og: Vector2d,
        ax: int,
        bx: int,
        qx: int,
        ay: int,
        by: int,
        qy: int,
    ) -> Rect {
        Rect {
            top_left: spec_affine_point(self.top_left, og, ax, bx, qx, ay, by, qy),
            bottom_left: spec_affine_point(self.bottom_left, og, ax, bx, qx, ay, by, qy),
            bottom_right: spec_affine_point(self.bottom_right, og, ax, bx, qx, ay, by, qy),
            top_right: spec_affine_point(self.top_right, og, ax, bx, qx, ay, by, qy),
            depth: self.depth,
        }
    }

    /// Applies the fixed-point linear map about the pivot `og` to all four
    /// corners.
    pub fn apply_affine(&mut self, og: Vector2d, ax: i64, bx: i64, qx: i64, ay: i64, by: i64, qy: i64)
        requires
            old(self).coords_bounded(COORD_BOUND as int),
            og.bounded(COORD_BOUND as int),
            -SCALE_LIMIT <= ax <= SCALE_LIMIT,
            -SCALE_LIMIT <= bx <= SCALE_LIMIT,
            -SCALE_LIMIT <= ay <= SCALE_LIMIT,
            -SCALE_LIMIT <= by <= SCALE_LIMIT,
            1 <= qx,
            1 <= qy,
        ensures
            *final(self) == old(self).spec_transformed(og, ax as int, bx as int, qx as int,
                ay as int, by as int, qy as int),
            final(self).corners_near(og, 0x4000_0000_0000_0000),
    {
        self.top_left = affine_point(self.top_left, og, ax, bx, qx, ay, by, qy);
        self.bottom_left = affine_point(self.bottom_left, og, ax, bx, qx, ay, by, qy);
        self.bottom_right = affine_point(self.bottom_right, og, ax, bx, qx, ay, by, qy);
        self.top_right = affine_point(self.top_right, og, ax, bx, qx, ay, by, qy);
    }

    /// Scales the rect about the pivot `origin` (an offset from the current
    /// top-left corner) by the fixed-point factors `x_scale / SCALE_ONE` and
    /// `y_scale / SCALE_ONE`, and returns the pivot re-expressed as an offset
    /// from the new top-left corner, so that it still denotes the same world
    /// point.
    pub fn set_scale_with_origin(&mut self, x_scale: i64, y_scale: i64, origin: Origin) -> (r:
        Origin)
        requires
            old(self).coords_bounded(GEOM_LIMIT as int),
            origin.vector2d.bounded(ORIGIN_LIMIT as int),
            -SCALE_LIMIT <= x_scale <= SCALE_LIMIT,
            -SCALE_LIMIT <= y_scale <= SCALE_LIMIT,
        ensures
            *final(self) == old(self).spec_transformed(
                Vector2d {
                    x: (origin.vector2d.x + old(self).top_left.x) as i64,
                    y: (origin.vector2d.y + old(self).top_left.y) as i64,
                },
                x_scale as int,
                0,
                SCALE_ONE as int,
                0,
                y_scale as int,
                SCALE_ONE as int,
            ),
            r.vector2d.x == origin.vector2d.x + old(self).top_left.x - final(self).top_left.x,
            r.vector2d.y == origin.vector2d.y + old(self).top_left.y - final(self).top_left.y,
    {
        let og = Vector2d {
            x: origin.vector2d.x + self.top_left.x,
            y: origin.vector2d.y + self.top_left.y,
        };
        self.apply_affine(og, x_scale, 0, SCALE_ONE, 0, y_scale, SCALE_ONE);
        Origin { vector2d: Vector2d { x: og.x - self.top_left.x, y: og.y - self.top_left.y } }
    }

    /// Rotates the rect about the pivot `origin` by the angle whose cosine
    /// and sine are given as fixed-point coefficients (`SCALE_ONE` = 1).
    /// A positive angle turns clockwise in this `+y`-down plane when
    /// `cos_fp = cos(angle) * SCALE_ONE` and `sin_fp = -sin(angle) *
    /// SCALE_ONE` are supplied, which is what the floating-point host layer
    /// computes. Returns the pivot re-expressed relative to the new top-left
    /// corner.
    pub fn set_rotation_with_origin(&mut self, cos_fp: i64, sin_fp: i64, origin: Origin) -> (r:
        Origin)
        requires
            old(self).coords_bounded(GEOM_LIMIT as int),
            origin.vector2d.bounded(ORIGIN_LIMIT as int),
            -SCALE_LIMIT <= cos_fp <= SCALE_LIMIT,
            -SCALE_LIMIT <= sin_fp <= SCALE_LIMIT,
        ensures
            *final(self) == old(self).spec_transformed(
                Vector2d {
                    x: (origin.vector2d.x + old(self).top_left.x) as i64,
                    y: (origin.vector2d.y + old(self).top_left.y) as i64,
                },
                cos_fp as int,
                -sin_fp as int,
                SCALE_ONE as int,
                sin_fp as int,
                cos_fp as int,
                SCALE_ONE as int,
            ),
            r.vector2d.x == origin.vector2d.x + old(self).top_left.x - final(self).top_left.x,
            r.vector2d.y == origin.vector2d.y + old(self).top_left.y - final(self).top_left.y,
    {
        let og = Vector2d {
            x: origin.vector2d.x + self.top_left.x,
            y: origin.vector2d.y + self.top_left.y,
        };
        self.apply_affine(og, cos_fp, -sin_fp, SCALE_ONE, sin_fp, cos_fp, SCALE_ONE);
        Origin { vector2d: Vector2d { x: og.x - self.top_left.x, y: og.y - self.top_left.y } }
    }

    /// The rect's center as an offset from its top-left corner, rounded
    /// toward zero.
    pub fn center_origin(&self) -> (r: Origin)
        requires
            self.coords_bounded(COORD_BOUND as int),
        ensures
            r.vector2d.x == spec_div_trunc(self.top_right.x - self.top_left.x, 2),
            r.vector2d.y == spec_div_trunc(self.bottom_left.y - self.top_left.y, 2),
    {
        let w = self.width();
        let h = self.height();
        Origin { vector2d: Vector2d { x: div_trunc(w, 2), y: div_trunc(h, 2) } }
    }

    /// The rect's center in world coordinates, rounded toward zero.
    pub fn center_global(&self) -> (r: Vector2d)
        requires
            self.coords_bounded(COORD_BOUND as int),
        ensures
            r.x == self.top_left.x + spec_div_trunc(self.top_right.x - self.top_left.x, 2),
            r.y == self.top_left.y + spec_div_trunc(self.bottom_left.y - self.top_left.y, 2),
    {
        let c = self.center_origin();
        proof {
            lemma_div_trunc_bound(self.top_right.x - self.top_left.x, 2);
            lemma_div_trunc_bound(self.bottom_left.y - self.top_left.y, 2);
        }
        Vector2d { x: self.top_left.x + c.vector2d.x, y: self.top_left.y + c.vector2d.y }
    }
}

/// A texture sub-rectangle in texel coordinates, one corner per vertex,
/// used as UV coordinates for a sprite.
#[derive(Clone, Copy, PartialEq, Eq, Structural, Debug)]
pub struct Frame {
    pub top_left: Vector2d,
    pub bottom_left: Vector2d,
    pub bottom_right: Vector2d,
    pub top_right: Vector2d,
}

pub fn min_i64(a: i64, b: i64) -> (r: i64)
    ensures
        r == vstd::math::min(a as int, b as int),
{
    if a < b {
        a
    } else {
        b
    }
}

pub fn max_i64(a: i64, b: i64) -> (r: i64)
    ensures
        r == vstd::math::max(a as int, b as int),
{
    if a > b {
        a
    } else {
        b
    }
}

} // verus!
