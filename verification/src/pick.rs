//! CPU ray-against-heightmap intersection.
//!
//! Walks the 2D grid in XY using a digital differential analyser, then tests
//! the ray against the two triangles of each cell. Returns the first hit
//! along the walk.
use crate::item::NOT_PICKABLE;
use crate::mesh::Cell;
use crate::scalar::{Scalar, Vec3, INFINITY, ONE, ZERO};
use vstd::prelude::*;

verus! {

/// The bit pattern of 1e-9: a direction component below it counts as none.
pub const PARALLEL: u32 = 0x3089_705F;

/// The bit pattern of 1e-8: a determinant below it counts as none.
pub const DEGENERATE: u32 = 0x322B_CC77;

/// World-space ray used for picking.
#[derive(Clone, Copy, PartialEq, Eq, Debug, Structural)]
pub struct PickRay {
    pub origin: Vec3,
    /// Not required to be of unit length.
    pub direction: Vec3,
}

/// One axis of the ground that a heightmap covers.
#[derive(Clone, Copy, PartialEq, Eq, Debug, Structural)]
pub struct GroundAxis {
    /// World-space position of the first sample.
    pub start: Scalar,
    /// World-space distance from the first to the last sample.
    pub extent: Scalar,
    /// Number of samples.
    pub samples: u32,
}

/// Heightmap retained for CPU picking.
pub struct CpuHeightmap {
    /// World-space heights in row-major order.
    pub heights: Vec<Scalar>,
    pub x: GroundAxis,
    pub y: GroundAxis,
}

/// The world-space heights at the corners of a cell.
#[derive(Clone, Copy, PartialEq, Eq, Debug, Structural)]
pub struct CornerHeights {
    pub h00: Scalar,
    pub h10: Scalar,
    pub h01: Scalar,
    pub h11: Scalar,
}

/// The world-space corners of a cell.
#[derive(Clone, Copy, PartialEq, Eq, Debug, Structural)]
pub struct CellCorners {
    pub c00: Vec3,
    pub c10: Vec3,
    pub c01: Vec3,
    pub c11: Vec3,
}

/// How a ray lies to a triangle: the determinant, the barycentric coordinates
/// with their sum, and the distance along the ray.
#[derive(Clone, Copy, PartialEq, Eq, Debug, Structural)]
pub struct TriangleFit {
    pub det: Scalar,
    pub u: Scalar,
    pub v: Scalar,
    pub sum: Scalar,
    pub t: Scalar,
}

/// The stretch of a ray between two distances.
#[derive(Clone, Copy, PartialEq, Eq, Debug, Structural)]
pub struct RaySpan {
    pub t_min: Scalar,
    pub t_max: Scalar,
}

/// A hit on a heightmap.
#[derive(Clone, Copy, PartialEq, Eq, Debug, Structural)]
pub struct HeightmapHit {
    /// Distance along the ray.
    pub t: Scalar,
    /// The picked item.
    pub id: u64,
    pub world_pos: Vec3,
    pub normal: Vec3,
}

/// The floating-point formulas of ray picking, on bit patterns.
///
/// Nothing is assumed of them: what is stated of a pick holds whatever they
/// return, and says which formula was applied to what.
pub trait RayMath {
    /// The unit vector along a direction.
    fn unit(&self, direction: Vec3) -> Vec3;

    /// The sum of two numbers.
    fn sum(&self, a: Scalar, b: Scalar) -> Scalar;

    /// The distance along a ray at which one of its coordinates reaches
    /// `edge`.
    fn crossing(&self, edge: Scalar, origin: Scalar, direction: Scalar) -> Scalar;

    /// The point at a distance along a ray.
    fn point(&self, origin: Vec3, direction: Vec3, t: Scalar) -> Vec3;

    /// A position along an axis, counted in cells from its start.
    fn in_cells(&self, axis: GroundAxis, position: Scalar) -> Scalar;

    /// The distance along a ray at which one of its coordinates reaches the
    /// `line`-th grid line of an axis.
    fn line_crossing(
        &self,
        axis: GroundAxis,
        line: i32,
        origin: Scalar,
        direction: Scalar,
    ) -> Scalar;

    /// The distance along a ray between two grid lines of an axis.
    fn line_spacing(&self, axis: GroundAxis, direction: Scalar) -> Scalar;

    /// The position of the `line`-th grid line of an axis.
    fn near_edge(&self, axis: GroundAxis, line: i32) -> Scalar;

    /// The position of the grid line of an axis that follows the one at
    /// `near`.
    fn far_edge(&self, axis: GroundAxis, near: Scalar) -> Scalar;

    /// How a ray lies to the triangle `a`, `b`, `c`.
    fn fit(&self, origin: Vec3, direction: Vec3, a: Vec3, b: Vec3, c: Vec3) -> TriangleFit;

    /// The unit normal of the triangle `a`, `b`, `c`, or zero.
    fn face_normal(&self, a: Vec3, b: Vec3, c: Vec3) -> Vec3;
}

/// The distance at which a ray hits a triangle, from how it lies to it.
pub open spec fn triangle_hit(fit: TriangleFit) -> Option<Scalar> {
    let zero = Scalar { bits: ZERO };
    let one = Scalar { bits: ONE };
    if fit.det.unsigned().below(Scalar { bits: DEGENERATE }) {
        None
    } else if fit.u.nan() || fit.u.below(zero) || one.below(fit.u) {
        None
    } else if fit.v.below(zero) || one.below(fit.sum) {
        None
    } else if zero.below(fit.t) {
        Some(fit.t)
    } else {
        None
    }
}

/// Decide from how a ray lies to a triangle whether and where it hits.
pub fn accept_fit(fit: TriangleFit) -> (t: Option<Scalar>)
    ensures
        t == triangle_hit(fit),
{
    let zero = Scalar { bits: ZERO };
    let one = Scalar { bits: ONE };
    if fit.det.abs().lt(Scalar { bits: DEGENERATE }) {
        return None;
    }
    if fit.u.is_nan() || fit.u.lt(zero) || one.lt(fit.u) {
        return None;
    }
    if fit.v.lt(zero) || one.lt(fit.sum) {
        return None;
    }
    if zero.lt(fit.t) {
        Some(fit.t)
    } else {
        None
    }
}

/// The nearer of two hits; the second one where neither is nearer.
pub open spec fn nearer(a: Option<Scalar>, b: Option<Scalar>) -> Option<Scalar> {
    match (a, b) {
        (Some(s), Some(t)) => if s.below(t) {
            Some(s)
        } else {
            Some(t)
        },
        (Some(s), None) => Some(s),
        (None, _) => b,
    }
}

/// The nearer of two hits.
pub fn nearer_hit(a: Option<Scalar>, b: Option<Scalar>) -> (t: Option<Scalar>)
    ensures
        t == nearer(a, b),
{
    match b {
        None => a,
        Some(t) => match a {
            Some(s) => if s.lt(t) {
                Some(s)
            } else {
                Some(t)
            },
            None => Some(t),
        },
    }
}

/// The part of a span between two crossings, in either order; none where
/// nothing is left.
pub open spec fn clipped(span: RaySpan, t1: Scalar, t2: Scalar) -> Option<RaySpan> {
    let near = if t2.below(t1) { t2 } else { t1 };
    let far = if t2.below(t1) { t1 } else { t2 };
    let t_min = span.t_min.larger(near);
    let t_max = span.t_max.smaller(far);
    if t_max.below(t_min) {
        None
    } else {
        Some(RaySpan { t_min, t_max })
    }
}

/// Clip a span to the stretch between two crossings.
pub fn clip_span(span: RaySpan, t1: Scalar, t2: Scalar) -> (rest: Option<RaySpan>)
    ensures
        rest == clipped(span, t1, t2),
{
    let swap: bool = t2.lt(t1);
    let near = if swap { t2 } else { t1 };
    let far = if swap { t1 } else { t2 };
    let t_min = span.t_min.max(near);
    let t_max = span.t_max.min(far);
    if t_max.lt(t_min) {
        None
    } else {
        Some(RaySpan { t_min, t_max })
    }
}

/// Whether a direction component counts as none.
pub open spec fn parallel(direction: Scalar) -> bool {
    direction.unsigned().below(Scalar { bits: PARALLEL })
}

/// Whether clipping `span` to the extent `lo ..= hi` of one axis leaves
/// `rest`.
pub open spec fn clips_to<M: RayMath>(
    math: &M,
    span: RaySpan,
    origin: Scalar,
    direction: Scalar,
    lo: Scalar,
    hi: Scalar,
    rest: Option<RaySpan>,
) -> bool {
    if parallel(direction) {
        rest == if origin.below(lo) || hi.below(origin) {
            None
        } else {
            Some(span)
        }
    } else {
        exists|t1: Scalar, t2: Scalar|
            {
                &&& #[trigger] call_ensures(M::crossing, (math, lo, origin, direction), t1)
                &&& #[trigger] call_ensures(M::crossing, (math, hi, origin, direction), t2)
                &&& rest == clipped(span, t1, t2)
            }
    }
}

/// Clip a span to the extent of one axis.
fn clip_axis<M: RayMath>(
    span: RaySpan,
    origin: Scalar,
    direction: Scalar,
    lo: Scalar,
    hi: Scalar,
    math: &M,
) -> (rest: Option<RaySpan>)
    ensures
        clips_to(math, span, origin, direction, lo, hi, rest),
{
    if direction.abs().lt(Scalar { bits: PARALLEL }) {
        if origin.lt(lo) || hi.lt(origin) {
            None
        } else {
            Some(span)
        }
    } else {
        let t1 = math.crossing(lo, origin, direction);
        let t2 = math.crossing(hi, origin, direction);
        clip_span(span, t1, t2)
    }
}

/// The whole of a ray from its origin on.
pub open spec fn whole_ray() -> RaySpan {
    RaySpan { t_min: Scalar { bits: ZERO }, t_max: Scalar { bits: INFINITY } }
}

/// Whether `entry` is where a ray enters the ground.
pub open spec fn enters_at<M: RayMath>(
    math: &M,
    origin: Vec3,
    direction: Vec3,
    x: GroundAxis,
    y: GroundAxis,
    entry: Option<Scalar>,
) -> bool {
    exists|far_x: Scalar, far_y: Scalar, along_x: Option<RaySpan>|
        {
            &&& #[trigger] call_ensures(M::sum, (math, x.start, x.extent), far_x)
            &&& #[trigger] call_ensures(M::sum, (math, y.start, y.extent), far_y)
            &&& #[trigger] clips_to(
                math,
                whole_ray(),
                origin.x,
                direction.x,
                x.start,
                far_x,
                along_x,
            )
            &&& match along_x {
                None => entry is None,
                Some(span) => exists|along_y: Option<RaySpan>|
                    {
                        &&& #[trigger] clips_to(
                            math,
                            span,
                            origin.y,
                            direction.y,
                            y.start,
                            far_y,
                            along_y,
                        )
                        &&& entry == match along_y {
                            None => None,
                            Some(rest) => Some(rest.t_min.larger(Scalar { bits: ZERO })),
                        }
                    },
            }
        }
}

/// Slab-test against the XY footprint extended over the full Z range.
/// Returns the distance at which the ray enters it, or 0 when the origin is
/// already inside.
pub fn ray_aabb_entry<M: RayMath>(
    origin: Vec3,
    direction: Vec3,
    x: GroundAxis,
    y: GroundAxis,
    math: &M,
) -> (entry: Option<Scalar>)
    ensures
        enters_at(math, origin, direction, x, y, entry),
{
    let far_x = math.sum(x.start, x.extent);
    let far_y = math.sum(y.start, y.extent);
    let whole = RaySpan { t_min: Scalar { bits: ZERO }, t_max: Scalar { bits: INFINITY } };
    assert(whole == whole_ray());
    let along_x = clip_axis(whole, origin.x, direction.x, x.start, far_x, math);
    match along_x {
        None => None,
        Some(span) => {
            let along_y = clip_axis(span, origin.y, direction.y, y.start, far_y, math);
            match along_y {
                None => None,
                Some(rest) => Some(rest.t_min.max(Scalar { bits: ZERO })),
            }
        },
    }
}

/// Whether `t` is where a ray hits the triangle `a`, `b`, `c`.
pub open spec fn hits_triangle<M: RayMath>(
    math: &M,
    origin: Vec3,
    direction: Vec3,
    a: Vec3,
    b: Vec3,
    c: Vec3,
    t: Option<Scalar>,
) -> bool {
    exists|fit: TriangleFit| #[trigger]
        call_ensures(M::fit, (math, origin, direction, a, b, c), fit) && t == triangle_hit(fit)
}

/// Ray-triangle intersection. Returns the distance along the ray; positive
/// only.
pub fn ray_triangle<M: RayMath>(
    origin: Vec3,
    direction: Vec3,
    a: Vec3,
    b: Vec3,
    c: Vec3,
    math: &M,
) -> (t: Option<Scalar>)
    ensures
        hits_triangle(math, origin, direction, a, b, c, t),
        t matches Some(d) ==> (Scalar { bits: ZERO }).below(d),
{
    let fit = math.fit(origin, direction, a, b, c);
    accept_fit(fit)
}

impl CpuHeightmap {
    /// Whether every corner of every cell has a height.
    pub open spec fn complete(&self) -> bool {
        self.x.samples >= 2 && self.y.samples >= 2 ==> self.x.samples * self.y.samples
            <= self.heights@.len()
    }

    /// Whether a cell lies on the grid.
    pub open spec fn has_cell(&self, x: int, y: int) -> bool {
        0 <= x < self.x.samples - 1 && 0 <= y < self.y.samples - 1
    }

    /// The height of the sample in column `x` and row `y`.
    pub open spec fn height_at(&self, x: int, y: int) -> Scalar {
        self.heights@[y * self.x.samples + x]
    }

    /// The heights at the corners of a cell.
    pub open spec fn corner_heights(&self, cell: Cell) -> CornerHeights {
        let x = cell.x as int;
        let y = cell.y as int;
        CornerHeights {
            h00: self.height_at(x, y),
            h10: self.height_at(x + 1, y),
            h01: self.height_at(x, y + 1),
            h11: self.height_at(x + 1, y + 1),
        }
    }

    /// Look the heights at the corners of a cell up.
    pub fn heights_of(&self, cell: Cell) -> (heights: CornerHeights)
        requires
            self.complete(),
            self.has_cell(cell.x as int, cell.y as int),
        ensures
            heights == self.corner_heights(cell),
    {
        let limit: usize = self.heights.len();
        let w: usize = self.x.samples as usize;
        let x: usize = cell.x as usize;
        let y: usize = cell.y as usize;
        proof {
            let sw = self.x.samples as int;
            let sh = self.y.samples as int;
            assert((cell.y + 1) * sw + cell.x + 1 < sw * sh) by (nonlinear_arith)
                requires
                    cell.x < sw - 1,
                    cell.y < sh - 1,
                    0 <= cell.x,
                    0 <= cell.y,
            ;
            assert((cell.y + 1) * sw == cell.y * sw + sw) by (nonlinear_arith);
            assert(0 <= cell.y * sw) by (nonlinear_arith)
                requires
                    0 <= cell.y,
                    0 <= sw,
            ;
        }
        CornerHeights {
            h00: self.heights[y * w + x],
            h10: self.heights[y * w + (x + 1)],
            h01: self.heights[(y + 1) * w + x],
            h11: self.heights[(y + 1) * w + (x + 1)],
        }
    }
}

/// Whether `c` are the corners of a cell: each where two of its edges meet, at
/// the height of its sample.
pub open spec fn are_corners<M: RayMath>(
    math: &M,
    cpu: &CpuHeightmap,
    cell: Cell,
    c: CellCorners,
) -> bool {
    let heights = cpu.corner_heights(cell);
    &&& call_ensures(M::near_edge, (math, cpu.x, cell.x), c.c00.x)
    &&& call_ensures(M::far_edge, (math, cpu.x, c.c00.x), c.c11.x)
    &&& call_ensures(M::near_edge, (math, cpu.y, cell.y), c.c00.y)
    &&& call_ensures(M::far_edge, (math, cpu.y, c.c00.y), c.c11.y)
    &&& c.c10.x == c.c11.x && c.c10.y == c.c00.y
    &&& c.c01.x == c.c00.x && c.c01.y == c.c11.y
    &&& c.c00.z == heights.h00
    &&& c.c10.z == heights.h10
    &&& c.c01.z == heights.h01
    &&& c.c11.z == heights.h11
}

/// The corners of a cell.
pub fn cell_corners<M: RayMath>(cell: Cell, cpu: &CpuHeightmap, math: &M) -> (c: CellCorners)
    requires
        cpu.complete(),
        cpu.has_cell(cell.x as int, cell.y as int),
    ensures
        are_corners(math, cpu, cell, c),
{
    let heights = cpu.heights_of(cell);
    let x0 = math.near_edge(cpu.x, cell.x);
    let x1 = math.far_edge(cpu.x, x0);
    let y0 = math.near_edge(cpu.y, cell.y);
    let y1 = math.far_edge(cpu.y, y0);
    CellCorners {
        c00: Vec3 { x: x0, y: y0, z: heights.h00 },
        c10: Vec3 { x: x1, y: y0, z: heights.h10 },
        c01: Vec3 { x: x0, y: y1, z: heights.h01 },
        c11: Vec3 { x: x1, y: y1, z: heights.h11 },
    }
}

/// Whether `t` is where a ray hits a cell: the nearer hit on its triangles
/// (00, 10, 11) and (00, 11, 01).
pub open spec fn hits_cell<M: RayMath>(
    math: &M,
    cast: PickRay,
    cpu: &CpuHeightmap,
    cell: Cell,
    t: Option<Scalar>,
) -> bool {
    exists|c: CellCorners, a: Option<Scalar>, b: Option<Scalar>|
        {
            &&& #[trigger] are_corners(math, cpu, cell, c)
            &&& #[trigger] hits_triangle(math, cast.origin, cast.direction, c.c00, c.c10, c.c11, a)
            &&& #[trigger] hits_triangle(math, cast.origin, cast.direction, c.c00, c.c11, c.c01, b)
            &&& t == nearer(a, b)
        }
}

/// Intersect a ray with the two triangles of a cell.
pub fn intersect_cell<M: RayMath>(
    cast: PickRay,
    cell: Cell,
    cpu: &CpuHeightmap,
    math: &M,
) -> (t: Option<Scalar>)
    requires
        cpu.complete(),
        cpu.has_cell(cell.x as int, cell.y as int),
    ensures
        hits_cell(math, cast, cpu, cell, t),
{
    let c = cell_corners(cell, cpu, math);
    let a = ray_triangle(cast.origin, cast.direction, c.c00, c.c10, c.c11, math);
    let b = ray_triangle(cast.origin, cast.direction, c.c00, c.c11, c.c01, math);
    nearer_hit(a, b)
}

/// Whether `normal` is the normal of a cell: that of its first triangle.
pub open spec fn faces<M: RayMath>(math: &M, cpu: &CpuHeightmap, cell: Cell, normal: Vec3) -> bool {
    exists|c: CellCorners|
        {
            &&& #[trigger] are_corners(math, cpu, cell, c)
            &&& call_ensures(M::face_normal, (math, c.c00, c.c10, c.c11), normal)
        }
}

/// The normal of a cell.
pub fn cell_normal<M: RayMath>(cell: Cell, cpu: &CpuHeightmap, math: &M) -> (normal: Vec3)
    requires
        cpu.complete(),
        cpu.has_cell(cell.x as int, cell.y as int),
    ensures
        faces(math, cpu, cell, normal),
{
    let c = cell_corners(cell, cpu, math);
    math.face_normal(c.c00, c.c10, c.c11)
}

/// Where a walk over the grid stands: the cell, and the distances along the
/// ray at which it next crosses a grid line of either axis.
#[derive(Clone, Copy, PartialEq, Eq, Debug, Structural)]
pub struct Walk {
    pub cell: Cell,
    pub t_max_x: Scalar,
    pub t_max_y: Scalar,
}

/// How a walk over the grid advances: the direction in which it leaves a
/// cell, and the distances along the ray between two grid lines.
#[derive(Clone, Copy, PartialEq, Eq, Debug, Structural)]
pub struct Stride {
    pub step_x: i32,
    pub step_y: i32,
    pub t_delta_x: Scalar,
    pub t_delta_y: Scalar,
}

/// The direction in which a ray leaves a cell along an axis.
pub open spec fn step_along(direction: Scalar) -> int {
    if (Scalar { bits: ZERO }).below(direction) {
        1
    } else {
        -1
    }
}

/// The direction in which a ray leaves a cell along an axis.
pub fn step_of(direction: Scalar) -> (step: i32)
    ensures
        step == step_along(direction),
{
    if (Scalar { bits: ZERO }).lt(direction) {
        1
    } else {
        -1
    }
}

/// The grid line through which a walk leaves a cell.
pub open spec fn exit_line(cell: i32, step: int) -> i32 {
    if step > 0 {
        cell.wrapping_add(1)
    } else {
        cell
    }
}

/// Whether `t_max` is where a ray first crosses a grid line of an axis and
/// `t_delta` the distance to the next one.
pub open spec fn strides<M: RayMath>(
    math: &M,
    axis: GroundAxis,
    cell: i32,
    origin: Scalar,
    direction: Scalar,
    t_max: Scalar,
    t_delta: Scalar,
) -> bool {
    if parallel(direction) {
        t_max == (Scalar { bits: INFINITY }) && t_delta == (Scalar { bits: INFINITY })
    } else {
        &&& call_ensures(
            M::line_crossing,
            (math, axis, exit_line(cell, step_along(direction)), origin, direction),
            t_max,
        )
        &&& call_ensures(M::line_spacing, (math, axis, direction), t_delta)
    }
}

/// Set a walk up along one axis.
fn stride_along<M: RayMath>(
    axis: GroundAxis,
    cell: i32,
    origin: Scalar,
    direction: Scalar,
    math: &M,
) -> (t: (Scalar, Scalar))
    ensures
        strides(math, axis, cell, origin, direction, t.0, t.1),
{
    if direction.abs().lt(Scalar { bits: PARALLEL }) {
        (Scalar { bits: INFINITY }, Scalar { bits: INFINITY })
    } else {
        let line: i32 = if step_of(direction) > 0 {
            cell.wrapping_add(1)
        } else {
            cell
        };
        let t_max = math.line_crossing(axis, line, origin, direction);
        let t_delta = math.line_spacing(axis, direction);
        (t_max, t_delta)
    }
}

/// Whether a walk along a ray that enters the ground at `t_entry` starts at
/// `walk` and advances by `stride`.
pub open spec fn sets_out<M: RayMath>(
    math: &M,
    cast: PickRay,
    cpu: &CpuHeightmap,
    t_entry: Scalar,
    walk: Walk,
    stride: Stride,
) -> bool {
    exists|entry: Vec3, x: Scalar, y: Scalar|
        {
            &&& #[trigger] call_ensures(
                M::point,
                (math, cast.origin, cast.direction, t_entry),
                entry,
            )
            &&& #[trigger] call_ensures(M::in_cells, (math, cpu.x, entry.x), x)
            &&& #[trigger] call_ensures(M::in_cells, (math, cpu.y, entry.y), y)
            &&& walk.cell.x == x.floored()
            &&& walk.cell.y == y.floored()
            &&& stride.step_x == step_along(cast.direction.x)
            &&& stride.step_y == step_along(cast.direction.y)
            &&& strides(
                math,
                cpu.x,
                walk.cell.x,
                cast.origin.x,
                cast.direction.x,
                walk.t_max_x,
                stride.t_delta_x,
            )
            &&& strides(
                math,
                cpu.y,
                walk.cell.y,
                cast.origin.y,
                cast.direction.y,
                walk.t_max_y,
                stride.t_delta_y,
            )
        }
}

/// Set a walk along a ray out from where the ray enters the ground.
pub fn set_out<M: RayMath>(
    cast: PickRay,
    cpu: &CpuHeightmap,
    t_entry: Scalar,
    math: &M,
) -> (start: (Walk, Stride))
    ensures
        sets_out(math, cast, cpu, t_entry, start.0, start.1),
{
    let entry = math.point(cast.origin, cast.direction, t_entry);
    let x = math.in_cells(cpu.x, entry.x);
    let y = math.in_cells(cpu.y, entry.y);
    let cell = Cell { x: x.floor_to_i32(), y: y.floor_to_i32() };
    let (t_max_x, t_delta_x) = stride_along(cpu.x, cell.x, cast.origin.x, cast.direction.x, math);
    let (t_max_y, t_delta_y) = stride_along(cpu.y, cell.y, cast.origin.y, cast.direction.y, math);
    let step_x: i32 = step_of(cast.direction.x);
    let step_y: i32 = step_of(cast.direction.y);
    (Walk { cell, t_max_x, t_max_y }, Stride { step_x, step_y, t_delta_x, t_delta_y })
}

impl Walk {
    /// Whether the walk next crosses a grid line of the X axis.
    pub open spec fn turns_x(self) -> bool {
        self.t_max_x.below(self.t_max_y)
    }

    /// The distance along the ray of the next crossing, and what the one after
    /// it is further by.
    pub open spec fn crossing(self, stride: Stride) -> (Scalar, Scalar) {
        if self.turns_x() {
            (self.t_max_x, stride.t_delta_x)
        } else {
            (self.t_max_y, stride.t_delta_y)
        }
    }

    /// The walk beyond the next crossing, `t` being the one after it.
    pub open spec fn advanced(self, stride: Stride, t: Scalar) -> Walk {
        if self.turns_x() {
            Walk {
                cell: Cell { x: self.cell.x.wrapping_add(stride.step_x), y: self.cell.y },
                t_max_x: t,
                t_max_y: self.t_max_y,
            }
        } else {
            Walk {
                cell: Cell { x: self.cell.x, y: self.cell.y.wrapping_add(stride.step_y) },
                t_max_x: self.t_max_x,
                t_max_y: t,
            }
        }
    }

    /// Whether the next crossing leads off the grid along its axis.
    pub open spec fn leaves(self, cpu: &CpuHeightmap, stride: Stride) -> bool {
        if self.turns_x() {
            !(0 <= self.cell.x.wrapping_add(stride.step_x) < cpu.x.samples - 1)
        } else {
            !(0 <= self.cell.y.wrapping_add(stride.step_y) < cpu.y.samples - 1)
        }
    }

    /// Advance beyond the next crossing, `t` being the one after it.
    pub fn advance(self, stride: Stride, t: Scalar) -> (next: Walk)
        ensures
            next == self.advanced(stride, t),
    {
        if self.t_max_x.lt(self.t_max_y) {
            Walk {
                cell: Cell { x: self.cell.x.wrapping_add(stride.step_x), y: self.cell.y },
                t_max_x: t,
                t_max_y: self.t_max_y,
            }
        } else {
            Walk {
                cell: Cell { x: self.cell.x, y: self.cell.y.wrapping_add(stride.step_y) },
                t_max_x: self.t_max_x,
                t_max_y: t,
            }
        }
    }
}

/// A hit on a cell.
#[derive(Clone, Copy, PartialEq, Eq, Debug, Structural)]
pub struct CellHit {
    pub cell: Cell,
    pub t: Scalar,
}

/// Whether a walk of at most `steps` cells ends with `found`: the hit on the
/// first cell on its way that the ray hits.
#[verifier::opaque]
pub open spec fn walks_to<M: RayMath>(
    math: &M,
    cast: PickRay,
    cpu: &CpuHeightmap,
    stride: Stride,
    walk: Walk,
    steps: nat,
    found: Option<CellHit>,
) -> bool
    decreases steps,
{
    if steps == 0 {
        found is None
    } else {
        let on_grid = cpu.has_cell(walk.cell.x as int, walk.cell.y as int);
        ||| {
            &&& on_grid
            &&& found matches Some(hit)
            &&& hit.cell == walk.cell
            &&& hits_cell(math, cast, cpu, walk.cell, Some(hit.t))
        }
        ||| {
            &&& on_grid ==> hits_cell(math, cast, cpu, walk.cell, None)
            &&& exists|t: Scalar|
                {
                    &&& #[trigger] call_ensures(
                        M::sum,
                        (math, walk.crossing(stride).0, walk.crossing(stride).1),
                        t,
                    )
                    &&& if walk.leaves(cpu, stride) {
                        found is None
                    } else {
                        walks_to(
                            math,
                            cast,
                            cpu,
                            stride,
                            walk.advanced(stride, t),
                            (steps - 1) as nat,
                            found,
                        )
                    }
                }
        }
    }
}

proof fn walk_ends_with_a_hit<M: RayMath>(
    math: &M,
    cast: PickRay,
    cpu: &CpuHeightmap,
    stride: Stride,
    walk: Walk,
    steps: nat,
    at: CellHit,
)
    requires
        steps > 0,
        cpu.has_cell(walk.cell.x as int, walk.cell.y as int),
        at.cell == walk.cell,
        hits_cell(math, cast, cpu, walk.cell, Some(at.t)),
    ensures
        walks_to(math, cast, cpu, stride, walk, steps, Some(at)),
{
    reveal_with_fuel(walks_to, 1);
}

proof fn walk_goes_on<M: RayMath>(
    math: &M,
    cast: PickRay,
    cpu: &CpuHeightmap,
    stride: Stride,
    walk: Walk,
    steps: nat,
    t: Scalar,
    found: Option<CellHit>,
)
    requires
        steps > 0,
        cpu.has_cell(walk.cell.x as int, walk.cell.y as int) ==> hits_cell(
            math,
            cast,
            cpu,
            walk.cell,
            None,
        ),
        call_ensures(M::sum, (math, walk.crossing(stride).0, walk.crossing(stride).1), t),
        if walk.leaves(cpu, stride) {
            found is None
        } else {
            walks_to(math, cast, cpu, stride, walk.advanced(stride, t), (steps - 1) as nat, found)
        },
    ensures
        walks_to(math, cast, cpu, stride, walk, steps, found),
{
    reveal_with_fuel(walks_to, 1);
}

/// Walk over the grid until a cell is hit, the walk leaves the grid or
/// `max_steps` cells have been visited.
pub fn walk_grid<M: RayMath>(
    cast: PickRay,
    cpu: &CpuHeightmap,
    start: Walk,
    stride: Stride,
    max_steps: u64,
    math: &M,
) -> (found: Option<CellHit>)
    requires
        cpu.complete(),
        cpu.x.samples >= 1,
        cpu.y.samples >= 1,
    ensures
        walks_to(math, cast, cpu, stride, start, max_steps as nat, found),
{
    let mut walk = start;
    let mut steps: u64 = max_steps;
    let last_x: i64 = cpu.x.samples as i64 - 1;
    let last_y: i64 = cpu.y.samples as i64 - 1;
    while steps > 0
        invariant
            cpu.complete(),
            last_x == cpu.x.samples - 1,
            last_y == cpu.y.samples - 1,
            forall|found: Option<CellHit>| #[trigger]
                walks_to(math, cast, cpu, stride, walk, steps as nat, found) ==> walks_to(
                    math,
                    cast,
                    cpu,
                    stride,
                    start,
                    max_steps as nat,
                    found,
                ),
        decreases steps,
    {
        let cell = walk.cell;
        if cell.x >= 0 && cell.y >= 0 && (cell.x as i64) < last_x && (cell.y as i64) < last_y {
            let hit = intersect_cell(cast, cell, cpu, math);
            if let Some(t) = hit {
                let found = Some(CellHit { cell, t });
                proof {
                    let at = CellHit { cell, t };
                    walk_ends_with_a_hit(math, cast, cpu, stride, walk, steps as nat, at);
                }
                return found;
            }
        }
        let turn_x: bool = walk.t_max_x.lt(walk.t_max_y);
        let t = if turn_x {
            math.sum(walk.t_max_x, stride.t_delta_x)
        } else {
            math.sum(walk.t_max_y, stride.t_delta_y)
        };
        assert(call_ensures(M::sum, (math, walk.crossing(stride).0, walk.crossing(stride).1), t));
        let next = walk.advance(stride, t);
        let off: bool = if turn_x {
            next.cell.x < 0 || next.cell.x as i64 >= last_x
        } else {
            next.cell.y < 0 || next.cell.y as i64 >= last_y
        };
        if off {
            proof {
                walk_goes_on(math, cast, cpu, stride, walk, steps as nat, t, None);
            }
            return None;
        }
        let ghost from = walk;
        walk = next;
        steps = steps - 1;
        assert forall|found: Option<CellHit>| #[trigger]
            walks_to(math, cast, cpu, stride, walk, steps as nat, found) implies walks_to(
            math,
            cast,
            cpu,
            stride,
            start,
            max_steps as nat,
            found,
        ) by {
            walk_goes_on(math, cast, cpu, stride, from, (steps + 1) as nat, t, found);
        }
    }
    assert(walks_to(math, cast, cpu, stride, walk, 0, None)) by {
        reveal_with_fuel(walks_to, 1);
    }
    None
}

/// Whether `hit` is what picking a heightmap along a ray gives.
pub open spec fn picks<M: RayMath>(
    math: &M,
    ray: PickRay,
    cpu: &CpuHeightmap,
    pick_id: u64,
    hit: Option<HeightmapHit>,
) -> bool {
    if pick_id == NOT_PICKABLE || cpu.x.samples < 2 || cpu.y.samples < 2 {
        hit is None
    } else {
        exists|direction: Vec3, entry: Option<Scalar>|
            {
                &&& #[trigger] call_ensures(M::unit, (math, ray.direction), direction)
                &&& #[trigger] enters_at(math, ray.origin, direction, cpu.x, cpu.y, entry)
                &&& match entry {
                    None => hit is None,
                    Some(t_entry) => picks_from(
                        math,
                        (PickRay { origin: ray.origin, direction }),
                        cpu,
                        pick_id,
                        t_entry,
                        hit,
                    ),
                }
            }
    }
}

/// Whether `hit` is what a walk along a ray that enters the ground at
/// `t_entry` gives.
pub open spec fn picks_from<M: RayMath>(
    math: &M,
    cast: PickRay,
    cpu: &CpuHeightmap,
    pick_id: u64,
    t_entry: Scalar,
    hit: Option<HeightmapHit>,
) -> bool {
    exists|walk: Walk, stride: Stride, found: Option<CellHit>|
        {
            &&& #[trigger] sets_out(math, cast, cpu, t_entry, walk, stride)
            &&& #[trigger] walks_to(math, cast, cpu, stride, walk, walk_budget(cpu), found)
            &&& match found {
                None => hit is None,
                Some(at) => {
                    &&& hit matches Some(h)
                    &&& h.t == at.t
                    &&& h.id == pick_id
                    &&& faces(math, cpu, at.cell, h.normal)
                    &&& call_ensures(
                        M::point,
                        (math, cast.origin, cast.direction, at.t),
                        h.world_pos,
                    )
                },
            }
        }
}

/// The greatest number of cells that a pick visits.
pub open spec fn walk_budget(cpu: &CpuHeightmap) -> nat {
    ((cpu.x.samples + cpu.y.samples) * 2) as nat
}

/// Pick a heightmap along a ray: the first hit along the walk over its grid.
pub fn pick_heightmap<M: RayMath>(
    ray: &PickRay,
    cpu: &CpuHeightmap,
    pick_id: u64,
    math: &M,
) -> (hit: Option<HeightmapHit>)
    requires
        cpu.complete(),
    ensures
        picks(math, *ray, cpu, pick_id, hit),
{
    if pick_id == NOT_PICKABLE {
        return None;
    }
    if cpu.x.samples < 2 || cpu.y.samples < 2 {
        return None;
    }
    let direction = math.unit(ray.direction);
    let entry = ray_aabb_entry(ray.origin, direction, cpu.x, cpu.y, math);
    let t_entry = match entry {
        None => {
            return None;
        },
        Some(t) => t,
    };
    let cast = PickRay { origin: ray.origin, direction };
    let (walk, stride) = set_out(cast, cpu, t_entry, math);
    let max_steps: u64 = (cpu.x.samples as u64 + cpu.y.samples as u64) * 2;
    assert(max_steps as nat == walk_budget(cpu));
    let found = walk_grid(cast, cpu, walk, stride, max_steps, math);
    let hit = match found {
        None => None,
        Some(at) => {
            proof {
                found_cell_is_on_the_grid(math, cast, cpu, stride, walk, max_steps as nat, at);
            }
            let normal = cell_normal(at.cell, cpu, math);
            let world_pos = math.point(cast.origin, cast.direction, at.t);
            Some(HeightmapHit { t: at.t, id: pick_id, world_pos, normal })
        },
    };
    assert(picks_from(math, cast, cpu, pick_id, t_entry, hit));
    hit
}

/// A cell that a walk finds lies on the grid, and the ray hits it in front of
/// its origin.
pub proof fn found_cell_is_on_the_grid<M: RayMath>(
    math: &M,
    cast: PickRay,
    cpu: &CpuHeightmap,
    stride: Stride,
    walk: Walk,
    steps: nat,
    at: CellHit,
)
    requires
        walks_to(math, cast, cpu, stride, walk, steps, Some(at)),
    ensures
        cpu.has_cell(at.cell.x as int, at.cell.y as int),
        hits_cell(math, cast, cpu, at.cell, Some(at.t)),
        (Scalar { bits: ZERO }).below(at.t),
    decreases steps,
{
    reveal_with_fuel(walks_to, 1);
    if cpu.has_cell(walk.cell.x as int, walk.cell.y as int) && at.cell == walk.cell && hits_cell(
        math,
        cast,
        cpu,
        walk.cell,
        Some(at.t),
    ) {
    } else {
        let t = choose|t: Scalar|
            {
                &&& #[trigger] call_ensures(
                    M::sum,
                    (math, walk.crossing(stride).0, walk.crossing(stride).1),
                    t,
                )
                &&& !walk.leaves(cpu, stride)
                &&& walks_to(
                    math,
                    cast,
                    cpu,
                    stride,
                    walk.advanced(stride, t),
                    (steps - 1) as nat,
                    Some(at),
                )
            };
        found_cell_is_on_the_grid(
            math,
            cast,
            cpu,
            stride,
            walk.advanced(stride, t),
            (steps - 1) as nat,
            at,
        );
    }
}

/// A pick gives the picked item, in front of the ray's origin, on a cell of
/// the grid that the ray hits there.
pub proof fn picked_hit_is_in_front<M: RayMath>(
    math: &M,
    ray: PickRay,
    cpu: &CpuHeightmap,
    pick_id: u64,
    hit: HeightmapHit,
)
    requires
        picks(math, ray, cpu, pick_id, Some(hit)),
    ensures
        pick_id != NOT_PICKABLE,
        hit.id == pick_id,
        (Scalar { bits: ZERO }).below(hit.t),
        exists|direction: Vec3, cell: Cell|
            {
                &&& call_ensures(M::unit, (math, ray.direction), direction)
                &&& cpu.has_cell(cell.x as int, cell.y as int)
                &&& #[trigger] hits_cell(
                    math,
                    (PickRay { origin: ray.origin, direction }),
                    cpu,
                    cell,
                    Some(hit.t),
                )
                &&& faces(math, cpu, cell, hit.normal)
            },
{
    let (direction, entry) = choose|direction: Vec3, entry: Option<Scalar>|
        {
            &&& #[trigger] call_ensures(M::unit, (math, ray.direction), direction)
            &&& #[trigger] enters_at(math, ray.origin, direction, cpu.x, cpu.y, entry)
            &&& entry is Some
            &&& picks_from(
                math,
                (PickRay { origin: ray.origin, direction }),
                cpu,
                pick_id,
                entry->0,
                Some(hit),
            )
        };
    let cast = PickRay { origin: ray.origin, direction };
    let (walk, stride, found) = choose|walk: Walk, stride: Stride, found: Option<CellHit>|
        {
            &&& #[trigger] sets_out(math, cast, cpu, entry->0, walk, stride)
            &&& #[trigger] walks_to(math, cast, cpu, stride, walk, walk_budget(cpu), found)
            &&& found is Some
            &&& hit.t == found->0.t
            &&& hit.id == pick_id
            &&& faces(math, cpu, found->0.cell, hit.normal)
        };
    found_cell_is_on_the_grid(math, cast, cpu, stride, walk, walk_budget(cpu), found->0);
    assert(hits_cell(math, cast, cpu, found->0.cell, Some(hit.t)));
}

/// Of two hits the nearer one is one of the two, and neither is nearer than
/// it.
pub proof fn nearer_hit_is_nearest(a: Option<Scalar>, b: Option<Scalar>)
    requires
        a matches Some(t) ==> !t.nan(),
        b matches Some(t) ==> !t.nan(),
    ensures
        nearer(a, b) == a || nearer(a, b) == b,
        nearer(a, b) is None <==> a is None && b is None,
        (a matches Some(t) ==> !t.below(nearer(a, b)->0)),
        (b matches Some(t) ==> !t.below(nearer(a, b)->0)),
{
}

/// How many cells lie ahead of a walk at most, its own included.
pub open spec fn cells_ahead(cpu: &CpuHeightmap, stride: Stride, walk: Walk) -> int {
    (if stride.step_x > 0 {
        cpu.x.samples - 1 - walk.cell.x
    } else {
        walk.cell.x + 1
    }) + (if stride.step_y > 0 {
        cpu.y.samples - 1 - walk.cell.y
    } else {
        walk.cell.y + 1
    })
}

/// Whether a walk stands on the grid or one cell beyond it, as one does that
/// comes in over an edge.
pub open spec fn near_grid(cpu: &CpuHeightmap, walk: Walk) -> bool {
    &&& cpu.x.samples >= 2 && cpu.y.samples >= 2
    &&& -1 <= walk.cell.x <= cpu.x.samples - 1
    &&& -1 <= walk.cell.y <= cpu.y.samples - 1
}

/// A walk that starts on the grid or next to it has left it before its budget
/// runs out: any greater budget leads to the same hits.
pub proof fn budget_never_cuts_a_walk_short<M: RayMath>(
    math: &M,
    cast: PickRay,
    cpu: &CpuHeightmap,
    stride: Stride,
    walk: Walk,
    steps: nat,
    found: Option<CellHit>,
)
    requires
        near_grid(cpu, walk),
        stride.step_x == 1 || stride.step_x == -1,
        stride.step_y == 1 || stride.step_y == -1,
        steps >= walk_budget(cpu),
    ensures
        walks_to(math, cast, cpu, stride, walk, steps, found) == walks_to(
            math,
            cast,
            cpu,
            stride,
            walk,
            walk_budget(cpu),
            found,
        ),
{
    let budget = walk_budget(cpu);
    if walks_to(math, cast, cpu, stride, walk, steps, found) {
        lemma_enough_steps(math, cast, cpu, stride, walk, steps, budget, found);
    }
    if walks_to(math, cast, cpu, stride, walk, budget, found) {
        lemma_enough_steps(math, cast, cpu, stride, walk, budget, steps, found);
    }
}

proof fn lemma_enough_steps<M: RayMath>(
    math: &M,
    cast: PickRay,
    cpu: &CpuHeightmap,
    stride: Stride,
    walk: Walk,
    steps: nat,
    others: nat,
    found: Option<CellHit>,
)
    requires
        near_grid(cpu, walk),
        stride.step_x == 1 || stride.step_x == -1,
        stride.step_y == 1 || stride.step_y == -1,
        steps > 0,
        others > 0,
        steps >= cells_ahead(cpu, stride, walk),
        others >= cells_ahead(cpu, stride, walk),
        walks_to(math, cast, cpu, stride, walk, steps, found),
    ensures
        walks_to(math, cast, cpu, stride, walk, others, found),
    decreases steps,
{
    reveal_with_fuel(walks_to, 1);
    let on_grid = cpu.has_cell(walk.cell.x as int, walk.cell.y as int);
    let hit_here = on_grid && found is Some && found->0.cell == walk.cell && hits_cell(
        math,
        cast,
        cpu,
        walk.cell,
        Some(found->0.t),
    );
    if hit_here {
        walk_ends_with_a_hit(math, cast, cpu, stride, walk, others, found->0);
    } else {
        let t = choose|t: Scalar|
            {
                &&& #[trigger] call_ensures(
                    M::sum,
                    (math, walk.crossing(stride).0, walk.crossing(stride).1),
                    t,
                )
                &&& if walk.leaves(cpu, stride) {
                    found is None
                } else {
                    walks_to(
                        math,
                        cast,
                        cpu,
                        stride,
                        walk.advanced(stride, t),
                        (steps - 1) as nat,
                        found,
                    )
                }
            };
        if !walk.leaves(cpu, stride) {
            lemma_enough_steps(
                math,
                cast,
                cpu,
                stride,
                walk.advanced(stride, t),
                (steps - 1) as nat,
                (others - 1) as nat,
                found,
            );
        }
        walk_goes_on(math, cast, cpu, stride, walk, others, t, found);
    }
}

/// Whether each formula gives one result for the same arguments, as arithmetic
/// on one machine does.
pub open spec fn repeats<M: RayMath>(math: &M) -> bool {
    &&& forall|direction: Vec3, x: Vec3, y: Vec3| #[trigger]
        call_ensures(M::unit, (math, direction), x) && #[trigger] call_ensures(
            M::unit,
            (math, direction),
            y,
        ) ==> x == y
    &&& forall|a: Scalar, b: Scalar, x: Scalar, y: Scalar| #[trigger]
        call_ensures(M::sum, (math, a, b), x) && #[trigger] call_ensures(
            M::sum,
            (math, a, b),
            y,
        ) ==> x == y
    &&& forall|edge: Scalar, origin: Scalar, direction: Scalar, x: Scalar, y: Scalar| #[trigger]
        call_ensures(M::crossing, (math, edge, origin, direction), x) && #[trigger] call_ensures(
            M::crossing,
            (math, edge, origin, direction),
            y,
        ) ==> x == y
    &&& forall|origin: Vec3, direction: Vec3, t: Scalar, x: Vec3, y: Vec3| #[trigger]
        call_ensures(M::point, (math, origin, direction, t), x) && #[trigger] call_ensures(
            M::point,
            (math, origin, direction, t),
            y,
        ) ==> x == y
    &&& forall|axis: GroundAxis, position: Scalar, x: Scalar, y: Scalar| #[trigger]
        call_ensures(M::in_cells, (math, axis, position), x) && #[trigger] call_ensures(
            M::in_cells,
            (math, axis, position),
            y,
        ) ==> x == y
    &&& forall|
        axis: GroundAxis,
        line: i32,
        origin: Scalar,
        direction: Scalar,
        x: Scalar,
        y: Scalar,
    | #[trigger]
        call_ensures(M::line_crossing, (math, axis, line, origin, direction), x)
            && #[trigger] call_ensures(
            M::line_crossing,
            (math, axis, line, origin, direction),
            y,
        ) ==> x == y
    &&& forall|axis: GroundAxis, direction: Scalar, x: Scalar, y: Scalar| #[trigger]
        call_ensures(M::line_spacing, (math, axis, direction), x) && #[trigger] call_ensures(
            M::line_spacing,
            (math, axis, direction),
            y,
        ) ==> x == y
    &&& forall|axis: GroundAxis, line: i32, x: Scalar, y: Scalar| #[trigger]
        call_ensures(M::near_edge, (math, axis, line), x) && #[trigger] call_ensures(
            M::near_edge,
            (math, axis, line),
            y,
        ) ==> x == y
    &&& forall|axis: GroundAxis, near: Scalar, x: Scalar, y: Scalar| #[trigger]
        call_ensures(M::far_edge, (math, axis, near), x) && #[trigger] call_ensures(
            M::far_edge,
            (math, axis, near),
            y,
        ) ==> x == y
    &&& forall|
        origin: Vec3,
        direction: Vec3,
        a: Vec3,
        b: Vec3,
        c: Vec3,
        x: TriangleFit,
        y: TriangleFit,
    | #[trigger]
        call_ensures(M::fit, (math, origin, direction, a, b, c), x) && #[trigger] call_ensures(
            M::fit,
            (math, origin, direction, a, b, c),
            y,
        ) ==> x == y
    &&& forall|a: Vec3, b: Vec3, c: Vec3, x: Vec3, y: Vec3| #[trigger]
        call_ensures(M::face_normal, (math, a, b, c), x) && #[trigger] call_ensures(
            M::face_normal,
            (math, a, b, c),
            y,
        ) ==> x == y
}

proof fn lemma_one_clip<M: RayMath>(
    math: &M,
    span: RaySpan,
    origin: Scalar,
    direction: Scalar,
    lo: Scalar,
    hi: Scalar,
    a: Option<RaySpan>,
    b: Option<RaySpan>,
)
    requires
        repeats(math),
        clips_to(math, span, origin, direction, lo, hi, a),
        clips_to(math, span, origin, direction, lo, hi, b),
    ensures
        a == b,
{
}

proof fn lemma_one_entry<M: RayMath>(
    math: &M,
    origin: Vec3,
    direction: Vec3,
    x: GroundAxis,
    y: GroundAxis,
    a: Option<Scalar>,
    b: Option<Scalar>,
)
    requires
        repeats(math),
        enters_at(math, origin, direction, x, y, a),
        enters_at(math, origin, direction, x, y, b),
    ensures
        a == b,
{
    assert forall|
        span: RaySpan,
        o: Scalar,
        d: Scalar,
        lo: Scalar,
        hi: Scalar,
        p: Option<RaySpan>,
        q: Option<RaySpan>,
    | #[trigger]
        clips_to(math, span, o, d, lo, hi, p) && #[trigger] clips_to(
        math,
        span,
        o,
        d,
        lo,
        hi,
        q,
    ) implies p == q by {
        lemma_one_clip(math, span, o, d, lo, hi, p, q);
    }
}

proof fn lemma_one_cell_hit<M: RayMath>(
    math: &M,
    cast: PickRay,
    cpu: &CpuHeightmap,
    cell: Cell,
    a: Option<Scalar>,
    b: Option<Scalar>,
)
    requires
        repeats(math),
        hits_cell(math, cast, cpu, cell, a),
        hits_cell(math, cast, cpu, cell, b),
    ensures
        a == b,
{
    lemma_one_set_of_corners(math, cpu, cell);
}

proof fn lemma_one_set_of_corners<M: RayMath>(math: &M, cpu: &CpuHeightmap, cell: Cell)
    requires
        repeats(math),
    ensures
        forall|a: CellCorners, b: CellCorners| #[trigger]
            are_corners(math, cpu, cell, a) && #[trigger] are_corners(math, cpu, cell, b) ==> a
                == b,
{
}

proof fn lemma_one_walk<M: RayMath>(
    math: &M,
    cast: PickRay,
    cpu: &CpuHeightmap,
    stride: Stride,
    walk: Walk,
    steps: nat,
    a: Option<CellHit>,
    b: Option<CellHit>,
)
    requires
        repeats(math),
        walks_to(math, cast, cpu, stride, walk, steps, a),
        walks_to(math, cast, cpu, stride, walk, steps, b),
    ensures
        a == b,
    decreases steps,
{
    reveal_with_fuel(walks_to, 1);
    assert forall|p: Option<Scalar>, q: Option<Scalar>| #[trigger]
        hits_cell(math, cast, cpu, walk.cell, p) && #[trigger] hits_cell(
        math,
        cast,
        cpu,
        walk.cell,
        q,
    ) implies p == q by {
        lemma_one_cell_hit(math, cast, cpu, walk.cell, p, q);
    }
    if steps > 0 {
        let on_grid = cpu.has_cell(walk.cell.x as int, walk.cell.y as int);
        if on_grid && !hits_cell(math, cast, cpu, walk.cell, None) {
            assert(a is Some && b is Some);
            assert(hits_cell(math, cast, cpu, walk.cell, Some(a->0.t)));
            assert(hits_cell(math, cast, cpu, walk.cell, Some(b->0.t)));
        } else if !walk.leaves(cpu, stride) {
            let t = choose|t: Scalar|
                {
                    &&& #[trigger] call_ensures(
                        M::sum,
                        (math, walk.crossing(stride).0, walk.crossing(stride).1),
                        t,
                    )
                    &&& walks_to(
                        math,
                        cast,
                        cpu,
                        stride,
                        walk.advanced(stride, t),
                        (steps - 1) as nat,
                        a,
                    )
                };
            assert(walks_to(
                math,
                cast,
                cpu,
                stride,
                walk.advanced(stride, t),
                (steps - 1) as nat,
                b,
            ));
            lemma_one_walk(
                math,
                cast,
                cpu,
                stride,
                walk.advanced(stride, t),
                (steps - 1) as nat,
                a,
                b,
            );
        }
    }
}

/// Picking the same heightmap along the same ray gives the same hit.
pub proof fn picking_repeats<M: RayMath>(
    math: &M,
    ray: PickRay,
    cpu: &CpuHeightmap,
    pick_id: u64,
    a: Option<HeightmapHit>,
    b: Option<HeightmapHit>,
)
    requires
        repeats(math),
        picks(math, ray, cpu, pick_id, a),
        picks(math, ray, cpu, pick_id, b),
    ensures
        a == b,
{
    assert forall|d: Vec3, p: Option<Scalar>, q: Option<Scalar>| #[trigger]
        enters_at(math, ray.origin, d, cpu.x, cpu.y, p) && #[trigger] enters_at(
        math,
        ray.origin,
        d,
        cpu.x,
        cpu.y,
        q,
    ) implies p == q by {
        lemma_one_entry(math, ray.origin, d, cpu.x, cpu.y, p, q);
    }
    assert forall|cast: PickRay, t: Scalar| #[trigger]
        picks_from(math, cast, cpu, pick_id, t, a) && picks_from(
        math,
        cast,
        cpu,
        pick_id,
        t,
        b,
    ) implies a == b by {
        lemma_one_pick(math, cast, cpu, pick_id, t, a, b);
    }
}

/// A pick depends on the direction of the ray through its unit vector alone, so
/// that distances are in world units whatever the length of the direction.
pub proof fn picking_ignores_the_length_of_the_direction<M: RayMath>(
    math: &M,
    a: PickRay,
    b: PickRay,
    cpu: &CpuHeightmap,
    pick_id: u64,
    hit: Option<HeightmapHit>,
)
    requires
        a.origin == b.origin,
        forall|u: Vec3|
            #![trigger call_ensures(M::unit, (math, a.direction), u)]
            #![trigger call_ensures(M::unit, (math, b.direction), u)]
            call_ensures(M::unit, (math, a.direction), u) == call_ensures(
                M::unit,
                (math, b.direction),
                u,
            ),
    ensures
        picks(math, a, cpu, pick_id, hit) == picks(math, b, cpu, pick_id, hit),
{
    if picks(math, a, cpu, pick_id, hit) {
        lemma_same_unit_same_pick(math, a, b, cpu, pick_id, hit);
    }
    if picks(math, b, cpu, pick_id, hit) {
        lemma_same_unit_same_pick(math, b, a, cpu, pick_id, hit);
    }
}

proof fn lemma_same_unit_same_pick<M: RayMath>(
    math: &M,
    a: PickRay,
    b: PickRay,
    cpu: &CpuHeightmap,
    pick_id: u64,
    hit: Option<HeightmapHit>,
)
    requires
        a.origin == b.origin,
        forall|u: Vec3| #[trigger]
            call_ensures(M::unit, (math, a.direction), u) ==> call_ensures(
                M::unit,
                (math, b.direction),
                u,
            ),
        picks(math, a, cpu, pick_id, hit),
    ensures
        picks(math, b, cpu, pick_id, hit),
{
}

proof fn lemma_one_pick<M: RayMath>(
    math: &M,
    cast: PickRay,
    cpu: &CpuHeightmap,
    pick_id: u64,
    t_entry: Scalar,
    a: Option<HeightmapHit>,
    b: Option<HeightmapHit>,
)
    requires
        repeats(math),
        picks_from(math, cast, cpu, pick_id, t_entry, a),
        picks_from(math, cast, cpu, pick_id, t_entry, b),
    ensures
        a == b,
{
    assert forall|walk: Walk, stride: Stride, p: Option<CellHit>, q: Option<CellHit>| #[trigger]
        walks_to(math, cast, cpu, stride, walk, walk_budget(cpu), p) && #[trigger] walks_to(
        math,
        cast,
        cpu,
        stride,
        walk,
        walk_budget(cpu),
        q,
    ) implies p == q by {
        lemma_one_walk(math, cast, cpu, stride, walk, walk_budget(cpu), p, q);
    }
    assert forall|w: Walk, s: Stride, v: Walk, r: Stride| #[trigger]
        sets_out(math, cast, cpu, t_entry, w, s) && #[trigger] sets_out(
        math,
        cast,
        cpu,
        t_entry,
        v,
        r,
    ) implies w == v && s == r by {}
    assert forall|cell: Cell, p: Vec3, q: Vec3| #[trigger]
        faces(math, cpu, cell, p) && #[trigger] faces(math, cpu, cell, q) implies p == q by {
        lemma_one_set_of_corners(math, cpu, cell);
    }
}

} // verus!
