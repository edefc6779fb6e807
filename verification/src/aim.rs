//! What a pick means on the ground: which surface it hits, that it misses no
//! part of it, and that it hits the nearest one.
//!
//! The laws speak of what the formulas stand for through relations that the
//! formulas respect. A relation may leave room for rounding.
use crate::mesh::Cell;
use crate::pick::{
    CellCorners, CellHit, CpuHeightmap, GroundAxis, HeightmapHit, PickRay, RayMath, Stride,
    TriangleFit, Walk,
};
use crate::scalar::{Scalar, Vec3, INFINITY, ONE, ZERO};
use vstd::prelude::*;

verus! {

/// Whether `at` tells where the grid lines of an axis are: it holds of the
/// position of a line, and of the position one spacing beyond a line for the
/// line that follows on the same axis.
pub open spec fn lines_lie<M: RayMath>(
    math: &M,
    at: spec_fn(GroundAxis, int, Scalar) -> bool,
) -> bool {
    &&& forall|axis: GroundAxis, line: i32, p: Scalar| #[trigger]
        call_ensures(M::near_edge, (math, axis, line), p) ==> at(axis, line as int, p)
    &&& forall|axis: GroundAxis, line: int, p: Scalar, q: Scalar|
        #![trigger at(axis, line, p), call_ensures(M::far_edge, (math, axis, p), q)]
        at(axis, line, p) && call_ensures(M::far_edge, (math, axis, p), q) ==> at(
            axis,
            line + 1,
            q,
        )
}

/// Whether four points are the samples around the cell in column `x` and row
/// `y`: each on the two grid lines that cross there, at the height of the sample
/// there, rows being stored one after another.
pub open spec fn spans_cell(
    at: spec_fn(GroundAxis, int, Scalar) -> bool,
    cpu: &CpuHeightmap,
    x: int,
    y: int,
    c: CellCorners,
) -> bool {
    let w = cpu.x.samples as int;
    &&& at(cpu.x, x, c.c00.x) && at(cpu.y, y, c.c00.y)
    &&& at(cpu.x, x + 1, c.c10.x) && at(cpu.y, y, c.c10.y)
    &&& at(cpu.x, x, c.c01.x) && at(cpu.y, y + 1, c.c01.y)
    &&& at(cpu.x, x + 1, c.c11.x) && at(cpu.y, y + 1, c.c11.y)
    &&& c.c00.z == cpu.heights@[y * w + x]
    &&& c.c10.z == cpu.heights@[y * w + x + 1]
    &&& c.c01.z == cpu.heights@[(y + 1) * w + x]
    &&& c.c11.z == cpu.heights@[(y + 1) * w + x + 1]
}

/// The corners of a cell lie on its own four grid lines, whatever the spacings of
/// the two axes, at the heights of the four samples there.
pub proof fn corners_lie_on_the_lines_of_their_cell<M: RayMath>(
    math: &M,
    at: spec_fn(GroundAxis, int, Scalar) -> bool,
    cpu: &CpuHeightmap,
    cell: Cell,
    c: CellCorners,
)
    requires
        lines_lie(math, at),
        crate::pick::are_corners(math, cpu, cell, c),
    ensures
        spans_cell(at, cpu, cell.x as int, cell.y as int, c),
{
    assert(at(cpu.x, cell.x as int, c.c00.x));
    assert(at(cpu.y, cell.y as int, c.c00.y));
    let w = cpu.x.samples as int;
    let (x, y) = (cell.x as int, cell.y as int);
    assert(y * w + (x + 1) == y * w + x + 1);
    assert((y + 1) * w + (x + 1) == (y + 1) * w + x + 1);
}

/// Cells meet without a gap: a cell and the one to its right share two corners,
/// and so do a cell and the one above it.
pub proof fn neighbouring_cells_share_their_corners<M: RayMath>(
    math: &M,
    cpu: &CpuHeightmap,
    cell: Cell,
    c: CellCorners,
    right: CellCorners,
    above: CellCorners,
)
    requires
        crate::pick::repeats(math),
        forall|axis: GroundAxis, line: i32, p: Scalar, q: Scalar, r: Scalar| #[trigger]
            call_ensures(M::near_edge, (math, axis, line), p) && #[trigger] call_ensures(
                M::far_edge,
                (math, axis, p),
                q,
            ) && line < i32::MAX && #[trigger] call_ensures(
                M::near_edge,
                (math, axis, (line + 1) as i32),
                r,
            ) ==> q == r,
        cell.x < i32::MAX,
        cell.y < i32::MAX,
        crate::pick::are_corners(math, cpu, cell, c),
        crate::pick::are_corners(
            math,
            cpu,
            Cell { x: (cell.x + 1) as i32, y: cell.y },
            right,
        ),
        crate::pick::are_corners(
            math,
            cpu,
            Cell { x: cell.x, y: (cell.y + 1) as i32 },
            above,
        ),
    ensures
        right.c00 == c.c10,
        right.c01 == c.c11,
        above.c00 == c.c01,
        above.c10 == c.c11,
{
}

/// Whether a ray lies to a triangle such that it strikes it: the triangle is not
/// seen edge-on, its barycentric coordinates are not below zero, add up to no more
/// than one, and the distance is above zero.
pub open spec fn strikes(fit: TriangleFit) -> bool {
    let one = (Scalar { bits: ONE }).scaled();
    let least = (Scalar { bits: 0x322B_CC77 }).scaled();
    &&& fit.det.unsigned().nan() || fit.det.unsigned().scaled() >= least
    &&& !fit.u.nan() && 0 <= fit.u.scaled() <= one
    &&& fit.v.nan() || 0 <= fit.v.scaled()
    &&& fit.sum.nan() || fit.sum.scaled() <= one
    &&& !fit.t.nan() && 0 < fit.t.scaled()
}

/// Whether `met` tells where a ray meets a triangle: exactly where the formula
/// says that it strikes it.
pub open spec fn meets<M: RayMath>(
    math: &M,
    cast: PickRay,
    met: spec_fn(Vec3, Vec3, Vec3, Scalar) -> bool,
) -> bool {
    forall|a: Vec3, b: Vec3, c: Vec3, fit: TriangleFit, t: Scalar|
        #![trigger call_ensures(M::fit, (math, cast.origin, cast.direction, a, b, c), fit),
            met(a, b, c, t)]
        call_ensures(M::fit, (math, cast.origin, cast.direction, a, b, c), fit) ==> (met(
            a,
            b,
            c,
            t,
        ) <==> strikes(fit) && t == fit.t)
}

/// Whether a ray meets one of the two triangles of a cell, cut from its first
/// corner to the opposite one.
pub open spec fn meets_cell(
    met: spec_fn(Vec3, Vec3, Vec3, Scalar) -> bool,
    c: CellCorners,
    t: Scalar,
) -> bool {
    met(c.c00, c.c10, c.c11, t) || met(c.c00, c.c11, c.c01, t)
}

proof fn lemma_triangle<M: RayMath>(
    math: &M,
    cast: PickRay,
    met: spec_fn(Vec3, Vec3, Vec3, Scalar) -> bool,
    a: Vec3,
    b: Vec3,
    c: Vec3,
    hit: Option<Scalar>,
)
    requires
        meets(math, cast, met),
        crate::pick::hits_triangle(math, cast.origin, cast.direction, a, b, c, hit),
    ensures
        hit matches Some(t) ==> met(a, b, c, t) && !t.nan() && 0 < t.scaled(),
        forall|t: Scalar| #[trigger] met(a, b, c, t) ==> hit == Some(t),
{
    let fit = choose|fit: TriangleFit| #[trigger]
        call_ensures(M::fit, (math, cast.origin, cast.direction, a, b, c), fit) && hit
            == crate::pick::triangle_hit(fit);
    let zero = Scalar { bits: ZERO };
    crate::scalar::zero_is_below_one();
    assert(zero.scaled() == 0);
    assert(met(a, b, c, fit.t) <==> strikes(fit));
}

/// A ray hits a cell exactly where it meets one of its triangles, and in the
/// nearer of two places: the hit lies on the surface, nothing of the cell is
/// nearer, and no hit means that the ray meets neither triangle.
pub proof fn a_cell_is_hit_where_it_is_met<M: RayMath>(
    math: &M,
    cast: PickRay,
    at: spec_fn(GroundAxis, int, Scalar) -> bool,
    met: spec_fn(Vec3, Vec3, Vec3, Scalar) -> bool,
    cpu: &CpuHeightmap,
    cell: Cell,
    hit: Option<Scalar>,
) -> (c: CellCorners)
    requires
        lines_lie(math, at),
        meets(math, cast, met),
        crate::pick::hits_cell(math, cast, cpu, cell, hit),
    ensures
        spans_cell(at, cpu, cell.x as int, cell.y as int, c),
        hit matches Some(t) ==> meets_cell(met, c, t) && !t.nan() && 0 < t.scaled(),
        forall|t: Scalar| #[trigger]
            meets_cell(met, c, t) ==> hit is Some && hit->0.scaled() <= t.scaled() && !t.nan(),
{
    let (c, a, b) = choose|c: CellCorners, a: Option<Scalar>, b: Option<Scalar>|
        {
            &&& #[trigger] crate::pick::are_corners(math, cpu, cell, c)
            &&& #[trigger] crate::pick::hits_triangle(
                math,
                cast.origin,
                cast.direction,
                c.c00,
                c.c10,
                c.c11,
                a,
            )
            &&& #[trigger] crate::pick::hits_triangle(
                math,
                cast.origin,
                cast.direction,
                c.c00,
                c.c11,
                c.c01,
                b,
            )
            &&& hit == crate::pick::nearer(a, b)
        };
    corners_lie_on_the_lines_of_their_cell(math, at, cpu, cell, c);
    lemma_triangle(math, cast, met, c.c00, c.c10, c.c11, a);
    lemma_triangle(math, cast, met, c.c00, c.c11, c.c01, b);
    c
}

/// Whether a ray is over an extent from `lo` to `hi` at the distance `t`: between
/// its crossings of the two edges, or anywhere where it runs along them between
/// them.
pub open spec fn passes_over<M: RayMath>(
    math: &M,
    origin: Scalar,
    direction: Scalar,
    lo: Scalar,
    hi: Scalar,
    t: Scalar,
) -> bool {
    if direction.unsigned().below(Scalar { bits: 0x3089_705F }) {
        !origin.nan() && !lo.nan() && !hi.nan() && lo.scaled() <= origin.scaled() <= hi.scaled()
    } else {
        forall|a: Scalar, b: Scalar| #[trigger]
            call_ensures(M::crossing, (math, lo, origin, direction), a) && #[trigger] call_ensures(
                M::crossing,
                (math, hi, origin, direction),
                b,
            ) ==> {
                &&& !a.nan() && !b.nan()
                &&& a.scaled() <= t.scaled() <= b.scaled() || b.scaled() <= t.scaled()
                    <= a.scaled()
            }
    }
}

/// Whether a ray is over the ground at the distance `t`.
pub open spec fn is_over_the_ground<M: RayMath>(
    math: &M,
    origin: Vec3,
    direction: Vec3,
    x: GroundAxis,
    y: GroundAxis,
    t: Scalar,
) -> bool {
    &&& forall|far: Scalar| #[trigger]
        call_ensures(M::sum, (math, x.start, x.extent), far) ==> passes_over(
            math,
            origin.x,
            direction.x,
            x.start,
            far,
            t,
        )
    &&& forall|far: Scalar| #[trigger]
        call_ensures(M::sum, (math, y.start, y.extent), far) ==> passes_over(
            math,
            origin.y,
            direction.y,
            y.start,
            far,
            t,
        )
}

/// Whether a ray crosses the edges of the ground at numbers, and the edges are numbers.
pub open spec fn crosses_at_numbers<M: RayMath>(
    math: &M,
    origin: Vec3,
    direction: Vec3,
    x: GroundAxis,
    y: GroundAxis,
) -> bool {
    let least = Scalar { bits: 0x3089_705F };
    &&& forall|edge: Scalar, t: Scalar| #[trigger]
        call_ensures(M::crossing, (math, edge, origin.x, direction.x), t)
            && !direction.x.unsigned().below(least) ==> !t.nan()
    &&& forall|edge: Scalar, t: Scalar| #[trigger]
        call_ensures(M::crossing, (math, edge, origin.y, direction.y), t)
            && !direction.y.unsigned().below(least) ==> !t.nan()
    &&& forall|far: Scalar| #[trigger]
        call_ensures(M::sum, (math, x.start, x.extent), far) ==> !far.nan()
    &&& forall|far: Scalar| #[trigger]
        call_ensures(M::sum, (math, y.start, y.extent), far) ==> !far.nan()
    &&& !origin.x.nan() && !origin.y.nan() && !x.start.nan() && !y.start.nan()
}

proof fn lemma_clip<M: RayMath>(
    math: &M,
    span: crate::pick::RaySpan,
    origin: Scalar,
    direction: Scalar,
    lo: Scalar,
    hi: Scalar,
    rest: Option<crate::pick::RaySpan>,
)
    requires
        crate::pick::repeats(math),
        !span.t_min.nan(),
        !span.t_max.nan(),
        span.t_min.scaled() <= span.t_max.scaled(),
        !origin.nan() && !lo.nan() && !hi.nan(),
        forall|edge: Scalar, t: Scalar| #[trigger]
            call_ensures(M::crossing, (math, edge, origin, direction), t)
                && !direction.unsigned().below(Scalar { bits: 0x3089_705F }) ==> !t.nan(),
        crate::pick::clips_to(math, span, origin, direction, lo, hi, rest),
    ensures
        rest matches Some(part) ==> {
            &&& !part.t_min.nan() && !part.t_max.nan()
            &&& span.t_min.scaled() <= part.t_min.scaled() <= part.t_max.scaled()
                <= span.t_max.scaled()
        },
        forall|t: Scalar|
            !t.nan() && span.t_min.scaled() <= t.scaled() <= span.t_max.scaled() ==> (
            #[trigger] passes_over(math, origin, direction, lo, hi, t) <==> rest is Some
                && rest->0.t_min.scaled() <= t.scaled() <= rest->0.t_max.scaled()),
{
}

/// A ray enters the ground where it is over it for the first time from its origin on:
/// where it has an entry, it is over the ground there and not before, and where it has
/// none it never is.
pub proof fn a_ray_enters_where_it_is_first_over_the_ground<M: RayMath>(
    math: &M,
    origin: Vec3,
    direction: Vec3,
    x: GroundAxis,
    y: GroundAxis,
    entry: Option<Scalar>,
    t: Scalar,
)
    requires
        crate::pick::repeats(math),
        crosses_at_numbers(math, origin, direction, x, y),
        crate::pick::enters_at(math, origin, direction, x, y, entry),
        !t.nan(),
        0 <= t.scaled() <= (Scalar { bits: INFINITY }).scaled(),
    ensures
        entry matches Some(e) ==> !e.nan() && 0 <= e.scaled() && is_over_the_ground(
            math,
            origin,
            direction,
            x,
            y,
            e,
        ),
        is_over_the_ground(math, origin, direction, x, y, t) ==> entry is Some
            && entry->0.scaled() <= t.scaled(),
{
    let (far_x, far_y, along_x) = choose|
        far_x: Scalar,
        far_y: Scalar,
        along_x: Option<crate::pick::RaySpan>,
    |
        {
            &&& #[trigger] call_ensures(M::sum, (math, x.start, x.extent), far_x)
            &&& #[trigger] call_ensures(M::sum, (math, y.start, y.extent), far_y)
            &&& #[trigger] crate::pick::clips_to(
                math,
                crate::pick::whole_ray(),
                origin.x,
                direction.x,
                x.start,
                far_x,
                along_x,
            )
            &&& match along_x {
                None => entry is None,
                Some(span) => exists|along_y: Option<crate::pick::RaySpan>|
                    {
                        &&& #[trigger] crate::pick::clips_to(
                            math,
                            span,
                            origin.y,
                            direction.y,
                            y.start,
                            far_y,
                            along_y,
                        )
                        &&& entry == match along_y {
                            None => None,
                            Some(rest) => Some(rest.t_min.larger(Scalar { bits: ZERO })),
                        }
                    },
            }
        };
    assert((Scalar { bits: ZERO }).scaled() == 0);
    let whole = crate::pick::whole_ray();
    assert(!far_x.nan() && !far_y.nan());
    lemma_clip(math, whole, origin.x, direction.x, x.start, far_x, along_x);
    let over_x = passes_over(math, origin.x, direction.x, x.start, far_x, t);
    if let Some(span) = along_x {
        let along_y = choose|along_y: Option<crate::pick::RaySpan>|
            {
                &&& #[trigger] crate::pick::clips_to(
                    math,
                    span,
                    origin.y,
                    direction.y,
                    y.start,
                    far_y,
                    along_y,
                )
                &&& entry == match along_y {
                    None => None,
                    Some(rest) => Some(rest.t_min.larger(Scalar { bits: ZERO })),
                }
            };
        lemma_clip(math, span, origin.y, direction.y, y.start, far_y, along_y);
        let over_y = passes_over(math, origin.y, direction.y, y.start, far_y, t);
        if let Some(e) = entry {
            assert(e == along_y->0.t_min);
            assert(passes_over(math, origin.x, direction.x, x.start, far_x, e));
            assert(passes_over(math, origin.y, direction.y, y.start, far_y, e));
        }
    }
}

/// A ray that runs along an axis, beside the extent of the ground, never enters
/// it.
pub proof fn a_ray_beside_the_ground_misses_it<M: RayMath>(
    math: &M,
    origin: Vec3,
    direction: Vec3,
    x: GroundAxis,
    y: GroundAxis,
    entry: Option<Scalar>,
)
    requires
        crate::pick::enters_at(math, origin, direction, x, y, entry),
        forall|far: Scalar| #[trigger]
            call_ensures(M::sum, (math, x.start, x.extent), far) ==> direction.x.scaled() == 0
                && !direction.x.nan() && (origin.x.below(x.start) || far.below(origin.x)),
    ensures
        entry is None,
{
    lemma_nothing_is_parallel(direction.x);
}

proof fn lemma_nothing_is_parallel(direction: Scalar)
    requires
        direction.scaled() == 0,
        !direction.nan(),
    ensures
        direction.unsigned().below(Scalar { bits: 0x3089_705F }),
{
    let pattern = direction.pattern();
    if pattern > 0 {
        crate::scalar::lemma_magnitude_monotone(0, pattern);
    }
    assert(crate::scalar::magnitude_of(0) == 0);
    crate::scalar::lemma_magnitude_monotone(0, 0x3089_705F);
    assert(direction.unsigned().pattern() == pattern);
    assert(!direction.unsigned().negative());
}

/// The way a ray goes along an axis, one cell at a time.
pub open spec fn heading(direction: Scalar) -> int {
    if !direction.nan() && direction.scaled() > 0 {
        1
    } else {
        -1
    }
}

/// The grid line that bounds a cell on the side where a ray leaves it.
pub open spec fn way_out(way: int, cell: int) -> int {
    if way > 0 {
        cell + 1
    } else {
        cell
    }
}

/// Whether a cell lies beyond a grid line, seen along a ray.
pub open spec fn beyond(way: int, line: int, cell: int) -> bool {
    if way > 0 {
        cell >= line
    } else {
        cell < line
    }
}

/// Whether a cell lies where another one does along an axis or further along.
pub open spec fn onward(way: int, from: int, to: int) -> bool {
    if way > 0 {
        from <= to
    } else {
        to <= from
    }
}

/// Whether a distance along a ray suits a cell: not before the lines that the
/// cell lies beyond are crossed, and not after the others are. `crossed` tells
/// at what distance a line is crossed.
pub open spec fn suits(
    way: int,
    crossed: spec_fn(int, Scalar) -> bool,
    cell: int,
    t: Scalar,
) -> bool {
    forall|line: int, s: Scalar| #[trigger]
        crossed(line, s) ==> !s.nan() && if beyond(way, line, cell) {
            s.scaled() <= t.scaled()
        } else {
            t.scaled() <= s.scaled()
        }
}

/// Whether adding a distance to that of a line gives that of the next one.
pub open spec fn paces<M: RayMath>(
    math: &M,
    way: int,
    crossed: spec_fn(int, Scalar) -> bool,
    pace: Scalar,
) -> bool {
    forall|line: int, s: Scalar, next: Scalar|
        #![trigger crossed(line, s), call_ensures(M::sum, (math, s, pace), next)]
        crossed(line, s) && call_ensures(M::sum, (math, s, pace), next) ==> crossed(
            line + way,
            next,
        )
}

/// Whether a walk over the grid keeps to a ray: it goes the way of the ray, and
/// knows when the ray leaves its cell along either axis.
pub open spec fn keeps_to<M: RayMath>(
    math: &M,
    cast: PickRay,
    crossed_x: spec_fn(int, Scalar) -> bool,
    crossed_y: spec_fn(int, Scalar) -> bool,
    walk: Walk,
    stride: Stride,
) -> bool {
    &&& stride.step_x == heading(cast.direction.x)
    &&& stride.step_y == heading(cast.direction.y)
    &&& crossed_x(way_out(heading(cast.direction.x), walk.cell.x as int), walk.t_max_x)
    &&& crossed_y(way_out(heading(cast.direction.y), walk.cell.y as int), walk.t_max_y)
    &&& paces(math, heading(cast.direction.x), crossed_x, stride.t_delta_x)
    &&& paces(math, heading(cast.direction.y), crossed_y, stride.t_delta_y)
}

/// Whether every place where a ray meets a cell suits the cell.
pub open spec fn lies_where_it_is_met(
    cast: PickRay,
    at: spec_fn(GroundAxis, int, Scalar) -> bool,
    met: spec_fn(Vec3, Vec3, Vec3, Scalar) -> bool,
    cpu: &CpuHeightmap,
    crossed_x: spec_fn(int, Scalar) -> bool,
    crossed_y: spec_fn(int, Scalar) -> bool,
) -> bool {
    forall|x: int, y: int, c: CellCorners, t: Scalar|
        #![trigger spans_cell(at, cpu, x, y, c), meets_cell(met, c, t)]
        spans_cell(at, cpu, x, y, c) && meets_cell(met, c, t) ==> suits(
            heading(cast.direction.x),
            crossed_x,
            x,
            t,
        ) && suits(heading(cast.direction.y), crossed_y, y, t)
}

/// How many cells lie between two cells, counted along the axes.
pub open spec fn cells_between(a: Cell, b: Cell) -> int {
    (if a.x <= b.x {
        b.x - a.x
    } else {
        a.x - b.x
    }) + (if a.y <= b.y {
        b.y - a.y
    } else {
        a.y - b.y
    })
}

/// A walk that keeps to a ray misses nothing ahead of it: where the ray meets a
/// cell of the grid, other than exactly where grid lines of both axes cross, the
/// walk finds a hit, and none further away.
pub proof fn a_walk_finds_the_nearest_hit<M: RayMath>(
    math: &M,
    cast: PickRay,
    at: spec_fn(GroundAxis, int, Scalar) -> bool,
    met: spec_fn(Vec3, Vec3, Vec3, Scalar) -> bool,
    cpu: &CpuHeightmap,
    crossed_x: spec_fn(int, Scalar) -> bool,
    crossed_y: spec_fn(int, Scalar) -> bool,
    stride: Stride,
    walk: Walk,
    steps: nat,
    found: Option<CellHit>,
    target: Cell,
    t: Scalar,
)
    requires
        lines_lie(math, at),
        meets(math, cast, met),
        lies_where_it_is_met(cast, at, met, cpu, crossed_x, crossed_y),
        keeps_to(math, cast, crossed_x, crossed_y, walk, stride),
        crate::pick::walks_to(math, cast, cpu, stride, walk, steps, found),
        steps > cells_between(walk.cell, target),
        -1 <= walk.cell.x <= cpu.x.samples - 1,
        -1 <= walk.cell.y <= cpu.y.samples - 1,
        0 <= target.x < cpu.x.samples - 1,
        0 <= target.y < cpu.y.samples - 1,
        onward(heading(cast.direction.x), walk.cell.x as int, target.x as int),
        onward(heading(cast.direction.y), walk.cell.y as int, target.y as int),
        !t.nan(),
        suits(heading(cast.direction.x), crossed_x, target.x as int, t),
        suits(heading(cast.direction.y), crossed_y, target.y as int, t),
        forall|c: CellCorners| #[trigger]
            spans_cell(at, cpu, target.x as int, target.y as int, c) ==> meets_cell(met, c, t),
        forall|i: int, a: Scalar, j: int, b: Scalar| #[trigger]
            crossed_x(i, a) && #[trigger] crossed_y(j, b) ==> a.scaled() != t.scaled()
                || b.scaled() != t.scaled(),
    ensures
        found is Some,
        found->0.t.scaled() <= t.scaled(),
    decreases steps,
{
    reveal_with_fuel(crate::pick::walks_to, 1);
    let way_x = heading(cast.direction.x);
    let way_y = heading(cast.direction.y);
    let cell = walk.cell;
    let on_grid = cpu.has_cell(cell.x as int, cell.y as int);
    let out_x = way_out(way_x, cell.x as int);
    let out_y = way_out(way_y, cell.y as int);
    assert(crossed_x(out_x, walk.t_max_x) && crossed_y(out_y, walk.t_max_y));
    if on_grid && found is Some && found->0.cell == cell && crate::pick::hits_cell(
        math,
        cast,
        cpu,
        cell,
        Some(found->0.t),
    ) {
        let own = found->0.t;
        let c = a_cell_is_hit_where_it_is_met(math, cast, at, met, cpu, cell, Some(own));
        assert(meets_cell(met, c, own));
        if cell == target {
            assert(meets_cell(met, c, t));
        } else {
            assert(suits(way_x, crossed_x, cell.x as int, own));
            assert(suits(way_y, crossed_y, cell.y as int, own));
            if cell.x != target.x {
                assert(beyond(way_x, out_x, target.x as int));
                assert(!beyond(way_x, out_x, cell.x as int));
            } else {
                assert(beyond(way_y, out_y, target.y as int));
                assert(!beyond(way_y, out_y, cell.y as int));
            }
        }
    } else {
        if cell == target {
            let c = a_cell_is_hit_where_it_is_met(math, cast, at, met, cpu, cell, None);
            assert(meets_cell(met, c, t));
            assert(false);
        }
        let next_t = choose|next: Scalar|
            {
                &&& #[trigger] call_ensures(
                    M::sum,
                    (math, walk.crossing(stride).0, walk.crossing(stride).1),
                    next,
                )
                &&& if walk.leaves(cpu, stride) {
                    found is None
                } else {
                    crate::pick::walks_to(
                        math,
                        cast,
                        cpu,
                        stride,
                        walk.advanced(stride, next),
                        (steps - 1) as nat,
                        found,
                    )
                }
            };
        if cell.x == target.x {
            assert(!beyond(way_x, out_x, target.x as int));
            assert(beyond(way_y, out_y, target.y as int));
        }
        if cell.y == target.y {
            assert(!beyond(way_y, out_y, target.y as int));
            assert(beyond(way_x, out_x, target.x as int));
        }
        let next = walk.advanced(stride, next_t);
        if walk.turns_x() {
            assert(cell.x != target.x);
            assert(next.cell.x == cell.x + way_x);
            assert(crossed_x(out_x + way_x, next_t));
            assert(way_out(way_x, next.cell.x as int) == out_x + way_x);
        } else {
            assert(cell.y != target.y);
            assert(next.cell.y == cell.y + way_y);
            assert(crossed_y(out_y + way_y, next_t));
            assert(way_out(way_y, next.cell.y as int) == out_y + way_y);
        }
        a_walk_finds_the_nearest_hit(
            math,
            cast,
            at,
            met,
            cpu,
            crossed_x,
            crossed_y,
            stride,
            next,
            (steps - 1) as nat,
            found,
            target,
            t,
        );
    }
}

/// Whether `crossed` tells at what distances a ray crosses the grid lines of an
/// axis. A ray along the lines leaves the cell that it starts in at no distance.
pub open spec fn crosses_lines<M: RayMath>(
    math: &M,
    axis: GroundAxis,
    origin: Scalar,
    direction: Scalar,
    crossed: spec_fn(int, Scalar) -> bool,
    start: int,
) -> bool {
    let way = heading(direction);
    let never = Scalar { bits: INFINITY };
    if direction.unsigned().below(Scalar { bits: 0x3089_705F }) {
        crossed(way_out(way, start), never) && paces(math, way, crossed, never)
    } else {
        &&& forall|line: i32, s: Scalar| #[trigger]
            call_ensures(M::line_crossing, (math, axis, line, origin, direction), s) ==> crossed(
                line as int,
                s,
            )
        &&& forall|pace: Scalar| #[trigger]
            call_ensures(M::line_spacing, (math, axis, direction), pace) ==> paces(
                math,
                way,
                crossed,
                pace,
            )
    }
}

/// Whether a ray that enters the ground at or before the distance `t` starts, along
/// an axis, on the grid or next to it and not beyond a cell, and crosses the grid
/// lines from there as `crossed` tells.
pub open spec fn starts_before<M: RayMath>(
    math: &M,
    axis: GroundAxis,
    origin: Scalar,
    direction: Scalar,
    crossed: spec_fn(int, Scalar) -> bool,
    cell: int,
    position: Scalar,
) -> bool {
    forall|cells: Scalar| #[trigger]
        call_ensures(M::in_cells, (math, axis, position), cells) ==> {
            &&& -1 <= cells.floored() <= axis.samples - 1
            &&& onward(heading(direction), cells.floored(), cell)
            &&& crosses_lines(math, axis, origin, direction, crossed, cells.floored())
        }
}

/// A pick is the nearest hit: where the ray meets a cell of the grid, other than
/// exactly where grid lines of both axes cross, the pick hits the terrain there or
/// nearer. `t` is the distance to where the ray meets the cell `target`.
pub proof fn a_pick_finds_the_nearest_hit<M: RayMath>(
    math: &M,
    ray: PickRay,
    direction: Vec3,
    at: spec_fn(GroundAxis, int, Scalar) -> bool,
    met: spec_fn(Vec3, Vec3, Vec3, Scalar) -> bool,
    cpu: &CpuHeightmap,
    crossed_x: spec_fn(int, Scalar) -> bool,
    crossed_y: spec_fn(int, Scalar) -> bool,
    pick_id: u64,
    hit: Option<HeightmapHit>,
    target: Cell,
    t: Scalar,
)
    requires
        crate::pick::picks(math, ray, cpu, pick_id, hit),
        pick_id != 0,
        forall|unit: Vec3| #[trigger]
            call_ensures(M::unit, (math, ray.direction), unit) ==> unit == direction,
        lines_lie(math, at),
        meets(math, (PickRay { origin: ray.origin, direction }), met),
        lies_where_it_is_met(
            (PickRay { origin: ray.origin, direction }),
            at,
            met,
            cpu,
            crossed_x,
            crossed_y,
        ),
        !t.nan(),
        0 <= t.scaled() <= (Scalar { bits: INFINITY }).scaled(),
        0 <= target.x < cpu.x.samples - 1,
        0 <= target.y < cpu.y.samples - 1,
        target.x < i32::MAX,
        target.y < i32::MAX,
        suits(heading(direction.x), crossed_x, target.x as int, t),
        suits(heading(direction.y), crossed_y, target.y as int, t),
        forall|c: CellCorners| #[trigger]
            spans_cell(at, cpu, target.x as int, target.y as int, c) ==> meets_cell(met, c, t),
        forall|i: int, a: Scalar, j: int, b: Scalar| #[trigger]
            crossed_x(i, a) && #[trigger] crossed_y(j, b) ==> a.scaled() != t.scaled()
                || b.scaled() != t.scaled(),
        crate::pick::repeats(math),
        crosses_at_numbers(math, ray.origin, direction, cpu.x, cpu.y),
        is_over_the_ground(math, ray.origin, direction, cpu.x, cpu.y, t),
        forall|entry: Scalar, place: Vec3| #[trigger]
            call_ensures(M::point, (math, ray.origin, direction, entry), place) && 0
                <= entry.scaled() <= t.scaled() && is_over_the_ground(
                math,
                ray.origin,
                direction,
                cpu.x,
                cpu.y,
                entry,
            ) ==> {
                &&& starts_before(
                    math,
                    cpu.x,
                    ray.origin.x,
                    direction.x,
                    crossed_x,
                    target.x as int,
                    place.x,
                )
                &&& starts_before(
                    math,
                    cpu.y,
                    ray.origin.y,
                    direction.y,
                    crossed_y,
                    target.y as int,
                    place.y,
                )
            },
    ensures
        hit is Some,
        hit->0.t.scaled() <= t.scaled(),
        hit->0.id == pick_id,
{
    let cast = PickRay { origin: ray.origin, direction };
    let (unit, entry) = choose|unit: Vec3, entry: Option<Scalar>|
        {
            &&& #[trigger] call_ensures(M::unit, (math, ray.direction), unit)
            &&& #[trigger] crate::pick::enters_at(
                math,
                ray.origin,
                unit,
                cpu.x,
                cpu.y,
                entry,
            )
            &&& match entry {
                None => hit is None,
                Some(t_entry) => crate::pick::picks_from(
                    math,
                    (PickRay { origin: ray.origin, direction: unit }),
                    cpu,
                    pick_id,
                    t_entry,
                    hit,
                ),
            }
        };
    a_ray_enters_where_it_is_first_over_the_ground(
        math,
        ray.origin,
        direction,
        cpu.x,
        cpu.y,
        entry,
        t,
    );
    let (walk, stride, found) = choose|walk: Walk, stride: Stride, found: Option<CellHit>|
        {
            &&& #[trigger] crate::pick::sets_out(math, cast, cpu, entry->0, walk, stride)
            &&& #[trigger] crate::pick::walks_to(
                math,
                cast,
                cpu,
                stride,
                walk,
                crate::pick::walk_budget(cpu),
                found,
            )
            &&& match found {
                None => hit is None,
                Some(near) => {
                    &&& hit matches Some(h)
                    &&& h.t == near.t
                    &&& h.id == pick_id
                },
            }
        };
    lemma_sets_out_on_the_ray(
        math,
        cast,
        cpu,
        crossed_x,
        crossed_y,
        entry->0,
        walk,
        stride,
        target,
    );
    a_walk_finds_the_nearest_hit(
        math,
        cast,
        at,
        met,
        cpu,
        crossed_x,
        crossed_y,
        stride,
        walk,
        crate::pick::walk_budget(cpu),
        found,
        target,
        t,
    );
}

proof fn lemma_sets_out_on_the_ray<M: RayMath>(
    math: &M,
    cast: PickRay,
    cpu: &CpuHeightmap,
    crossed_x: spec_fn(int, Scalar) -> bool,
    crossed_y: spec_fn(int, Scalar) -> bool,
    entry: Scalar,
    walk: Walk,
    stride: Stride,
    target: Cell,
)
    requires
        crate::pick::sets_out(math, cast, cpu, entry, walk, stride),
        cpu.x.samples >= 2,
        cpu.y.samples >= 2,
        target.x < i32::MAX,
        target.y < i32::MAX,
        forall|place: Vec3| #[trigger]
            call_ensures(M::point, (math, cast.origin, cast.direction, entry), place) ==> {
                &&& starts_before(
                    math,
                    cpu.x,
                    cast.origin.x,
                    cast.direction.x,
                    crossed_x,
                    target.x as int,
                    place.x,
                )
                &&& starts_before(
                    math,
                    cpu.y,
                    cast.origin.y,
                    cast.direction.y,
                    crossed_y,
                    target.y as int,
                    place.y,
                )
            },
    ensures
        keeps_to(math, cast, crossed_x, crossed_y, walk, stride),
        -1 <= walk.cell.x <= cpu.x.samples - 1,
        -1 <= walk.cell.y <= cpu.y.samples - 1,
        onward(heading(cast.direction.x), walk.cell.x as int, target.x as int),
        onward(heading(cast.direction.y), walk.cell.y as int, target.y as int),
{
    assert((Scalar { bits: ZERO }).scaled() == 0);
    let (place, x, y) = choose|place: Vec3, x: Scalar, y: Scalar|
        {
            &&& #[trigger] call_ensures(
                M::point,
                (math, cast.origin, cast.direction, entry),
                place,
            )
            &&& #[trigger] call_ensures(M::in_cells, (math, cpu.x, place.x), x)
            &&& #[trigger] call_ensures(M::in_cells, (math, cpu.y, place.y), y)
            &&& walk.cell.x == x.floored()
            &&& walk.cell.y == y.floored()
            &&& stride.step_x == crate::pick::step_along(cast.direction.x)
            &&& stride.step_y == crate::pick::step_along(cast.direction.y)
            &&& crate::pick::strides(
                math,
                cpu.x,
                walk.cell.x,
                cast.origin.x,
                cast.direction.x,
                walk.t_max_x,
                stride.t_delta_x,
            )
            &&& crate::pick::strides(
                math,
                cpu.y,
                walk.cell.y,
                cast.origin.y,
                cast.direction.y,
                walk.t_max_y,
                stride.t_delta_y,
            )
        };
    assert(starts_before(
        math,
        cpu.x,
        cast.origin.x,
        cast.direction.x,
        crossed_x,
        target.x as int,
        place.x,
    ));
    assert(crosses_lines(
        math,
        cpu.x,
        cast.origin.x,
        cast.direction.x,
        crossed_x,
        x.floored(),
    ));
    assert(crosses_lines(
        math,
        cpu.y,
        cast.origin.y,
        cast.direction.y,
        crossed_y,
        y.floored(),
    ));
}

/// A picked point lies on the surface: on one of the two triangles of a cell of
/// the grid, between the four samples around it, the nearest of what the ray meets
/// of that cell. The normal is that of the first triangle, and the position the
/// point at that distance along the ray.
pub proof fn a_pick_lies_on_the_surface<M: RayMath>(
    math: &M,
    ray: PickRay,
    direction: Vec3,
    at: spec_fn(GroundAxis, int, Scalar) -> bool,
    met: spec_fn(Vec3, Vec3, Vec3, Scalar) -> bool,
    facing: spec_fn(Vec3, Vec3, Vec3, Vec3) -> bool,
    reached: spec_fn(Scalar, Vec3) -> bool,
    cpu: &CpuHeightmap,
    pick_id: u64,
    hit: HeightmapHit,
) -> (found: (Cell, CellCorners, CellCorners))
    requires
        crate::pick::picks(math, ray, cpu, pick_id, Some(hit)),
        forall|unit: Vec3| #[trigger]
            call_ensures(M::unit, (math, ray.direction), unit) ==> unit == direction,
        lines_lie(math, at),
        meets(math, (PickRay { origin: ray.origin, direction }), met),
        forall|a: Vec3, b: Vec3, c: Vec3, n: Vec3| #[trigger]
            call_ensures(M::face_normal, (math, a, b, c), n) ==> facing(a, b, c, n),
        forall|t: Scalar, place: Vec3| #[trigger]
            call_ensures(M::point, (math, ray.origin, direction, t), place) ==> reached(t, place),
    ensures
        pick_id != 0,
        hit.id == pick_id,
        0 <= found.0.x < cpu.x.samples - 1,
        0 <= found.0.y < cpu.y.samples - 1,
        spans_cell(at, cpu, found.0.x as int, found.0.y as int, found.1),
        meets_cell(met, found.1, hit.t),
        forall|t: Scalar| #[trigger]
            meets_cell(met, found.1, t) ==> hit.t.scaled() <= t.scaled(),
        spans_cell(at, cpu, found.0.x as int, found.0.y as int, found.2),
        facing(found.2.c00, found.2.c10, found.2.c11, hit.normal),
        reached(hit.t, hit.world_pos),
{
    let (unit, entry) = choose|unit: Vec3, entry: Option<Scalar>|
        {
            &&& #[trigger] call_ensures(M::unit, (math, ray.direction), unit)
            &&& #[trigger] crate::pick::enters_at(
                math,
                ray.origin,
                unit,
                cpu.x,
                cpu.y,
                entry,
            )
            &&& entry is Some
            &&& crate::pick::picks_from(
                math,
                (PickRay { origin: ray.origin, direction: unit }),
                cpu,
                pick_id,
                entry->0,
                Some(hit),
            )
        };
    let cast = PickRay { origin: ray.origin, direction };
    let (walk, stride, found) = choose|walk: Walk, stride: Stride, found: Option<CellHit>|
        {
            &&& #[trigger] crate::pick::sets_out(math, cast, cpu, entry->0, walk, stride)
            &&& #[trigger] crate::pick::walks_to(
                math,
                cast,
                cpu,
                stride,
                walk,
                crate::pick::walk_budget(cpu),
                found,
            )
            &&& found matches Some(near) && {
                &&& hit.t == near.t
                &&& hit.id == pick_id
                &&& crate::pick::faces(math, cpu, near.cell, hit.normal)
                &&& call_ensures(
                    M::point,
                    (math, cast.origin, cast.direction, near.t),
                    hit.world_pos,
                )
            }
        };
    let cell = found->0.cell;
    crate::pick::found_cell_is_on_the_grid(
        math,
        cast,
        cpu,
        stride,
        walk,
        crate::pick::walk_budget(cpu),
        found->0,
    );
    let c = a_cell_is_hit_where_it_is_met(math, cast, at, met, cpu, cell, Some(hit.t));
    let own = choose|own: CellCorners|
        {
            &&& #[trigger] crate::pick::are_corners(math, cpu, cell, own)
            &&& call_ensures(M::face_normal, (math, own.c00, own.c10, own.c11), hit.normal)
        };
    corners_lie_on_the_lines_of_their_cell(math, at, cpu, cell, own);
    (cell, c, own)
}

/// A ray straight down onto any point of a heightmap hits it: where the cell
/// below the origin of the ray has a triangle that the ray meets, the pick is on
/// that cell, wherever in the cell the point is.
pub proof fn straight_down_hits_the_ground_below<M: RayMath>(
    math: &M,
    ray: PickRay,
    direction: Vec3,
    at: spec_fn(GroundAxis, int, Scalar) -> bool,
    met: spec_fn(Vec3, Vec3, Vec3, Scalar) -> bool,
    cpu: &CpuHeightmap,
    pick_id: u64,
    hit: Option<HeightmapHit>,
    below: Cell,
    t: Scalar,
)
    requires
        crate::pick::picks(math, ray, cpu, pick_id, hit),
        pick_id != 0,
        forall|unit: Vec3| #[trigger]
            call_ensures(M::unit, (math, ray.direction), unit) ==> unit == direction,
        !direction.x.nan() && direction.x.scaled() == 0,
        !direction.y.nan() && direction.y.scaled() == 0,
        lines_lie(math, at),
        meets(math, (PickRay { origin: ray.origin, direction }), met),
        0 <= below.x < cpu.x.samples - 1,
        0 <= below.y < cpu.y.samples - 1,
        forall|far: Scalar| #[trigger]
            call_ensures(M::sum, (math, cpu.x.start, cpu.x.extent), far) ==> !ray.origin.x.below(
                cpu.x.start,
            ) && !far.below(ray.origin.x),
        forall|far: Scalar| #[trigger]
            call_ensures(M::sum, (math, cpu.y.start, cpu.y.extent), far) ==> !ray.origin.y.below(
                cpu.y.start,
            ) && !far.below(ray.origin.y),
        forall|place: Vec3, x: Scalar, y: Scalar| #[trigger]
            call_ensures(
                M::point,
                (math, ray.origin, direction, Scalar { bits: ZERO }),
                place,
            ) && #[trigger] call_ensures(M::in_cells, (math, cpu.x, place.x), x)
                && #[trigger] call_ensures(M::in_cells, (math, cpu.y, place.y), y) ==> {
                &&& x.floored() == below.x
                &&& y.floored() == below.y
            },
        forall|c: CellCorners| #[trigger]
            spans_cell(at, cpu, below.x as int, below.y as int, c) ==> meets_cell(met, c, t),
    ensures
        hit is Some,
        hit->0.id == pick_id,
        hit->0.t.scaled() <= t.scaled(),
{
    let zero = Scalar { bits: ZERO };
    let (unit, entry) = choose|unit: Vec3, entry: Option<Scalar>|
        {
            &&& #[trigger] call_ensures(M::unit, (math, ray.direction), unit)
            &&& #[trigger] crate::pick::enters_at(
                math,
                ray.origin,
                unit,
                cpu.x,
                cpu.y,
                entry,
            )
            &&& match entry {
                None => hit is None,
                Some(t_entry) => crate::pick::picks_from(
                    math,
                    (PickRay { origin: ray.origin, direction: unit }),
                    cpu,
                    pick_id,
                    t_entry,
                    hit,
                ),
            }
        };
    lemma_nothing_is_parallel(direction.x);
    lemma_nothing_is_parallel(direction.y);
    assert(entry == Some(zero));
    let cast = PickRay { origin: ray.origin, direction };
    let (walk, stride, found) = choose|walk: Walk, stride: Stride, found: Option<CellHit>|
        {
            &&& #[trigger] crate::pick::sets_out(math, cast, cpu, zero, walk, stride)
            &&& #[trigger] crate::pick::walks_to(
                math,
                cast,
                cpu,
                stride,
                walk,
                crate::pick::walk_budget(cpu),
                found,
            )
            &&& match found {
                None => hit is None,
                Some(near) => {
                    &&& hit matches Some(h)
                    &&& h.t == near.t
                    &&& h.id == pick_id
                },
            }
        };
    reveal_with_fuel(crate::pick::walks_to, 1);
    assert(walk.cell == below);
    if crate::pick::hits_cell(math, cast, cpu, below, None) {
        let c = a_cell_is_hit_where_it_is_met(math, cast, at, met, cpu, below, None);
        assert(meets_cell(met, c, t));
        assert(false);
    }
    let c = a_cell_is_hit_where_it_is_met(math, cast, at, met, cpu, below, Some(hit->0.t));
    assert(meets_cell(met, c, t));
}

/// Of several terrains the nearest one is picked: no terrain has a hit nearer than
/// the one that is given, which is a hit on the terrain that it names, and where any
/// terrain has a hit there is one.
pub proof fn the_nearest_terrain_is_picked<M: RayMath>(
    math: &M,
    ray: PickRay,
    baked: Map<u64, crate::plugin::BakedTerrain>,
    hit: Option<HeightmapHit>,
    key: u64,
    own: HeightmapHit,
)
    requires
        crate::pick::repeats(math),
        crate::plugin::picks_nearest(math, ray, baked, hit),
    ensures
        hit matches Some(best) ==> baked.contains_key(best.id) && crate::pick::picks(
            math,
            ray,
            &baked[best.id].cpu,
            best.id,
            hit,
        ),
        baked.contains_key(key) && crate::pick::picks(
            math,
            ray,
            &baked[key].cpu,
            key,
            Some(own),
        ) ==> hit is Some && hit->0.t.scaled() <= own.t.scaled(),
{
    let (keys, hits) = choose|keys: Seq<u64>, hits: Seq<Option<HeightmapHit>>|
        {
            &&& keys.to_set() == baked.dom()
            &&& #[trigger] crate::plugin::picks_each(math, ray, baked, keys, hits)
            &&& crate::plugin::nearest_of(hits, hit)
        };
    if hit is Some {
        let i = choose|i: int| 0 <= i < hits.len() && #[trigger] hits[i] == hit;
        assert(crate::pick::picks(math, ray, &baked[keys[i]].cpu, keys[i], hits[i]));
        crate::pick::picked_hit_is_in_front(
            math,
            ray,
            &baked[keys[i]].cpu,
            keys[i],
            hit->0,
        );
        assert(keys.to_set().contains(keys[i]));
    }
    if baked.contains_key(key) && crate::pick::picks(
        math,
        ray,
        &baked[key].cpu,
        key,
        Some(own),
    ) {
        assert(keys.to_set().contains(key));
        let i = choose|i: int| 0 <= i < keys.len() && keys[i] == key;
        assert(crate::pick::picks(math, ray, &baked[keys[i]].cpu, keys[i], hits[i]));
        crate::pick::picking_repeats(math, ray, &baked[key].cpu, key, hits[i], Some(own));
        crate::pick::picked_hit_is_in_front(math, ray, &baked[key].cpu, key, own);
    }
}

} // verus!
