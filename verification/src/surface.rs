//! What the meshes of a terrain mean on the ground: where their vertices lie,
//! how they are textured and lit, which cells their triangles cover and what their
//! boxes hold.
//!
//! The laws speak of what the formulas stand for through relations that the
//! formulas respect. A relation may leave room for rounding.
use crate::item::{GridFrame, TerrainItem};
use crate::mesh::{Cell, MeshMath, PatchMesh, VertexSite};
use crate::scalar::{Scalar, Vec2, Vec3, ZERO};
use vstd::arithmetic::div_mod::*;
use vstd::arithmetic::power2::*;
use vstd::prelude::*;

verus! {

/// Heightmap cells from one vertex to the next at a level of detail: twice as many
/// per level, up to the ninth level.
pub open spec fn spread(lod: u32) -> nat {
    pow2(
        if lod <= 8 {
            lod as nat
        } else {
            8
        },
    )
}

/// Mesh cells along a side of a patch: those that fit in it, at least one.
pub open spec fn side(patch_cells: u32, lod: u32) -> int {
    if patch_cells >= spread(lod) {
        patch_cells as int / spread(lod) as int
    } else {
        1
    }
}

/// The column of the heightmap on which the `g`-th column of vertices of a patch
/// stands, `start` being the first one: the last one stands on the far edge of the
/// patch, and none beyond the last of `count` columns.
pub open spec fn column_of(start: u32, patch_cells: u32, lod: u32, g: int, count: u32) -> int {
    let reach = if g == side(patch_cells, lod) {
        start + patch_cells
    } else {
        start + g * spread(lod)
    };
    if reach < count {
        reach
    } else {
        count - 1
    }
}

/// Whether the formulas place vertices as the relations tell: the position along
/// either axis by the column or row alone, the height by the sample alone, and each
/// texture coordinate by the position along its own axis alone.
pub open spec fn places<M: MeshMath>(
    math: &M,
    frame: GridFrame,
    along_x: spec_fn(int, Scalar) -> bool,
    along_y: spec_fn(int, Scalar) -> bool,
    high: spec_fn(u16, Scalar) -> bool,
    over_x: spec_fn(Scalar, Scalar) -> bool,
    over_y: spec_fn(Scalar, Scalar) -> bool,
) -> bool {
    &&& forall|cell: Cell, p: Vec2| #[trigger]
        call_ensures(M::corner, (math, frame, cell), p) ==> along_x(cell.x as int, p.x) && along_y(
            cell.y as int,
            p.y,
        )
    &&& forall|sample: u16, z: Scalar| #[trigger]
        call_ensures(M::elevation, (math, frame, sample), z) ==> high(sample, z)
    &&& forall|p: Vec2, t: Vec2| #[trigger]
        call_ensures(M::texture, (math, frame, p), t) ==> over_x(p.x, t.x) && over_y(p.y, t.y)
}

proof fn lemma_same_grid(patch_cells: u32, lod: u32)
    ensures
        crate::mesh::lod_step(lod) == spread(lod),
        crate::mesh::cells_per_side(patch_cells, lod) == side(patch_cells, lod),
        spread(lod) >= 1,
        side(patch_cells, lod) >= 1,
{
    lemma_pow2_pos(
        if lod <= 8 {
            lod as nat
        } else {
            8
        },
    );
    let step = spread(lod) as int;
    if patch_cells >= step {
        lemma_div_non_zero(patch_cells as int, step);
    } else {
        lemma_basic_div(patch_cells as int, step);
    }
}

proof fn lemma_vertex_place(cells: int, gx: int, gy: int)
    requires
        0 <= gx <= cells,
        0 <= gy <= cells,
    ensures
        (gy * (cells + 1) + gx) % (cells + 1) == gx,
        (gy * (cells + 1) + gx) / (cells + 1) == gy,
        0 <= gy * (cells + 1) + gx < (cells + 1) * (cells + 1),
{
    lemma_fundamental_div_mod_converse(gy * (cells + 1) + gx, cells + 1, gy, gx);
    assert(0 <= gy * (cells + 1) + gx < (cells + 1) * (cells + 1)) by (nonlinear_arith)
        requires
            0 <= gx <= cells,
            0 <= gy <= cells,
    ;
}

/// A vertex stands on its own sample: in column `gx` and row `gy` of a patch, it
/// has the position of the column and the row of the heightmap there, the height of
/// the sample there, and texture coordinates above that position, the first along X
/// and the second along Y.
pub proof fn vertices_stand_on_their_samples<M: MeshMath>(
    math: &M,
    item: &TerrainItem,
    along_x: spec_fn(int, Scalar) -> bool,
    along_y: spec_fn(int, Scalar) -> bool,
    high: spec_fn(u16, Scalar) -> bool,
    over_x: spec_fn(Scalar, Scalar) -> bool,
    over_y: spec_fn(Scalar, Scalar) -> bool,
    patch_origin_cells: [u32; 2],
    patch_cells: u32,
    lod: u32,
    skirt_depth: Scalar,
    mesh: PatchMesh,
    gx: int,
    gy: int,
)
    requires
        places(math, item.placement(), along_x, along_y, high, over_x, over_y),
        1 <= item.dims@[0] <= i32::MAX,
        1 <= item.dims@[1] <= i32::MAX,
        crate::mesh::is_patch_mesh(
            math,
            item,
            patch_origin_cells,
            patch_cells,
            lod,
            skirt_depth,
            mesh,
        ),
        0 <= gx <= side(patch_cells, lod),
        0 <= gy <= side(patch_cells, lod),
    ensures
        0 <= gy * (side(patch_cells, lod) + 1) + gx < mesh.vertices@.len(),
        ({
            let vertex = mesh.vertices@[gy * (side(patch_cells, lod) + 1) + gx];
            let x = column_of(patch_origin_cells@[0], patch_cells, lod, gx, item.dims@[0]);
            let y = column_of(patch_origin_cells@[1], patch_cells, lod, gy, item.dims@[1]);
            &&& along_x(x, vertex.position@[0])
            &&& along_y(y, vertex.position@[1])
            &&& high(item.samples()[y * item.dims@[0] + x], vertex.position@[2])
            &&& over_x(vertex.position@[0], vertex.uv@[0])
            &&& over_y(vertex.position@[1], vertex.uv@[1])
        }),
{
    lemma_same_grid(patch_cells, lod);
    let cells = side(patch_cells, lod);
    lemma_vertex_place(cells, gx, gy);
    let k = gy * (cells + 1) + gx;
    let vertex = mesh.vertices@[k];
    lemma_reach(patch_origin_cells@[0], patch_cells, lod, gx, item.dims@[0]);
    lemma_reach(patch_origin_cells@[1], patch_cells, lod, gy, item.dims@[1]);
    let site = crate::mesh::site_of(item, patch_origin_cells, patch_cells, lod, gx, gy);
    assert(crate::mesh::is_vertex(math, item.placement(), site, vertex));
    let ground = Vec2 { x: vertex.position@[0], y: vertex.position@[1] };
    assert(call_ensures(M::corner, (math, item.placement(), site.cell), ground));
    let image = Vec2 { x: vertex.uv@[0], y: vertex.uv@[1] };
    assert(call_ensures(M::texture, (math, item.placement(), ground), image));
}

proof fn lemma_reach(start: u32, patch_cells: u32, lod: u32, g: int, count: u32)
    requires
        1 <= count <= i32::MAX,
        0 <= g,
    ensures
        crate::mesh::clamped(
            start + crate::mesh::grid_offset(patch_cells, lod, g),
            count,
        ) == column_of(start, patch_cells, lod, g, count),
        0 <= column_of(start, patch_cells, lod, g, count) < count,
{
    lemma_same_grid(patch_cells, lod);
    let step = spread(lod) as int;
    assert(0 <= g * step) by (nonlinear_arith)
        requires
            0 <= g,
            step >= 1,
    ;
}

/// Along a row of vertices only the first coordinates change, along a column only
/// the second ones: vertices in the same column share their position along X and
/// their first texture coordinate, vertices in the same row share their position
/// along Y and their second one.
pub proof fn rows_and_columns_share_their_coordinates<M: MeshMath>(
    math: &M,
    item: &TerrainItem,
    patch_origin_cells: [u32; 2],
    patch_cells: u32,
    lod: u32,
    skirt_depth: Scalar,
    mesh: PatchMesh,
    gx: int,
    gy: int,
    hx: int,
    hy: int,
)
    requires
        forall|a: Cell, b: Cell, p: Vec2, q: Vec2| #[trigger]
            call_ensures(M::corner, (math, item.placement(), a), p) && #[trigger] call_ensures(
                M::corner,
                (math, item.placement(), b),
                q,
            ) ==> (a.x == b.x ==> p.x == q.x) && (a.y == b.y ==> p.y == q.y),
        forall|p: Vec2, q: Vec2, s: Vec2, t: Vec2| #[trigger]
            call_ensures(M::texture, (math, item.placement(), p), s) && #[trigger] call_ensures(
                M::texture,
                (math, item.placement(), q),
                t,
            ) ==> (p.x == q.x ==> s.x == t.x) && (p.y == q.y ==> s.y == t.y),
        crate::mesh::is_patch_mesh(
            math,
            item,
            patch_origin_cells,
            patch_cells,
            lod,
            skirt_depth,
            mesh,
        ),
        0 <= gx <= side(patch_cells, lod),
        0 <= gy <= side(patch_cells, lod),
        0 <= hx <= side(patch_cells, lod),
        0 <= hy <= side(patch_cells, lod),
    ensures
        ({
            let a = mesh.vertices@[gy * (side(patch_cells, lod) + 1) + gx];
            let b = mesh.vertices@[hy * (side(patch_cells, lod) + 1) + hx];
            &&& gx == hx ==> a.position@[0] == b.position@[0] && a.uv@[0] == b.uv@[0]
            &&& gy == hy ==> a.position@[1] == b.position@[1] && a.uv@[1] == b.uv@[1]
        }),
{
    lemma_same_grid(patch_cells, lod);
    let cells = side(patch_cells, lod);
    lemma_vertex_place(cells, gx, gy);
    lemma_vertex_place(cells, hx, hy);
    let a = mesh.vertices@[gy * (cells + 1) + gx];
    let b = mesh.vertices@[hy * (cells + 1) + hx];
    let site_a = crate::mesh::site_of(item, patch_origin_cells, patch_cells, lod, gx, gy);
    let site_b = crate::mesh::site_of(item, patch_origin_cells, patch_cells, lod, hx, hy);
    let frame = item.placement();
    assert(crate::mesh::is_vertex(math, frame, site_a, a));
    assert(crate::mesh::is_vertex(math, frame, site_b, b));
    let ground_a = Vec2 { x: a.position@[0], y: a.position@[1] };
    let ground_b = Vec2 { x: b.position@[0], y: b.position@[1] };
    assert(call_ensures(M::corner, (math, frame, site_a.cell), ground_a));
    assert(call_ensures(M::corner, (math, frame, site_b.cell), ground_b));
    let image_a = Vec2 { x: a.uv@[0], y: a.uv@[1] };
    let image_b = Vec2 { x: b.uv@[0], y: b.uv@[1] };
    assert(call_ensures(M::texture, (math, frame, ground_a), image_a));
    assert(call_ensures(M::texture, (math, frame, ground_b), image_b));
}

/// Whether positions and texture coordinates grow with the columns and rows of the
/// heightmap, or at least do not shrink.
pub open spec fn grows<M: MeshMath>(math: &M, frame: GridFrame) -> bool {
    &&& forall|a: Cell, b: Cell, p: Vec2, q: Vec2| #[trigger]
        call_ensures(M::corner, (math, frame, a), p) && #[trigger] call_ensures(
            M::corner,
            (math, frame, b),
            q,
        ) ==> (a.x <= b.x ==> !q.x.below(p.x)) && (a.y <= b.y ==> !q.y.below(p.y))
    &&& forall|p: Vec2, q: Vec2, s: Vec2, t: Vec2| #[trigger]
        call_ensures(M::texture, (math, frame, p), s) && #[trigger] call_ensures(
            M::texture,
            (math, frame, q),
            t,
        ) ==> (!q.x.below(p.x) ==> !t.x.below(s.x)) && (!q.y.below(p.y) ==> !t.y.below(s.y))
}

/// Vertices are laid out the way the heightmap is: in a column further right,
/// neither the position along X nor the first texture coordinate is less, and in a
/// row further up neither the position along Y nor the second one is.
pub proof fn vertices_are_in_the_order_of_the_heightmap<M: MeshMath>(
    math: &M,
    item: &TerrainItem,
    patch_origin_cells: [u32; 2],
    patch_cells: u32,
    lod: u32,
    skirt_depth: Scalar,
    mesh: PatchMesh,
    gx: int,
    gy: int,
    hx: int,
    hy: int,
)
    requires
        grows(math, item.placement()),
        1 <= item.dims@[0] <= i32::MAX,
        1 <= item.dims@[1] <= i32::MAX,
        crate::mesh::is_patch_mesh(
            math,
            item,
            patch_origin_cells,
            patch_cells,
            lod,
            skirt_depth,
            mesh,
        ),
        0 <= gx <= side(patch_cells, lod),
        0 <= gy <= side(patch_cells, lod),
        0 <= hx <= side(patch_cells, lod),
        0 <= hy <= side(patch_cells, lod),
    ensures
        ({
            let a = mesh.vertices@[gy * (side(patch_cells, lod) + 1) + gx];
            let b = mesh.vertices@[hy * (side(patch_cells, lod) + 1) + hx];
            &&& gx <= hx ==> !b.position@[0].below(a.position@[0]) && !b.uv@[0].below(a.uv@[0])
            &&& gy <= hy ==> !b.position@[1].below(a.position@[1]) && !b.uv@[1].below(a.uv@[1])
        }),
{
    lemma_same_grid(patch_cells, lod);
    let cells = side(patch_cells, lod);
    lemma_vertex_place(cells, gx, gy);
    lemma_vertex_place(cells, hx, hy);
    let a = mesh.vertices@[gy * (cells + 1) + gx];
    let b = mesh.vertices@[hy * (cells + 1) + hx];
    let site_a = crate::mesh::site_of(item, patch_origin_cells, patch_cells, lod, gx, gy);
    let site_b = crate::mesh::site_of(item, patch_origin_cells, patch_cells, lod, hx, hy);
    let frame = item.placement();
    assert(crate::mesh::is_vertex(math, frame, site_a, a));
    assert(crate::mesh::is_vertex(math, frame, site_b, b));
    let ground_a = Vec2 { x: a.position@[0], y: a.position@[1] };
    let ground_b = Vec2 { x: b.position@[0], y: b.position@[1] };
    assert(call_ensures(M::corner, (math, frame, site_a.cell), ground_a));
    assert(call_ensures(M::corner, (math, frame, site_b.cell), ground_b));
    let image_a = Vec2 { x: a.uv@[0], y: a.uv@[1] };
    let image_b = Vec2 { x: b.uv@[0], y: b.uv@[1] };
    assert(call_ensures(M::texture, (math, frame, ground_a), image_a));
    assert(call_ensures(M::texture, (math, frame, ground_b), image_b));
    lemma_order(patch_origin_cells@[0], patch_cells, lod, gx, hx, item.dims@[0]);
    lemma_order(patch_origin_cells@[1], patch_cells, lod, gy, hy, item.dims@[1]);
}

proof fn lemma_order(start: u32, patch_cells: u32, lod: u32, g: int, h: int, count: u32)
    requires
        1 <= count <= i32::MAX,
        0 <= g <= side(patch_cells, lod),
        0 <= h <= side(patch_cells, lod),
    ensures
        ({
            let a = crate::mesh::clamped(
                start + crate::mesh::grid_offset(patch_cells, lod, g),
                count,
            );
            let b = crate::mesh::clamped(
                start + crate::mesh::grid_offset(patch_cells, lod, h),
                count,
            );
            0 <= a < count && 0 <= b < count && (g <= h ==> a <= b)
        }),
{
    lemma_same_grid(patch_cells, lod);
    let step = spread(lod) as int;
    let cells = side(patch_cells, lod);
    assert(0 <= g * step && 0 <= h * step) by (nonlinear_arith)
        requires
            0 <= g,
            0 <= h,
            step >= 1,
    ;
    if g <= h {
        assert(g * step <= h * step) by (nonlinear_arith)
            requires
                g <= h,
                step >= 1,
        ;
    }
    if g < cells {
        lemma_fundamental_div_mod(patch_cells as int, step);
        if patch_cells >= step {
            assert(g * step <= patch_cells) by (nonlinear_arith)
                requires
                    g < cells,
                    patch_cells == step * cells + patch_cells as int % step,
                    patch_cells as int % step >= 0,
                    step >= 1,
            ;
        } else {
            assert(g * step == 0) by (nonlinear_arith)
                requires
                    g == 0,
            ;
        }
    }
}

/// Whether normals lean against the slope: away from the side that is higher.
pub open spec fn leans<M: MeshMath>(math: &M, frame: GridFrame) -> bool {
    let zero = Scalar { bits: ZERO };
    forall|site: VertexSite, n: Vec3| #[trigger]
        call_ensures(M::normal, (math, frame, site), n) ==> {
            &&& site.east > site.west ==> n.x.below(zero)
            &&& site.east < site.west ==> zero.below(n.x)
            &&& site.east == site.west ==> n.x.equal_to(zero)
            &&& site.north > site.south ==> n.y.below(zero)
            &&& site.north < site.south ==> zero.below(n.y)
            &&& site.north == site.south ==> n.y.equal_to(zero)
            &&& zero.below(n.z)
        }
}

/// Normals lean against the slope of the heightmap: where the sample one vertex
/// further along X is higher than the one before, the normal leans back along X,
/// where it is lower it leans forward, and so along Y; it always points up. Beyond
/// the edge the last sample counts.
pub proof fn normals_lean_against_the_slope<M: MeshMath>(
    math: &M,
    item: &TerrainItem,
    patch_origin_cells: [u32; 2],
    patch_cells: u32,
    lod: u32,
    skirt_depth: Scalar,
    mesh: PatchMesh,
    gx: int,
    gy: int,
)
    requires
        leans(math, item.placement()),
        1 <= item.dims@[0] <= i32::MAX,
        1 <= item.dims@[1] <= i32::MAX,
        crate::mesh::is_patch_mesh(
            math,
            item,
            patch_origin_cells,
            patch_cells,
            lod,
            skirt_depth,
            mesh,
        ),
        0 <= gx <= side(patch_cells, lod),
        0 <= gy <= side(patch_cells, lod),
    ensures
        ({
            let normal = mesh.vertices@[gy * (side(patch_cells, lod) + 1) + gx].normal;
            let w = item.dims@[0] as int;
            let h = item.dims@[1] as int;
            let zero = Scalar { bits: ZERO };
            let x = column_of(patch_origin_cells@[0], patch_cells, lod, gx, item.dims@[0]);
            let y = column_of(patch_origin_cells@[1], patch_cells, lod, gy, item.dims@[1]);
            let right = if x + spread(lod) < w { x + spread(lod) } else { w - 1 };
            let left = if x >= spread(lod) { x - spread(lod) } else { 0 };
            let up = if y + spread(lod) < h { y + spread(lod) } else { h - 1 };
            let down = if y >= spread(lod) { y - spread(lod) } else { 0 };
            let (e, f) = (item.samples()[y * w + right], item.samples()[y * w + left]);
            let (n, s) = (item.samples()[up * w + x], item.samples()[down * w + x]);
            &&& e > f ==> normal@[0].below(zero)
            &&& e < f ==> zero.below(normal@[0])
            &&& e == f ==> normal@[0].equal_to(zero)
            &&& n > s ==> normal@[1].below(zero)
            &&& n < s ==> zero.below(normal@[1])
            &&& n == s ==> normal@[1].equal_to(zero)
            &&& zero.below(normal@[2])
        }),
{
    lemma_same_grid(patch_cells, lod);
    let cells = side(patch_cells, lod);
    lemma_vertex_place(cells, gx, gy);
    let vertex = mesh.vertices@[gy * (cells + 1) + gx];
    lemma_reach(patch_origin_cells@[0], patch_cells, lod, gx, item.dims@[0]);
    lemma_reach(patch_origin_cells@[1], patch_cells, lod, gy, item.dims@[1]);
    let site = crate::mesh::site_of(item, patch_origin_cells, patch_cells, lod, gx, gy);
    assert(crate::mesh::is_vertex(math, item.placement(), site, vertex));
    let facing = Vec3 {
        x: vertex.normal@[0],
        y: vertex.normal@[1],
        z: vertex.normal@[2],
    };
    assert(call_ensures(M::normal, (math, item.placement(), site), facing));
}

/// A normal is that of the slope between the vertices on either side: of the
/// samples there, that many cells apart.
pub proof fn normals_span_the_neighbouring_vertices<M: MeshMath>(
    math: &M,
    item: &TerrainItem,
    slope: spec_fn(int, u16, u16, u16, u16, Vec3) -> bool,
    patch_origin_cells: [u32; 2],
    patch_cells: u32,
    lod: u32,
    skirt_depth: Scalar,
    mesh: PatchMesh,
    gx: int,
    gy: int,
)
    requires
        forall|site: VertexSite, n: Vec3| #[trigger]
            call_ensures(M::normal, (math, item.placement(), site), n) ==> slope(
                site.step as int,
                site.east,
                site.west,
                site.north,
                site.south,
                n,
            ),
        1 <= item.dims@[0] <= i32::MAX,
        1 <= item.dims@[1] <= i32::MAX,
        crate::mesh::is_patch_mesh(
            math,
            item,
            patch_origin_cells,
            patch_cells,
            lod,
            skirt_depth,
            mesh,
        ),
        0 <= gx <= side(patch_cells, lod),
        0 <= gy <= side(patch_cells, lod),
    ensures
        ({
            let normal = mesh.vertices@[gy * (side(patch_cells, lod) + 1) + gx].normal;
            let w = item.dims@[0] as int;
            let h = item.dims@[1] as int;
            let x = column_of(patch_origin_cells@[0], patch_cells, lod, gx, item.dims@[0]);
            let y = column_of(patch_origin_cells@[1], patch_cells, lod, gy, item.dims@[1]);
            let right = if x + spread(lod) < w { x + spread(lod) } else { w - 1 };
            let left = if x >= spread(lod) { x - spread(lod) } else { 0 };
            let up = if y + spread(lod) < h { y + spread(lod) } else { h - 1 };
            let down = if y >= spread(lod) { y - spread(lod) } else { 0 };
            slope(
                spread(lod) as int,
                item.samples()[y * w + right],
                item.samples()[y * w + left],
                item.samples()[up * w + x],
                item.samples()[down * w + x],
                Vec3 { x: normal@[0], y: normal@[1], z: normal@[2] },
            )
        }),
{
    lemma_same_grid(patch_cells, lod);
    crate::mesh::lemma_step_range(lod);
    let cells = side(patch_cells, lod);
    lemma_vertex_place(cells, gx, gy);
    let vertex = mesh.vertices@[gy * (cells + 1) + gx];
    lemma_reach(patch_origin_cells@[0], patch_cells, lod, gx, item.dims@[0]);
    lemma_reach(patch_origin_cells@[1], patch_cells, lod, gy, item.dims@[1]);
    let site = crate::mesh::site_of(item, patch_origin_cells, patch_cells, lod, gx, gy);
    assert(crate::mesh::is_vertex(math, item.placement(), site, vertex));
    let facing = Vec3 {
        x: vertex.normal@[0],
        y: vertex.normal@[1],
        z: vertex.normal@[2],
    };
    assert(call_ensures(M::normal, (math, item.placement(), site), facing));
}

/// Twice the area of a triangle, above zero where its corners go round
/// counter-clockwise.
pub open spec fn turn(a: (int, int), b: (int, int), c: (int, int)) -> int {
    (b.0 - a.0) * (c.1 - a.1) - (c.0 - a.0) * (b.1 - a.1)
}

/// The column and the row of a vertex of a grid with `cells` cells per side.
pub open spec fn place(cells: int, index: u32) -> (int, int) {
    (index as int % (cells + 1), index as int / (cells + 1))
}

/// The triangles of a patch cover each of its cells exactly: the two of a cell lie
/// in the cell, go round counter-clockwise, are half as large as the cell each, and
/// lie on either side of its diagonal from the first corner.
pub proof fn triangles_cover_each_cell<M: MeshMath>(
    math: &M,
    item: &TerrainItem,
    patch_origin_cells: [u32; 2],
    patch_cells: u32,
    lod: u32,
    skirt_depth: Scalar,
    mesh: PatchMesh,
    x: int,
    y: int,
)
    requires
        crate::mesh::is_patch_mesh(
            math,
            item,
            patch_origin_cells,
            patch_cells,
            lod,
            skirt_depth,
            mesh,
        ),
        (side(patch_cells, lod) + 1) * (side(patch_cells, lod) + 1) <= u32::MAX,
        0 <= x < side(patch_cells, lod),
        0 <= y < side(patch_cells, lod),
    ensures
        ({
            let n = side(patch_cells, lod);
            let k = 6 * (y * n + x);
            let a = place(n, mesh.indices@[k]);
            let b = place(n, mesh.indices@[k + 1]);
            let c = place(n, mesh.indices@[k + 2]);
            let d = place(n, mesh.indices@[k + 3]);
            let e = place(n, mesh.indices@[k + 4]);
            let f = place(n, mesh.indices@[k + 5]);
            &&& 0 <= k && k + 6 <= mesh.indices@.len()
            &&& turn(a, b, c) == 1
            &&& turn(d, e, f) == 1
            &&& forall|p: (int, int)|
                p == a || p == b || p == c || p == d || p == e || p == f ==> x <= #[trigger] p.0
                    <= x + 1 && y <= p.1 <= y + 1
            &&& forall|p: (int, int)|
                p == a || p == b || p == c ==> #[trigger] p.0 - x >= p.1 - y
            &&& forall|p: (int, int)|
                p == d || p == e || p == f ==> #[trigger] p.0 - x <= p.1 - y
        }),
        mesh.indices@.len() == 6 * (side(patch_cells, lod) * side(patch_cells, lod)) + if (Scalar {
            bits: ZERO,
        }).below(skirt_depth) {
            24 * side(patch_cells, lod)
        } else {
            0
        },
{
    lemma_same_grid(patch_cells, lod);
    let n = side(patch_cells, lod);
    let cell = y * n + x;
    let k = 6 * cell;
    assert(0 <= cell < n * n) by (nonlinear_arith)
        requires
            cell == y * n + x,
            0 <= x < n,
            0 <= y < n,
    ;
    lemma_fundamental_div_mod_converse(cell, n, y, x);
    assert forall|j: int| 0 <= j < 6 implies #[trigger] mesh.indices@[k + j]
        == crate::mesh::grid_corner(n as nat, k + j) as u32 && (k + j) / 6 == cell && (k + j) % 6
        == j by {
        assert((k + j) / 6 == cell && (k + j) % 6 == j);
        assert(crate::mesh::grid_indices(n as nat)[k + j] == crate::mesh::grid_corner(
            n as nat,
            k + j,
        ) as u32);
    }
    lemma_vertex_place(n, x, y);
    lemma_vertex_place(n, x + 1, y);
    lemma_vertex_place(n, x, y + 1);
    lemma_vertex_place(n, x + 1, y + 1);
    assert(mesh.indices@[k + 0] == (y * (n + 1) + x) as u32);
    assert(mesh.indices@[k + 1] == (y * (n + 1) + (x + 1)) as u32);
    assert(mesh.indices@[k + 2] == ((y + 1) * (n + 1) + (x + 1)) as u32);
    assert(mesh.indices@[k + 3] == (y * (n + 1) + x) as u32);
    assert(mesh.indices@[k + 4] == ((y + 1) * (n + 1) + (x + 1)) as u32);
    assert(mesh.indices@[k + 5] == ((y + 1) * (n + 1) + x) as u32);
    assert(place(n, mesh.indices@[k + 0]) == (x, y));
    assert(place(n, mesh.indices@[k + 1]) == (x + 1, y));
    assert(place(n, mesh.indices@[k + 2]) == (x + 1, y + 1));
    assert(place(n, mesh.indices@[k + 5]) == (x, y + 1));
    assert(turn((x, y), (x + 1, y), (x + 1, y + 1)) == 1) by (nonlinear_arith);
    assert(turn((x, y), (x + 1, y + 1), (x, y + 1)) == 1) by (nonlinear_arith);
}

/// The column and the row of the `i`-th vertex on the rim of a grid, counted
/// counter-clockwise from the first one.
pub open spec fn rim(cells: int, i: int) -> (int, int) {
    if i < cells {
        (i, 0int)
    } else if i < 2 * cells {
        (cells, i - cells)
    } else if i < 3 * cells {
        (3 * cells - i, cells)
    } else {
        (0int, 4 * cells - i)
    }
}

proof fn lemma_rim(cells: int, i: int)
    requires
        0 <= i < 4 * cells,
        (cells + 1) * (cells + 1) <= u32::MAX,
    ensures
        0 <= rim(cells, i).0 <= cells,
        0 <= rim(cells, i).1 <= cells,
        0 <= crate::mesh::perimeter_vertex(cells as nat, i) < (cells + 1) * (cells + 1),
        place(cells, crate::mesh::perimeter_vertex(cells as nat, i) as u32) == rim(cells, i),
{
    let (x, y) = rim(cells, i);
    lemma_vertex_place(cells, x, y);
    assert(crate::mesh::perimeter_vertex(cells as nat, i) == y * (cells + 1) + x);
}

/// The six indices below an edge of the rim.
proof fn lemma_skirt_edge(cells: int, indices: Seq<u32>, edge: int)
    requires
        cells >= 1,
        0 <= edge < 4 * cells,
        indices == crate::mesh::grid_indices(cells as nat) + crate::mesh::skirt_indices(
            cells as nat,
        ),
    ensures
        indices.len() == 6 * (cells * cells) + 24 * cells,
        ({
            let k = 6 * (cells * cells) + 6 * edge;
            let main = (cells + 1) * (cells + 1);
            let next = if edge + 1 < 4 * cells {
                edge + 1
            } else {
                0
            };
            let top = crate::mesh::perimeter_vertex(cells as nat, edge) as u32;
            let top_next = crate::mesh::perimeter_vertex(cells as nat, next) as u32;
            &&& indices[k] == top
            &&& indices[k + 1] == (main + edge) as u32
            &&& indices[k + 2] == top_next
            &&& indices[k + 3] == top_next
            &&& indices[k + 4] == (main + edge) as u32
            &&& indices[k + 5] == (main + next) as u32
        }),
{
    let own = crate::mesh::skirt_indices(cells as nat);
    let base = 6 * (cells * cells);
    let main = (cells + 1) * (cells + 1);
    let c = cells as nat;
    assert(c * c == cells * cells);
    assert((c + 1) * (c + 1) == main);
    assert(0 <= cells * cells) by (nonlinear_arith);
    assert((6 * edge) / 6 == edge && (6 * edge) % 6 == 0);
    assert((6 * edge + 1) / 6 == edge && (6 * edge + 1) % 6 == 1);
    assert((6 * edge + 2) / 6 == edge && (6 * edge + 2) % 6 == 2);
    assert((6 * edge + 3) / 6 == edge && (6 * edge + 3) % 6 == 3);
    assert((6 * edge + 4) / 6 == edge && (6 * edge + 4) % 6 == 4);
    assert((6 * edge + 5) / 6 == edge && (6 * edge + 5) % 6 == 5);
    assert(indices[base + 6 * edge] == own[6 * edge]);
    assert(indices[base + 6 * edge + 1] == own[6 * edge + 1]);
    assert(indices[base + 6 * edge + 2] == own[6 * edge + 2]);
    assert(indices[base + 6 * edge + 3] == own[6 * edge + 3]);
    assert(indices[base + 6 * edge + 4] == own[6 * edge + 4]);
    assert(indices[base + 6 * edge + 5] == own[6 * edge + 5]);
}

/// Whether `bottom` is a copy of `top` that `dropped` tells to be lowered.
pub open spec fn hangs_from(
    dropped: spec_fn(Scalar, Scalar) -> bool,
    top: crate::mesh::TerrainVertex,
    bottom: crate::mesh::TerrainVertex,
) -> bool {
    &&& bottom.position@[0] == top.position@[0]
    &&& bottom.position@[1] == top.position@[1]
    &&& dropped(top.position@[2], bottom.position@[2])
    &&& bottom.normal@ == top.normal@
    &&& bottom.uv@ == top.uv@
}

/// A skirt is a curtain round the whole patch: below each edge of the rim two
/// triangles join its ends with their lowered copies, edge follows edge round the
/// patch with the patch on the left, and the last one closes the ring.
pub proof fn skirts_hang_from_the_whole_rim<M: MeshMath>(
    math: &M,
    item: &TerrainItem,
    dropped: spec_fn(Scalar, Scalar) -> bool,
    patch_origin_cells: [u32; 2],
    patch_cells: u32,
    lod: u32,
    skirt_depth: Scalar,
    mesh: PatchMesh,
    e: int,
)
    requires
        forall|height: Scalar, z: Scalar| #[trigger]
            call_ensures(M::lower, (math, height, skirt_depth), z) ==> dropped(height, z),
        crate::mesh::is_patch_mesh(
            math,
            item,
            patch_origin_cells,
            patch_cells,
            lod,
            skirt_depth,
            mesh,
        ),
        (Scalar { bits: ZERO }).below(skirt_depth),
        (side(patch_cells, lod) + 1) * (side(patch_cells, lod) + 1) + 4 * side(patch_cells, lod)
            <= u32::MAX,
        0 <= e < 4 * side(patch_cells, lod),
    ensures
        ({
            let n = side(patch_cells, lod);
            let k = 6 * (n * n) + 6 * e;
            let (t0, b0, t1, b1) = (
                mesh.indices@[k],
                mesh.indices@[k + 1],
                mesh.indices@[k + 2],
                mesh.indices@[k + 5],
            );
            let (p, q) = (place(n, t0), place(n, t1));
            let follows = 6 * (n * n) + 6 * (if e + 1 < 4 * n {
                e + 1
            } else {
                0
            });
            &&& 0 <= k && k + 6 <= mesh.indices@.len()
            &&& mesh.indices@[k + 3] == t1
            &&& mesh.indices@[k + 4] == b0
            &&& t0 < (n + 1) * (n + 1) && t1 < (n + 1) * (n + 1)
            &&& b0 < mesh.vertices@.len() && b1 < mesh.vertices@.len()
            &&& hangs_from(dropped, mesh.vertices@[t0 as int], mesh.vertices@[b0 as int])
            &&& hangs_from(dropped, mesh.vertices@[t1 as int], mesh.vertices@[b1 as int])
            &&& p == rim(n, e)
            &&& mesh.indices@[follows] == t1
            &&& mesh.indices@[follows + 1] == b1
            &&& (q.0 - p.0) * (q.0 - p.0) + (q.1 - p.1) * (q.1 - p.1) == 1
            &&& (q.0 - p.0) * (n - 2 * p.1) - (q.1 - p.1) * (n - 2 * p.0) > 0
        }),
{
    lemma_same_grid(patch_cells, lod);
    let n = side(patch_cells, lod);
    let main = (n + 1) * (n + 1);
    let next = if e + 1 < 4 * n {
        e + 1
    } else {
        0
    };
    let k = 6 * (n * n) + 6 * e;
    let follows = 6 * (n * n) + 6 * next;
    lemma_rim(n, e);
    lemma_rim(n, next);
    assert(0 <= n * n) by (nonlinear_arith);
    let t0 = crate::mesh::perimeter_vertex(n as nat, e);
    let t1 = crate::mesh::perimeter_vertex(n as nat, next);
    lemma_skirt_edge(n, mesh.indices@, e);
    lemma_skirt_edge(n, mesh.indices@, next);
    lemma_hangs(math, mesh, dropped, patch_cells, lod, skirt_depth, e);
    lemma_hangs(math, mesh, dropped, patch_cells, lod, skirt_depth, next);
    lemma_rim_step(n, e);
}

proof fn lemma_hangs<M: MeshMath>(
    math: &M,
    mesh: PatchMesh,
    dropped: spec_fn(Scalar, Scalar) -> bool,
    patch_cells: u32,
    lod: u32,
    skirt_depth: Scalar,
    e: int,
)
    requires
        forall|height: Scalar, z: Scalar| #[trigger]
            call_ensures(M::lower, (math, height, skirt_depth), z) ==> dropped(height, z),
        mesh.vertices@.len() == (side(patch_cells, lod) + 1) * (side(patch_cells, lod) + 1) + 4
            * side(patch_cells, lod),
        ({
            let main = (side(patch_cells, lod) + 1) * (side(patch_cells, lod) + 1);
            forall|k: int|
                main <= k < mesh.vertices@.len() ==> crate::mesh::hangs_below(
                    math,
                    mesh.vertices@[crate::mesh::perimeter_vertex(
                        side(patch_cells, lod) as nat,
                        k - main,
                    )],
                    skirt_depth,
                    #[trigger] mesh.vertices@[k],
                )
        }),
        0 <= e < 4 * side(patch_cells, lod),
    ensures
        ({
            let main = (side(patch_cells, lod) + 1) * (side(patch_cells, lod) + 1);
            hangs_from(
                dropped,
                mesh.vertices@[crate::mesh::perimeter_vertex(side(patch_cells, lod) as nat, e)],
                mesh.vertices@[main + e],
            )
        }),
{
    let main = (side(patch_cells, lod) + 1) * (side(patch_cells, lod) + 1);
    let bottom = mesh.vertices@[main + e];
    assert(main + e - main == e);
}

proof fn lemma_rim_step(n: int, e: int)
    requires
        n >= 1,
        0 <= e < 4 * n,
    ensures
        ({
            let p = rim(n, e);
            let q = rim(
                n,
                if e + 1 < 4 * n {
                    e + 1
                } else {
                    0
                },
            );
            &&& (q.0 - p.0) * (q.0 - p.0) + (q.1 - p.1) * (q.1 - p.1) == 1
            &&& (q.0 - p.0) * (n - 2 * p.1) - (q.1 - p.1) * (n - 2 * p.0) > 0
        }),
{
    let p = rim(n, e);
    let q = rim(
        n,
        if e + 1 < 4 * n {
            e + 1
        } else {
            0
        },
    );
    let (dx, dy) = (q.0 - p.0, q.1 - p.1);
    let (px, py) = (p.0, p.1);
    assert(dx == 1 && dy == 0 && py == 0 || dx == 0 && dy == 1 && px == n || dx == -1 && dy == 0
        && py == n || dx == 0 && dy == -1 && px == 0);
    assert(dx * dx + dy * dy == 1 && dx * (n - 2 * py) - dy * (n - 2 * px) > 0)
        by (nonlinear_arith)
        requires
            n >= 1,
            dx == 1 && dy == 0 && py == 0 || dx == 0 && dy == 1 && px == n || dx == -1 && dy == 0
                && py == n || dx == 0 && dy == -1 && px == 0,
    ;
}

/// Whether lowering a height by the depth of a skirt lowers it, and higher ones no
/// further than lower ones.
pub open spec fn lowers<M: MeshMath>(math: &M, depth: Scalar) -> bool {
    &&& forall|height: Scalar, z: Scalar| #[trigger]
        call_ensures(M::lower, (math, height, depth), z) ==> !height.below(z) && (height.nan()
            ==> z.nan())
    &&& forall|a: Scalar, b: Scalar, p: Scalar, q: Scalar| #[trigger]
        call_ensures(M::lower, (math, a, depth), p) && #[trigger] call_ensures(
            M::lower,
            (math, b, depth),
            q,
        ) && !b.below(a) ==> !q.below(p)
}

/// Whether a point lies in a box: along no axis outside it.
pub open spec fn in_box(lower: Vec3, upper: Vec3, p: Vec3) -> bool {
    &&& !p.x.below(lower.x) && !upper.x.below(p.x)
    &&& !p.y.below(lower.y) && !upper.y.below(p.y)
    &&& !p.z.below(lower.z) && !upper.z.below(p.z)
}

/// The position of a vertex.
pub open spec fn position_of(vertex: crate::mesh::TerrainVertex) -> Vec3 {
    Vec3 { x: vertex.position@[0], y: vertex.position@[1], z: vertex.position@[2] }
}

proof fn lemma_main_vertex_in_box<M: MeshMath>(
    math: &M,
    item: &TerrainItem,
    patch_origin_cells: [u32; 2],
    patch_cells: u32,
    lod: u32,
    skirt_depth: Scalar,
    mesh: PatchMesh,
    k: int,
)
    requires
        grows(math, item.placement()),
        (Scalar { bits: ZERO }).below(skirt_depth) ==> lowers(math, skirt_depth),
        1 <= item.dims@[0] <= i32::MAX,
        1 <= item.dims@[1] <= i32::MAX,
        crate::mesh::is_patch_mesh(
            math,
            item,
            patch_origin_cells,
            patch_cells,
            lod,
            skirt_depth,
            mesh,
        ),
        0 <= k < (side(patch_cells, lod) + 1) * (side(patch_cells, lod) + 1),
    ensures
        in_box(mesh.aabb_min, mesh.aabb_max, position_of(mesh.vertices@[k])),
{
    lemma_same_grid(patch_cells, lod);
    let cells = side(patch_cells, lod);
    let main = (cells + 1) * (cells + 1);
    let gx = k % (cells + 1);
    let gy = k / (cells + 1);
    lemma_fundamental_div_mod(k, cells + 1);
    assert(0 <= gy <= cells) by (nonlinear_arith)
        requires
            k == (cells + 1) * gy + gx,
            0 <= gx < cells + 1,
            0 <= k < (cells + 1) * (cells + 1),
    ;
    let vertex = mesh.vertices@[k];
    let frame = item.placement();
    let site = crate::mesh::site_of(item, patch_origin_cells, patch_cells, lod, gx, gy);
    assert(crate::mesh::is_vertex(math, frame, site, vertex));
    crate::mesh::sites_lie_within_the_box(item, patch_origin_cells, patch_cells, lod, gx, gy);
    crate::mesh::span_holds_every_height(mesh.vertices@, main, k);
    let ground = Vec2 { x: vertex.position@[0], y: vertex.position@[1] };
    let near = Vec2 { x: mesh.aabb_min.x, y: mesh.aabb_min.y };
    let far = Vec2 { x: mesh.aabb_max.x, y: mesh.aabb_max.y };
    let (ox, oy) = (patch_origin_cells@[0], patch_origin_cells@[1]);
    assert(call_ensures(M::corner, (math, frame, site.cell), ground));
    assert(call_ensures(
        M::corner,
        (math, frame, crate::mesh::clipped_cell(item, ox as int, oy as int)),
        near,
    ));
    assert(call_ensures(
        M::corner,
        (math, frame, crate::mesh::clipped_cell(item, ox + patch_cells, oy + patch_cells)),
        far,
    ));
}

/// The box of a mesh holds all of it, skirt and all: no vertex lies outside along
/// any axis. A vertex that is a NaN lies nowhere.
pub proof fn boxes_hold_every_vertex<M: MeshMath>(
    math: &M,
    item: &TerrainItem,
    patch_origin_cells: [u32; 2],
    patch_cells: u32,
    lod: u32,
    skirt_depth: Scalar,
    mesh: PatchMesh,
    k: int,
)
    requires
        grows(math, item.placement()),
        (Scalar { bits: ZERO }).below(skirt_depth) ==> lowers(math, skirt_depth),
        1 <= item.dims@[0] <= i32::MAX,
        1 <= item.dims@[1] <= i32::MAX,
        crate::mesh::is_patch_mesh(
            math,
            item,
            patch_origin_cells,
            patch_cells,
            lod,
            skirt_depth,
            mesh,
        ),
        (side(patch_cells, lod) + 1) * (side(patch_cells, lod) + 1) <= u32::MAX,
        0 <= k < mesh.vertices@.len(),
    ensures
        in_box(mesh.aabb_min, mesh.aabb_max, position_of(mesh.vertices@[k])),
{
    lemma_same_grid(patch_cells, lod);
    let cells = side(patch_cells, lod);
    let main = (cells + 1) * (cells + 1);
    if k < main {
        lemma_main_vertex_in_box(
            math,
            item,
            patch_origin_cells,
            patch_cells,
            lod,
            skirt_depth,
            mesh,
            k,
        );
    } else {
        lemma_rim(cells, k - main);
        let at = crate::mesh::perimeter_vertex(cells as nat, k - main);
        lemma_main_vertex_in_box(
            math,
            item,
            patch_origin_cells,
            patch_cells,
            lod,
            skirt_depth,
            mesh,
            at,
        );
        let top = mesh.vertices@[at];
        let bottom = mesh.vertices@[k];
        assert(crate::mesh::hangs_below(math, top, skirt_depth, bottom));
        crate::mesh::span_holds_every_height(mesh.vertices@, main, at);
        let low = crate::mesh::lowest(mesh.vertices@, main);
        assert(call_ensures(M::lower, (math, low, skirt_depth), mesh.aabb_min.z));
        assert(call_ensures(
            M::lower,
            (math, top.position@[2], skirt_depth),
            bottom.position@[2],
        ));
    }
}

/// The box of a mesh is no larger than the mesh on the ground: it reaches from the
/// first vertex to the opposite one. Without a skirt, it is no deeper than the
/// lowest vertex and no higher than the highest one.
pub proof fn boxes_are_tight<M: MeshMath>(
    math: &M,
    item: &TerrainItem,
    patch_origin_cells: [u32; 2],
    patch_cells: u32,
    lod: u32,
    skirt_depth: Scalar,
    mesh: PatchMesh,
    low: Scalar,
    high: Scalar,
)
    requires
        crate::mesh::repeats(math),
        1 <= item.dims@[0] <= i32::MAX,
        1 <= item.dims@[1] <= i32::MAX,
        crate::mesh::is_patch_mesh(
            math,
            item,
            patch_origin_cells,
            patch_cells,
            lod,
            skirt_depth,
            mesh,
        ),
        forall|k: int|
            0 <= k < (side(patch_cells, lod) + 1) * (side(patch_cells, lod) + 1) ==> {
                let z = (#[trigger] mesh.vertices@[k]).position@[2];
                !z.nan() && low.scaled() <= z.scaled() <= high.scaled()
            },
        !low.nan(),
        !high.nan(),
    ensures
        ({
            let n = side(patch_cells, lod);
            let first = mesh.vertices@[0];
            let last = mesh.vertices@[(n + 1) * (n + 1) - 1];
            &&& mesh.aabb_min.x == first.position@[0] && mesh.aabb_min.y == first.position@[1]
            &&& mesh.aabb_max.x == last.position@[0] && mesh.aabb_max.y == last.position@[1]
        }),
        !(Scalar { bits: ZERO }).below(skirt_depth) ==> low.scaled() <= mesh.aabb_min.z.scaled(),
        mesh.aabb_max.z.scaled() <= high.scaled(),
{
    lemma_same_grid(patch_cells, lod);
    let n = side(patch_cells, lod);
    let main = (n + 1) * (n + 1);
    lemma_vertex_place(n, 0, 0);
    lemma_vertex_place(n, n, n);
    assert(n * (n + 1) + n == main - 1) by (nonlinear_arith)
        requires
            main == (n + 1) * (n + 1),
    ;
    assert(0 * (n + 1) + 0 == 0);
    let first = mesh.vertices@[0];
    let last = mesh.vertices@[main - 1];
    let frame = item.placement();
    let site_a = crate::mesh::site_of(item, patch_origin_cells, patch_cells, lod, 0, 0);
    let site_b = crate::mesh::site_of(item, patch_origin_cells, patch_cells, lod, n, n);
    assert(crate::mesh::is_vertex(math, frame, site_a, first));
    assert(crate::mesh::is_vertex(math, frame, site_b, last));
    let step = spread(lod) as int;
    assert(0 * step == 0);
    let (ox, oy) = (patch_origin_cells@[0], patch_origin_cells@[1]);
    assert(site_a.cell == crate::mesh::clipped_cell(item, ox as int, oy as int));
    assert(site_b.cell == crate::mesh::clipped_cell(item, ox + patch_cells, oy + patch_cells));
    let near = Vec2 { x: mesh.aabb_min.x, y: mesh.aabb_min.y };
    let far = Vec2 { x: mesh.aabb_max.x, y: mesh.aabb_max.y };
    let ground_a = Vec2 { x: first.position@[0], y: first.position@[1] };
    let ground_b = Vec2 { x: last.position@[0], y: last.position@[1] };
    assert(near == ground_a);
    assert(far == ground_b);
    lemma_span_within(mesh.vertices@, main, low, high);
}

proof fn lemma_span_within(
    vertices: Seq<crate::mesh::TerrainVertex>,
    count: int,
    low: Scalar,
    high: Scalar,
)
    requires
        count >= 1,
        forall|k: int|
            0 <= k < count ==> {
                let z = (#[trigger] vertices[k]).position@[2];
                !z.nan() && low.scaled() <= z.scaled() <= high.scaled()
            },
    ensures
        low.scaled() <= crate::mesh::lowest(vertices, count).scaled(),
        crate::mesh::highest(vertices, count).scaled() <= high.scaled(),
        !crate::mesh::lowest(vertices, count).nan(),
        !crate::mesh::highest(vertices, count).nan(),
    decreases count,
{
    let z = vertices[count - 1].position@[2];
    if count == 1 {
        assert(crate::mesh::lowest(vertices, 0) == (Scalar {
            bits: crate::scalar::INFINITY,
        }));
        assert(crate::mesh::highest(vertices, 0) == (Scalar {
            bits: crate::scalar::NEG_INFINITY,
        }));
        lemma_infinity_bounds(z);
    } else {
        lemma_span_within(vertices, count - 1, low, high);
    }
}

proof fn lemma_infinity_bounds(z: Scalar)
    requires
        !z.nan(),
    ensures
        z.scaled() <= (Scalar { bits: crate::scalar::INFINITY }).scaled(),
        (Scalar { bits: crate::scalar::NEG_INFINITY }).scaled() <= z.scaled(),
{
    let far = (Scalar { bits: crate::scalar::INFINITY }).pattern();
    if z.pattern() < far {
        crate::scalar::lemma_magnitude_monotone(z.pattern(), far);
    }
    assert((Scalar { bits: crate::scalar::NEG_INFINITY }).pattern() == far);
}

/// Whether positions are numbers, lowered or not.
pub open spec fn gives_numbers<M: MeshMath>(math: &M, frame: GridFrame, depth: Scalar) -> bool {
    &&& forall|cell: Cell, p: Vec2| #[trigger]
        call_ensures(M::corner, (math, frame, cell), p) ==> !p.x.nan() && !p.y.nan()
    &&& forall|height: Scalar, z: Scalar| #[trigger]
        call_ensures(M::lower, (math, height, depth), z) && !height.nan() ==> !z.nan()
}

proof fn lemma_boxes_join(meshes: Seq<PatchMesh>, count: int, level: int, p: Vec3)
    requires
        0 <= level < count <= meshes.len(),
        in_box(meshes[level].aabb_min, meshes[level].aabb_max, p),
        forall|l: int|
            0 <= l < count ==> {
                let (lower, upper) = ((#[trigger] meshes[l]).aabb_min, meshes[l].aabb_max);
                &&& !lower.x.nan() && !lower.y.nan() && !lower.z.nan()
                &&& !upper.x.nan() && !upper.y.nan() && !upper.z.nan()
            },
    ensures
        in_box(crate::bake::box_min(meshes, count), crate::bake::box_max(meshes, count), p),
        ({
            let lower = crate::bake::box_min(meshes, count);
            let upper = crate::bake::box_max(meshes, count);
            &&& !lower.x.nan() && !lower.y.nan() && !lower.z.nan()
            &&& !upper.x.nan() && !upper.y.nan() && !upper.z.nan()
        }),
    decreases count,
{
    let own = meshes[count - 1];
    if level < count - 1 {
        lemma_boxes_join(meshes, count - 1, level, p);
    } else {
        lemma_box_is_numbers(meshes, count - 1);
    }
}

proof fn lemma_box_is_numbers(meshes: Seq<PatchMesh>, count: int)
    requires
        0 <= count <= meshes.len(),
        forall|l: int|
            0 <= l < count ==> {
                let (lower, upper) = ((#[trigger] meshes[l]).aabb_min, meshes[l].aabb_max);
                &&& !lower.x.nan() && !lower.y.nan() && !lower.z.nan()
                &&& !upper.x.nan() && !upper.y.nan() && !upper.z.nan()
            },
    ensures
        ({
            let lower = crate::bake::box_min(meshes, count);
            let upper = crate::bake::box_max(meshes, count);
            &&& !lower.x.nan() && !lower.y.nan() && !lower.z.nan()
            &&& !upper.x.nan() && !upper.y.nan() && !upper.z.nan()
        }),
    decreases count,
{
    if count > 0 {
        lemma_box_is_numbers(meshes, count - 1);
        let own = meshes[count - 1];
    }
}

/// The box of a patch holds every vertex of every level of detail of the patch.
pub proof fn patch_boxes_hold_every_vertex<M: MeshMath>(
    math: &M,
    item: &TerrainItem,
    policy: crate::bake::BakePolicy,
    patches: Seq<crate::bake::BakedPatch>,
    meshes: Seq<Vec<PatchMesh>>,
    patch_grid: [u32; 2],
    k: int,
    level: int,
    v: int,
)
    requires
        crate::bake::is_bake(math, item, policy, patches, meshes, patch_grid),
        grows(math, item.placement()),
        gives_numbers(math, item.placement(), policy.skirt_depth),
        (Scalar { bits: ZERO }).below(policy.skirt_depth) ==> lowers(math, policy.skirt_depth),
        1 <= item.dims@[0] <= i32::MAX,
        1 <= item.dims@[1] <= i32::MAX,
        1 <= policy.patch_cells < 0xFFFF,
        0 <= k < patches.len(),
        0 <= level < meshes[k]@.len(),
        0 <= v < meshes[k]@[level].vertices@.len(),
    ensures
        in_box(
            patches[k].aabb_min,
            patches[k].aabb_max,
            position_of(meshes[k]@[level].vertices@[v]),
        ),
{
    let levels = meshes[k]@;
    let origin = crate::bake::patch_origin(item, policy, k);
    assert(crate::bake::are_patch_meshes(math, item, policy, origin, levels));
    assert(patches[k].fresh(levels));
    assert forall|l: int| 0 <= l < levels.len() implies ({
        let (lower, upper) = ((#[trigger] levels[l]).aabb_min, levels[l].aabb_max);
        &&& !lower.x.nan() && !lower.y.nan() && !lower.z.nan()
        &&& !upper.x.nan() && !upper.y.nan() && !upper.z.nan()
    }) by {
        let mesh = levels[l];
        let lod = l as u32;
        lemma_same_grid(policy.patch_cells, lod);
        let n = side(policy.patch_cells, lod);
        lemma_vertex_place(n, 0, 0);
        crate::mesh::span_holds_every_height(mesh.vertices@, (n + 1) * (n + 1), 0);
        let near = Vec2 { x: mesh.aabb_min.x, y: mesh.aabb_min.y };
        let far = Vec2 { x: mesh.aabb_max.x, y: mesh.aabb_max.y };
        let (ox, oy) = (origin@[0], origin@[1]);
        let frame = item.placement();
        assert(call_ensures(
            M::corner,
            (math, frame, crate::mesh::clipped_cell(item, ox as int, oy as int)),
            near,
        ));
        assert(call_ensures(
            M::corner,
            (
                math,
                frame,
                crate::mesh::clipped_cell(
                    item,
                    ox + policy.patch_cells,
                    oy + policy.patch_cells,
                ),
            ),
            far,
        ));
    }
    let lod = level as u32;
    let n = side(policy.patch_cells, lod);
    lemma_same_grid(policy.patch_cells, lod);
    let step = spread(lod) as int;
    assert(policy.patch_cells as int / step <= policy.patch_cells) by (nonlinear_arith)
        requires
            step >= 1,
    ;
    assert((n + 1) * (n + 1) <= u32::MAX) by (nonlinear_arith)
        requires
            1 <= n < 0xFFFF,
    ;
    boxes_hold_every_vertex(
        math,
        item,
        origin,
        policy.patch_cells,
        lod,
        policy.skirt_depth,
        levels[level],
        v,
    );
    lemma_boxes_join(
        levels,
        levels.len() as int,
        level,
        position_of(levels[level].vertices@[v]),
    );
}

/// A freshly baked patch is visible at its finest level of detail, and has as many levels
/// as the policy asks for, each with the number of indices of its own mesh: two triangles
/// per cell, of which there are half as many along a side at each level, and two per edge
/// of the rim where there is a skirt.
pub proof fn every_level_has_its_own_triangles<M: MeshMath>(
    math: &M,
    item: &TerrainItem,
    policy: crate::bake::BakePolicy,
    patches: Seq<crate::bake::BakedPatch>,
    meshes: Seq<Vec<PatchMesh>>,
    patch_grid: [u32; 2],
    k: int,
    level: int,
)
    requires
        crate::bake::is_bake(math, item, policy, patches, meshes, patch_grid),
        1 <= policy.patch_cells < 0x4000,
        0 <= k < patches.len(),
        0 <= level < policy.max_lod,
    ensures
        patches[k].visible && patches[k].chosen_lod == 0,
        patches[k].index_counts@.len() == policy.max_lod,
        meshes[k]@.len() == policy.max_lod,
        patches[k].index_counts@[level] == meshes[k]@[level].indices@.len(),
        ({
            let n = side(policy.patch_cells, level as u32);
            patches[k].index_counts@[level] == 6 * (n * n) + if (Scalar { bits: ZERO }).below(
                policy.skirt_depth,
            ) {
                24 * n
            } else {
                0
            }
        }),
{
    let levels = meshes[k]@;
    let origin = crate::bake::patch_origin(item, policy, k);
    assert(crate::bake::are_patch_meshes(math, item, policy, origin, levels));
    assert(patches[k].fresh(levels));
    let lod = level as u32;
    let mesh = levels[level];
    let n = side(policy.patch_cells, lod);
    lemma_same_grid(policy.patch_cells, lod);
    let step = spread(lod) as int;
    assert(policy.patch_cells as int / step <= policy.patch_cells) by (nonlinear_arith)
        requires
            step >= 1,
    ;
    assert((n + 1) * (n + 1) <= u32::MAX && 6 * (n * n) + 24 * n <= u32::MAX)
        by (nonlinear_arith)
        requires
            1 <= n < 0x4000,
    ;
    triangles_cover_each_cell(
        math,
        item,
        origin,
        policy.patch_cells,
        lod,
        policy.skirt_depth,
        mesh,
        0,
        0,
    );
    assert(patches[k].index_counts@[level] == levels[level].indices@.len() as u32);
}

/// Every cell of a heightmap is drawn: some patch has, at its finest level of
/// detail, a cell whose four vertices stand on the four samples around it, and
/// whose two triangles cover it. The patch is the `0`-th result, its first column
/// and row the `1`-st, and the column and row of its cell the others.
pub proof fn every_cell_is_drawn<M: MeshMath>(
    math: &M,
    item: &TerrainItem,
    policy: crate::bake::BakePolicy,
    patches: Seq<crate::bake::BakedPatch>,
    meshes: Seq<Vec<PatchMesh>>,
    patch_grid: [u32; 2],
    x: int,
    y: int,
) -> (drawn: (int, [u32; 2], int, int))
    requires
        crate::bake::is_bake(math, item, policy, patches, meshes, patch_grid),
        policy.patch_cells >= 1,
        policy.max_lod >= 1,
        0 <= x < item.dims@[0] - 1,
        0 <= y < item.dims@[1] - 1,
    ensures
        0 <= drawn.0 < patches.len(),
        meshes[drawn.0]@.len() >= 1,
        crate::mesh::is_patch_mesh(
            math,
            item,
            drawn.1,
            policy.patch_cells,
            0,
            policy.skirt_depth,
            meshes[drawn.0]@[0],
        ),
        0 <= drawn.2 < side(policy.patch_cells, 0),
        0 <= drawn.3 < side(policy.patch_cells, 0),
        column_of(drawn.1@[0], policy.patch_cells, 0, drawn.2, item.dims@[0]) == x,
        column_of(drawn.1@[0], policy.patch_cells, 0, drawn.2 + 1, item.dims@[0]) == x + 1,
        column_of(drawn.1@[1], policy.patch_cells, 0, drawn.3, item.dims@[1]) == y,
        column_of(drawn.1@[1], policy.patch_cells, 0, drawn.3 + 1, item.dims@[1]) == y + 1,
{
    crate::bake::every_cell_lies_in_one_patch(item, policy, x, y);
    let k = choose|k: int| #[trigger] crate::bake::lies_in_patch(item, policy, x, y, k);
    let origin = crate::bake::patch_origin(item, policy, k);
    assert(patches.len() == patch_grid@[0] * patch_grid@[1]);
    assert(crate::bake::are_patch_meshes(math, item, policy, origin, meshes[k]@));
    lemma2_to64();
    assert(spread(0) == 1);
    assert(side(policy.patch_cells, 0) == policy.patch_cells) by {
        assert(policy.patch_cells as int / 1 == policy.patch_cells);
    }
    let gx = x - origin@[0];
    let gy = y - origin@[1];
    assert(gx * 1 == gx && gy * 1 == gy && (gx + 1) * 1 == gx + 1 && (gy + 1) * 1 == gy + 1);
    (k, origin, gx, gy)
}

/// Patches do not overlap: where two patches have, at their finest level of detail,
/// cells over the same cell of the heightmap, they are the same patch.
pub proof fn no_cell_is_drawn_twice(
    item: &TerrainItem,
    policy: crate::bake::BakePolicy,
    j: int,
    k: int,
    x: int,
    y: int,
)
    requires
        policy.patch_cells >= 1,
        0 <= x < item.dims@[0] - 1,
        0 <= y < item.dims@[1] - 1,
        0 <= j < crate::bake::patches_along(item.dims@[0], policy.patch_cells)
            * crate::bake::patches_along(item.dims@[1], policy.patch_cells),
        0 <= k < crate::bake::patches_along(item.dims@[0], policy.patch_cells)
            * crate::bake::patches_along(item.dims@[1], policy.patch_cells),
        ({
            let a = crate::bake::patch_origin(item, policy, j);
            let b = crate::bake::patch_origin(item, policy, k);
            &&& a@[0] <= x < a@[0] + policy.patch_cells && a@[1] <= y < a@[1] + policy.patch_cells
            &&& b@[0] <= x < b@[0] + policy.patch_cells && b@[1] <= y < b@[1] + policy.patch_cells
        }),
    ensures
        j == k,
{
    crate::bake::every_cell_lies_in_one_patch(item, policy, x, y);
    assert(crate::bake::lies_in_patch(item, policy, x, y, j));
    assert(crate::bake::lies_in_patch(item, policy, x, y, k));
}

/// What is picked is what is drawn: the picking map covers the ground of the
/// terrain, and a vertex of a mesh has the height that the picking map has for the
/// sample on which it stands. `same` tells which heights count as equal.
pub proof fn the_picked_surface_is_the_drawn_one<M: MeshMath>(
    math: &M,
    item: &TerrainItem,
    same: spec_fn(Scalar, Scalar) -> bool,
    patch_origin_cells: [u32; 2],
    patch_cells: u32,
    lod: u32,
    skirt_depth: Scalar,
    mesh: PatchMesh,
    cpu: &crate::pick::CpuHeightmap,
    gx: int,
    gy: int,
)
    requires
        forall|sample: u16, a: Scalar, b: Scalar| #[trigger]
            call_ensures(M::elevation, (math, item.placement(), sample), a)
                && #[trigger] call_ensures(
                M::height,
                (math, item.placement(), sample),
                b,
            ) ==> same(a, b),
        1 <= item.dims@[0] <= i32::MAX,
        1 <= item.dims@[1] <= i32::MAX,
        item.dims@[0] * item.dims@[1] <= item.samples().len(),
        crate::mesh::is_patch_mesh(
            math,
            item,
            patch_origin_cells,
            patch_cells,
            lod,
            skirt_depth,
            mesh,
        ),
        crate::bake::is_picking_map(math, item, cpu),
        0 <= gx <= side(patch_cells, lod),
        0 <= gy <= side(patch_cells, lod),
    ensures
        ({
            let vertex = mesh.vertices@[gy * (side(patch_cells, lod) + 1) + gx];
            let x = column_of(patch_origin_cells@[0], patch_cells, lod, gx, item.dims@[0]);
            let y = column_of(patch_origin_cells@[1], patch_cells, lod, gy, item.dims@[1]);
            &&& 0 <= y * cpu.x.samples + x < cpu.heights@.len()
            &&& same(vertex.position@[2], cpu.heights@[y * cpu.x.samples + x])
        }),
        cpu.x.samples == item.dims@[0] && cpu.y.samples == item.dims@[1],
        cpu.x.start == item.origin.x && cpu.y.start == item.origin.y,
        cpu.x.extent == item.world_size@[0] && cpu.y.extent == item.world_size@[1],
{
    lemma_same_grid(patch_cells, lod);
    let cells = side(patch_cells, lod);
    lemma_vertex_place(cells, gx, gy);
    let vertex = mesh.vertices@[gy * (cells + 1) + gx];
    lemma_reach(patch_origin_cells@[0], patch_cells, lod, gx, item.dims@[0]);
    lemma_reach(patch_origin_cells@[1], patch_cells, lod, gy, item.dims@[1]);
    let site = crate::mesh::site_of(item, patch_origin_cells, patch_cells, lod, gx, gy);
    assert(crate::mesh::is_vertex(math, item.placement(), site, vertex));
    let (w, h) = (item.dims@[0] as int, item.dims@[1] as int);
    let x = column_of(patch_origin_cells@[0], patch_cells, lod, gx, item.dims@[0]);
    let y = column_of(patch_origin_cells@[1], patch_cells, lod, gy, item.dims@[1]);
    assert(0 <= y * w + x < w * h) by (nonlinear_arith)
        requires
            0 <= x < w,
            0 <= y < h,
    ;
    assert(call_ensures(
        M::height,
        (math, item.placement(), item.samples()[y * w + x]),
        cpu.heights@[y * w + x],
    ));
}

} // verus!
