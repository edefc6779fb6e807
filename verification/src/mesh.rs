//! Heightmap -> patch mesh builder.
//!
//! Each terrain is subdivided into a regular grid of patches; each patch is
//! baked at multiple levels of detail (decimation factors 1x, 2x, 4x, ...)
//! and the renderer picks one level per frame by camera distance.
//!
//! Patches include a skirt: a ring of duplicated perimeter vertices dropped
//! along -Z. The skirt fills cracks where a fine patch meets a coarser
//! neighbour with a different vertex along their shared edge.
use crate::item::{GridFrame, TerrainItem};
use crate::scalar::{Scalar, Vec2, Vec3, INFINITY, NEG_INFINITY, ZERO};
use crate::trusted::bytes_of_words;
use vstd::arithmetic::div_mod::*;
use vstd::arithmetic::mul::*;
use vstd::arithmetic::power2::*;
use vstd::prelude::*;

verus! {

/// Levels of detail beyond this one decimate no further.
pub const COARSEST_LOD: u32 = 8;

/// Number of heightmap cells between two neighbouring vertices at a level of
/// detail.
pub open spec fn lod_step(lod: u32) -> nat {
    pow2(
        if lod < COARSEST_LOD {
            lod as nat
        } else {
            COARSEST_LOD as nat
        },
    )
}

/// Number of mesh cells per side of a patch at a level of detail: at least
/// one.
pub open spec fn cells_per_side(patch_cells: u32, lod: u32) -> nat {
    if patch_cells as nat / lod_step(lod) >= 1 {
        patch_cells as nat / lod_step(lod)
    } else {
        1
    }
}

/// The index of the vertex in column `x` and row `y` of a grid with `cells`
/// cells per side.
pub open spec fn vertex_index(cells: nat, x: int, y: int) -> int {
    y * (cells + 1) + x
}

/// The `k`-th index of the two triangles per cell, cell by cell in row-major
/// order: (00, 10, 11) and (00, 11, 01).
pub open spec fn grid_corner(cells: nat, k: int) -> int {
    let cell = k / 6;
    let corner = k % 6;
    let x = cell % (cells as int);
    let y = cell / (cells as int);
    let right: int = if corner == 1 || corner == 2 || corner == 4 { 1 } else { 0 };
    let up: int = if corner == 2 || corner == 4 || corner == 5 { 1 } else { 0 };
    vertex_index(cells, x + right, y + up)
}

/// The `i`-th vertex on the perimeter of the grid, counted from (0, 0) along
/// the bottom row, the right column, back along the top row and down the left
/// column.
pub open spec fn perimeter_vertex(cells: nat, i: int) -> int {
    if i < cells {
        vertex_index(cells, i, 0)
    } else if i < 2 * cells {
        vertex_index(cells, cells as int, i - cells)
    } else if i < 3 * cells {
        vertex_index(cells, 3 * cells - i, cells as int)
    } else {
        vertex_index(cells, 0, 4 * cells - i)
    }
}

/// The `k`-th index of the skirt: two triangles per perimeter edge, between
/// the perimeter vertices and their dropped copies, which start at `base`.
pub open spec fn skirt_corner(cells: nat, base: int, k: int) -> int {
    let edge = k / 6;
    let corner = k % 6;
    let next = if edge + 1 == 4 * cells { 0 } else { edge + 1 };
    if corner == 0 {
        perimeter_vertex(cells, edge)
    } else if corner == 2 || corner == 3 {
        perimeter_vertex(cells, next)
    } else if corner == 1 || corner == 4 {
        base + edge
    } else {
        base + next
    }
}

/// The indices of the grid of a patch.
pub open spec fn grid_indices(cells: nat) -> Seq<u32> {
    Seq::new(6 * (cells * cells), |k: int| grid_corner(cells, k) as u32)
}

/// The indices of the skirt of a patch.
pub open spec fn skirt_indices(cells: nat) -> Seq<u32> {
    Seq::new(
        6 * (4 * cells),
        |k: int| skirt_corner(cells, ((cells + 1) * (cells + 1)) as int, k) as u32,
    )
}

/// The number of vertices of a patch.
pub open spec fn vertex_total(cells: nat, skirt: bool) -> nat {
    if skirt {
        (cells + 1) * (cells + 1) + 4 * cells
    } else {
        (cells + 1) * (cells + 1)
    }
}

/// A row-major position splits back into its column and its row.
proof fn lemma_row_major(width: int, x: int, y: int)
    requires
        0 <= x < width,
        0 <= y,
    ensures
        (y * width + x) / width == y,
        (y * width + x) % width == x,
{
    lemma_fundamental_div_mod_converse(y * width + x, width, y, x);
}

/// The vertices of a grid have distinct indices below their number.
proof fn lemma_vertex_index_range(cells: nat, x: int, y: int)
    requires
        0 <= x <= cells,
        0 <= y <= cells,
    ensures
        0 <= vertex_index(cells, x, y) < (cells + 1) * (cells + 1),
        vertex_index(cells, x, y) % (cells + 1) as int == x,
        vertex_index(cells, x, y) / (cells + 1) as int == y,
{
    lemma_row_major((cells + 1) as int, x, y);
    assert(0 <= y * (cells + 1) && y * (cells + 1) + x < (cells + 1) * (cells + 1)) by (nonlinear_arith)
        requires
            0 <= x <= cells,
            0 <= y <= cells,
    ;
}

/// Number of heightmap cells between two neighbouring vertices.
fn step_of(lod: u32) -> (step: u32)
    ensures
        step == lod_step(lod),
        1 <= step <= 256,
{
    let level: u32 = if lod < COARSEST_LOD { lod } else { COARSEST_LOD };
    proof {
        lemma2_to64();
        lemma_pow2_pos(level as nat);
        if level < 8 {
            lemma_pow2_strictly_increases(level as nat, 8);
        }
        vstd::bits::lemma_u32_shl_is_mul(1, level);
    }
    1u32 << level
}

/// Walk the perimeter of the (cells+1) x (cells+1) grid from (0, 0) and
/// return the vertex indices.
pub fn collect_perimeter(cells: u32) -> (ring: Vec<u32>)
    requires
        (cells + 1) * (cells + 1) <= u32::MAX,
    ensures
        ring@.len() == 4 * cells,
        forall|i: int|
            0 <= i < 4 * cells ==> #[trigger] ring@[i] == perimeter_vertex(cells as nat, i),
{
    proof {
        assert(cells < 0x1_0000) by (nonlinear_arith)
            requires
                (cells + 1) * (cells + 1) <= u32::MAX,
        ;
    }
    let row: u32 = cells + 1;
    let mut out: Vec<u32> = Vec::with_capacity((cells * 4) as usize);
    let mut x: u32 = 0;
    while x < cells
        invariant
            x <= cells,
            out@.len() == x,
            forall|i: int| 0 <= i < x ==> #[trigger] out@[i] == perimeter_vertex(cells as nat, i),
        decreases cells - x,
    {
        assert(vertex_index(cells as nat, x as int, 0) == x) by (nonlinear_arith);
        out.push(x);
        x = x + 1;
    }
    let mut y: u32 = 0;
    while y < cells
        invariant
            y <= cells < 0x1_0000,
            row == cells + 1,
            row * row <= u32::MAX,
            out@.len() == cells + y,
            forall|i: int|
                0 <= i < cells + y ==> #[trigger] out@[i] == perimeter_vertex(cells as nat, i),
        decreases cells - y,
    {
        proof {
            lemma_vertex_index_range(cells as nat, cells as int, y as int);
        }
        out.push(y * row + cells);
        y = y + 1;
    }
    let mut x: u32 = cells;
    while x > 0
        invariant
            x <= cells < 0x1_0000,
            row == cells + 1,
            row * row <= u32::MAX,
            out@.len() == 3 * cells - x,
            forall|i: int|
                0 <= i < 3 * cells - x ==> #[trigger] out@[i] == perimeter_vertex(cells as nat, i),
        decreases x,
    {
        proof {
            lemma_vertex_index_range(cells as nat, x as int, cells as int);
        }
        out.push(cells * row + x);
        x = x - 1;
    }
    let mut y: u32 = cells;
    while y > 0
        invariant
            y <= cells < 0x1_0000,
            row == cells + 1,
            row * row <= u32::MAX,
            out@.len() == 4 * cells - y,
            forall|i: int|
                0 <= i < 4 * cells - y ==> #[trigger] out@[i] == perimeter_vertex(cells as nat, i),
        decreases y,
    {
        proof {
            lemma_vertex_index_range(cells as nat, 0, y as int);
        }
        out.push(y * row);
        y = y - 1;
    }
    out
}

/// The triangles of the grid of a patch.
fn grid_triangles(cells: u32) -> (indices: Vec<u32>)
    requires
        1 <= cells,
        (cells + 1) * (cells + 1) <= u32::MAX,
    ensures
        indices@ == grid_indices(cells as nat),
{
    proof {
        assert(cells < 0x1_0000) by (nonlinear_arith)
            requires
                (cells + 1) * (cells + 1) <= u32::MAX,
        ;
    }
    let row: u32 = cells + 1;
    let mut indices: Vec<u32> = Vec::new();
    let mut y: u32 = 0;
    while y < cells
        invariant
            1 <= cells < 0x1_0000,
            y <= cells,
            row == cells + 1,
            row * row <= u32::MAX,
            indices@.len() == 6 * (y * cells),
            forall|k: int|
                0 <= k < indices@.len() ==> #[trigger] indices@[k] == grid_corner(cells as nat, k),
        decreases cells - y,
    {
        let mut x: u32 = 0;
        while x < cells
            invariant
                1 <= cells < 0x1_0000,
                x <= cells,
                y < cells,
                row == cells + 1,
                row * row <= u32::MAX,
                indices@.len() == 6 * (y * cells + x),
                forall|k: int|
                    0 <= k < indices@.len() ==> #[trigger] indices@[k] == grid_corner(
                        cells as nat,
                        k,
                    ),
            decreases cells - x,
        {
            let ghost before = indices@;
            let ghost cell = y * cells + x;
            proof {
                lemma_vertex_index_range(cells as nat, x as int, y as int);
                lemma_vertex_index_range(cells as nat, x + 1, y as int);
                lemma_vertex_index_range(cells as nat, x as int, y + 1);
                lemma_vertex_index_range(cells as nat, x + 1, y + 1);
                lemma_row_major(cells as int, x as int, y as int);
            }
            let i00: u32 = y * row + x;
            let i10: u32 = i00 + 1;
            let i01: u32 = (y + 1) * row + x;
            let i11: u32 = i01 + 1;
            indices.push(i00);
            indices.push(i10);
            indices.push(i11);
            indices.push(i00);
            indices.push(i11);
            indices.push(i01);
            proof {
                assert forall|k: int| 0 <= k < indices@.len() implies #[trigger] indices@[k]
                    == grid_corner(cells as nat, k) by {
                    if k < before.len() {
                        assert(indices@[k] == before[k]);
                    } else {
                        assert(k / 6 == cell);
                        assert(k % 6 == k - 6 * cell);
                    }
                }
            }
            x = x + 1;
        }
        proof {
            lemma_mul_is_distributive_add_other_way(cells as int, y as int, 1);
        }
        y = y + 1;
    }
    assert(indices@ =~= grid_indices(cells as nat));
    indices
}

/// Append the triangles of the skirt that hangs from the perimeter `ring`,
/// the dropped copies of which start at vertex `base`.
fn skirt_triangles(cells: u32, ring: &Vec<u32>, base: u32, indices: &mut Vec<u32>)
    requires
        1 <= cells,
        (cells + 1) * (cells + 1) + 4 * cells <= u32::MAX,
        base == (cells + 1) * (cells + 1),
        ring@.len() == 4 * cells,
        forall|i: int|
            0 <= i < 4 * cells ==> #[trigger] ring@[i] == perimeter_vertex(cells as nat, i),
    ensures
        final(indices)@ == old(indices)@ + skirt_indices(cells as nat),
{
    proof {
        assert(cells < 0x1_0000) by (nonlinear_arith)
            requires
                (cells + 1) * (cells + 1) + 4 * cells <= u32::MAX,
        ;
    }
    let edges: u32 = 4 * cells;
    let mut edge: u32 = 0;
    let ghost old_len = indices@.len();
    while edge < edges
        invariant
            1 <= cells < 0x1_0000,
            edge <= edges,
            edges == 4 * cells,
            base + edges <= u32::MAX,
            base == (cells + 1) * (cells + 1),
            ring@.len() == 4 * cells,
            forall|i: int|
                0 <= i < 4 * cells ==> #[trigger] ring@[i] == perimeter_vertex(cells as nat, i),
            old_len == old(indices)@.len(),
            indices@.len() == old_len + 6 * edge,
            forall|k: int| 0 <= k < old_len ==> #[trigger] indices@[k] == old(indices)@[k],
            forall|k: int|
                old_len <= k < indices@.len() ==> #[trigger] indices@[k] == skirt_corner(
                    cells as nat,
                    base as int,
                    k - old_len,
                ),
        decreases edges - edge,
    {
        let ghost before = indices@;
        let next: u32 = if edge + 1 == edges { 0 } else { edge + 1 };
        let t0: u32 = ring[edge as usize];
        let t1: u32 = ring[next as usize];
        let b0: u32 = base + edge;
        let b1: u32 = base + next;
        indices.push(t0);
        indices.push(b0);
        indices.push(t1);
        indices.push(t1);
        indices.push(b0);
        indices.push(b1);
        proof {
            assert forall|k: int| old_len <= k < indices@.len() implies #[trigger] indices@[k]
                == skirt_corner(cells as nat, base as int, k - old_len) by {
                if k < before.len() {
                    assert(indices@[k] == before[k]);
                } else {
                    assert((k - old_len) / 6 == edge as int);
                    assert((k - old_len) % 6 == k - old_len - 6 * edge);
                }
            }
            assert forall|k: int| 0 <= k < old_len implies #[trigger] indices@[k] == old(
                indices,
            )@[k] by {
                assert(indices@[k] == before[k]);
            }
        }
        edge = edge + 1;
    }
    assert(indices@ =~= old(indices)@ + skirt_indices(cells as nat));
}

/// Interleaved vertex: position, normal and texture coordinate.
#[derive(Clone, Copy, PartialEq, Eq, Debug)]
pub struct TerrainVertex {
    pub position: [Scalar; 3],
    pub normal: [Scalar; 3],
    pub uv: [Scalar; 2],
}

/// A cell of the heightmap.
#[derive(Clone, Copy, PartialEq, Eq, Debug, Structural)]
pub struct Cell {
    pub x: i32,
    pub y: i32,
}

/// What the heightmap says about one vertex: its cell, the distance to the
/// neighbouring vertices in cells, and the samples there.
#[derive(Clone, Copy, PartialEq, Eq, Debug, Structural)]
pub struct VertexSite {
    pub cell: Cell,
    pub step: u32,
    pub centre: u16,
    pub east: u16,
    pub west: u16,
    pub north: u16,
    pub south: u16,
}

/// The floating-point formulas of the mesh builder, on bit patterns.
///
/// Nothing is assumed of them: what is stated of a mesh holds whatever they
/// return, and says which formula was applied to what.
pub trait MeshMath {
    /// World-space position of the lower-left corner of a cell.
    fn corner(&self, frame: GridFrame, cell: Cell) -> Vec2;

    /// World-space height of a vertex on a heightmap sample.
    fn elevation(&self, frame: GridFrame, sample: u16) -> Scalar;

    /// Texture coordinate of a vertex above a position.
    fn texture(&self, frame: GridFrame, corner: Vec2) -> Vec2;

    /// Normal of the vertex at a site, from central differences.
    fn normal(&self, frame: GridFrame, site: VertexSite) -> Vec3;

    /// A height lowered by a depth.
    fn lower(&self, height: Scalar, depth: Scalar) -> Scalar;

    /// World-space height of a heightmap sample.
    fn height(&self, frame: GridFrame, sample: u16) -> Scalar;
}

/// One level of detail of one patch.
pub struct PatchMesh {
    pub vertices: Vec<TerrainVertex>,
    pub indices: Vec<u32>,
    pub aabb_min: Vec3,
    pub aabb_max: Vec3,
}

/// A cell coordinate limited to a heightmap with `count` samples along it.
pub open spec fn clamped(coordinate: int, count: u32) -> int {
    if coordinate < 0 {
        0
    } else if coordinate > count - 1 {
        count - 1
    } else {
        coordinate
    }
}

/// The position in the heightmap of the sample at a cell, or of the nearest
/// one where the cell lies outside.
pub open spec fn sample_index(dims: [u32; 2], x: int, y: int) -> int {
    clamped(y, dims@[1]) * dims@[0] + clamped(x, dims@[0])
}

/// A cell clipped to the heightmap.
pub open spec fn clipped_cell(item: &TerrainItem, x: int, y: int) -> Cell {
    Cell { x: clamped(x, item.dims@[0]) as i32, y: clamped(y, item.dims@[1]) as i32 }
}

/// The sample at a cell, or the nearest one where the cell lies outside.
pub open spec fn sample_at(item: &TerrainItem, x: int, y: int) -> u16 {
    item.samples()[sample_index(item.dims, x, y)]
}

/// How many heightmap cells into a patch its vertex column (or row) `g` lies.
/// The last one lies on the far edge of the patch, whatever the distance
/// between vertices.
pub open spec fn grid_offset(patch_cells: u32, lod: u32, g: int) -> int {
    if g == cells_per_side(patch_cells, lod) {
        patch_cells as int
    } else {
        g * lod_step(lod)
    }
}

/// The site of the vertex in column `gx` and row `gy` of a patch, clipped to
/// the heightmap.
pub open spec fn site_of(
    item: &TerrainItem,
    patch_origin_cells: [u32; 2],
    patch_cells: u32,
    lod: u32,
    gx: int,
    gy: int,
) -> VertexSite {
    let step = lod_step(lod);
    let x = clamped(
        patch_origin_cells@[0] + grid_offset(patch_cells, lod, gx),
        item.dims@[0],
    );
    let y = clamped(
        patch_origin_cells@[1] + grid_offset(patch_cells, lod, gy),
        item.dims@[1],
    );
    VertexSite {
        cell: Cell { x: x as i32, y: y as i32 },
        step: step as u32,
        centre: sample_at(item, x, y),
        east: sample_at(item, x + step, y),
        west: sample_at(item, x - step, y),
        north: sample_at(item, x, y + step),
        south: sample_at(item, x, y - step),
    }
}

/// Whether the heightmap is large enough, and the numbers small enough, for
/// one patch at one level of detail: every sample that it looks at exists,
/// its cells fit in an `i32` and its vertex indices in a `u32`.
pub open spec fn patch_fits(
    item: &TerrainItem,
    patch_origin_cells: [u32; 2],
    patch_cells: u32,
    lod: u32,
    skirt: bool,
) -> bool {
    let step = lod_step(lod);
    let cells = cells_per_side(patch_cells, lod);
    let x = patch_origin_cells@[0] + patch_cells;
    let y = patch_origin_cells@[1] + patch_cells;
    &&& 2 <= item.dims@[0] <= i32::MAX
    &&& 2 <= item.dims@[1] <= i32::MAX
    &&& x + step <= i32::MAX
    &&& y + step <= i32::MAX
    &&& sample_index(item.dims, x + step, y) < item.samples().len()
    &&& sample_index(item.dims, x, y + step) < item.samples().len()
    &&& vertex_total(cells, skirt) <= u32::MAX
}

/// The lowest height among the first `count` vertices.
pub open spec fn lowest(vertices: Seq<TerrainVertex>, count: int) -> Scalar
    decreases count,
{
    if count <= 0 {
        Scalar { bits: INFINITY }
    } else {
        lowest(vertices, count - 1).smaller(vertices[count - 1].position@[2])
    }
}

/// The highest height among the first `count` vertices.
pub open spec fn highest(vertices: Seq<TerrainVertex>, count: int) -> Scalar
    decreases count,
{
    if count <= 0 {
        Scalar { bits: NEG_INFINITY }
    } else {
        highest(vertices, count - 1).larger(vertices[count - 1].position@[2])
    }
}

/// Whether `vertex` is the vertex at a site. Its place depends on the cell and
/// the sample there alone, its texture coordinate on the cell alone.
pub open spec fn is_vertex<M: MeshMath>(
    math: &M,
    frame: GridFrame,
    site: VertexSite,
    vertex: TerrainVertex,
) -> bool {
    let ground = Vec2 { x: vertex.position@[0], y: vertex.position@[1] };
    let facing = Vec3 { x: vertex.normal@[0], y: vertex.normal@[1], z: vertex.normal@[2] };
    &&& call_ensures(M::corner, (math, frame, site.cell), ground)
    &&& call_ensures(M::elevation, (math, frame, site.centre), vertex.position@[2])
    &&& call_ensures(
        M::texture,
        (math, frame, ground),
        Vec2 { x: vertex.uv@[0], y: vertex.uv@[1] },
    )
    &&& call_ensures(M::normal, (math, frame, site), facing)
}

/// Whether `bottom` is the vertex `top` lowered by `depth`.
pub open spec fn hangs_below<M: MeshMath>(
    math: &M,
    top: TerrainVertex,
    depth: Scalar,
    bottom: TerrainVertex,
) -> bool {
    &&& bottom.position@[0] == top.position@[0]
    &&& bottom.position@[1] == top.position@[1]
    &&& call_ensures(M::lower, (math, top.position@[2], depth), bottom.position@[2])
    &&& bottom.normal == top.normal
    &&& bottom.uv == top.uv
}

/// Whether `mesh` is the mesh of a patch at a level of detail.
pub open spec fn is_patch_mesh<M: MeshMath>(
    math: &M,
    item: &TerrainItem,
    patch_origin_cells: [u32; 2],
    patch_cells: u32,
    lod: u32,
    skirt_depth: Scalar,
    mesh: PatchMesh,
) -> bool {
    let cells = cells_per_side(patch_cells, lod);
    let main = vertex_total(cells, false) as int;
    let skirt = (Scalar { bits: ZERO }).below(skirt_depth);
    let ox = patch_origin_cells@[0];
    let oy = patch_origin_cells@[1];
    &&& mesh.vertices@.len() == vertex_total(cells, skirt)
    &&& forall|k: int|
        0 <= k < main ==> is_vertex(
            math,
            item.placement(),
            site_of(
                item,
                patch_origin_cells,
                patch_cells,
                lod,
                k % (cells + 1) as int,
                k / (cells + 1) as int,
            ),
            #[trigger] mesh.vertices@[k],
        )
    &&& forall|k: int|
        main <= k < mesh.vertices@.len() ==> hangs_below(
            math,
            mesh.vertices@[perimeter_vertex(cells, k - main)],
            skirt_depth,
            #[trigger] mesh.vertices@[k],
        )
    &&& mesh.indices@ == if skirt {
        grid_indices(cells) + skirt_indices(cells)
    } else {
        grid_indices(cells)
    }
    &&& call_ensures(
        M::corner,
        (math, item.placement(), clipped_cell(item, ox as int, oy as int)),
        Vec2 { x: mesh.aabb_min.x, y: mesh.aabb_min.y },
    )
    &&& call_ensures(
        M::corner,
        (math, item.placement(), clipped_cell(item, ox + patch_cells, oy + patch_cells)),
        Vec2 { x: mesh.aabb_max.x, y: mesh.aabb_max.y },
    )
    &&& if skirt {
        call_ensures(
            M::lower,
            (math, lowest(mesh.vertices@, main), skirt_depth),
            mesh.aabb_min.z,
        )
    } else {
        mesh.aabb_min.z == lowest(mesh.vertices@, main)
    }
    &&& mesh.aabb_max.z == highest(mesh.vertices@, main)
}

/// Samples further along a heightmap lie at later positions.
proof fn lemma_sample_index_monotone(dims: [u32; 2], x: int, y: int, far_x: int, far_y: int)
    requires
        1 <= dims@[0],
        1 <= dims@[1],
        x <= far_x,
        y <= far_y,
    ensures
        0 <= sample_index(dims, x, y) <= sample_index(dims, far_x, far_y),
        sample_index(dims, far_x, far_y) < dims@[0] * dims@[1],
{
    let w = dims@[0] as int;
    let h = dims@[1] as int;
    let near_row = clamped(y, dims@[1]);
    let far_row = clamped(far_y, dims@[1]);
    let far_column = clamped(far_x, dims@[0]);
    assert(0 <= near_row * w <= far_row * w) by (nonlinear_arith)
        requires
            0 <= near_row <= far_row,
            1 <= w,
    ;
    assert(far_row * w + far_column < w * h) by (nonlinear_arith)
        requires
            0 <= far_row <= h - 1,
            0 <= far_column < w,
    ;
}

/// Clip a cell coordinate to a heightmap with `count` samples along it.
fn clip(coordinate: i32, count: u32) -> (clipped: i32)
    requires
        1 <= count <= i32::MAX,
    ensures
        clipped == clamped(coordinate as int, count),
        0 <= clipped < count,
{
    let last: i32 = (count - 1) as i32;
    if coordinate < 0 {
        0
    } else if coordinate > last {
        last
    } else {
        coordinate
    }
}

/// The sample at a cell, or the nearest one where the cell lies outside.
fn sample(item: &TerrainItem, x: i32, y: i32) -> (sample: u16)
    requires
        1 <= item.dims@[0] <= i32::MAX,
        1 <= item.dims@[1] <= i32::MAX,
        sample_index(item.dims, x as int, y as int) < item.samples().len(),
    ensures
        sample == sample_at(item, x as int, y as int),
{
    let column: usize = clip(x, item.dims[0]) as usize;
    let row: usize = clip(y, item.dims[1]) as usize;
    let count: usize = item.heightmap.len();
    proof {
        assert(item.samples().len() == count);
        lemma_sample_index_monotone(item.dims, x as int, y as int, x as int, y as int);
        let w = item.dims@[0] as int;
        assert(0 <= row * w <= row * w + column) by (nonlinear_arith)
            requires
                0 <= row,
                0 <= column,
                1 <= w,
        ;
    }
    item.heightmap[row * (item.dims[0] as usize) + column]
}

/// Every vertex column of a patch lies within the patch.
proof fn lemma_offset_within_patch(patch_cells: u32, lod: u32, g: int)
    requires
        0 <= g <= cells_per_side(patch_cells, lod),
    ensures
        0 <= grid_offset(patch_cells, lod, g) <= patch_cells,
        g < cells_per_side(patch_cells, lod) ==> grid_offset(patch_cells, lod, g) == g * lod_step(
            lod,
        ),
{
    let step = lod_step(lod) as int;
    lemma_step_range(lod);
    let quotient = patch_cells as int / step;
    lemma_fundamental_div_mod(patch_cells as int, step);
    if g < cells_per_side(patch_cells, lod) {
        assert(0 <= g * step <= patch_cells) by (nonlinear_arith)
            requires
                patch_cells == step * quotient + patch_cells as int % step,
                0 <= patch_cells as int % step,
                g == 0 || g < quotient,
                0 <= g,
                step >= 1,
        ;
    }
}

/// The distance between two vertices is between one cell and 256.
pub(crate) proof fn lemma_step_range(lod: u32)
    ensures
        1 <= lod_step(lod) <= 256,
{
    lemma2_to64();
    let level = if lod < COARSEST_LOD {
        lod as nat
    } else {
        COARSEST_LOD as nat
    };
    lemma_pow2_pos(level);
    if lod < COARSEST_LOD {
        lemma_pow2_strictly_increases(lod as nat, COARSEST_LOD as nat);
    }
}

/// The main vertices of a patch, row by row.
fn grid_vertices<M: MeshMath>(
    math: &M,
    item: &TerrainItem,
    patch_origin_cells: [u32; 2],
    patch_cells: u32,
    lod: u32,
    step: u32,
    cells: u32,
) -> (vertices: Vec<TerrainVertex>)
    requires
        patch_fits(item, patch_origin_cells, patch_cells, lod, false),
        step == lod_step(lod),
        cells == cells_per_side(patch_cells, lod),
    ensures
        vertices@.len() == (cells + 1) * (cells + 1),
        forall|k: int|
            0 <= k < vertices@.len() ==> is_vertex(
                math,
                item.placement(),
                site_of(
                    item,
                    patch_origin_cells,
                    patch_cells,
                    lod,
                    k % (cells + 1),
                    k / (cells + 1),
                ),
                #[trigger] vertices@[k],
            ),
{
    let frame = item.frame();
    let ox: u32 = patch_origin_cells[0];
    let oy: u32 = patch_origin_cells[1];
    proof {
        assert(cells < 0x1_0000) by (nonlinear_arith)
            requires
                (cells + 1) * (cells + 1) <= u32::MAX,
        ;
    }
    let mut vertices: Vec<TerrainVertex> = Vec::new();
    let mut gy: u32 = 0;
    while gy <= cells
        invariant
            gy <= cells + 1,
            cells < 0x1_0000,
            patch_fits(item, patch_origin_cells, patch_cells, lod, false),
            step == lod_step(lod),
            cells == cells_per_side(patch_cells, lod),
            frame == item.placement(),
            ox == patch_origin_cells@[0],
            oy == patch_origin_cells@[1],
            vertices@.len() == gy * (cells + 1),
            forall|k: int|
                0 <= k < vertices@.len() ==> is_vertex(
                    math,
                    item.placement(),
                    site_of(
                        item,
                        patch_origin_cells,
                        patch_cells,
                        lod,
                        k % (cells + 1),
                        k / (cells + 1),
                    ),
                    #[trigger] vertices@[k],
                ),
        decreases cells + 1 - gy,
    {
        let mut gx: u32 = 0;
        while gx <= cells
            invariant
                gx <= cells + 1,
                gy <= cells < 0x1_0000,
                patch_fits(item, patch_origin_cells, patch_cells, lod, false),
                step == lod_step(lod),
                cells == cells_per_side(patch_cells, lod),
                frame == item.placement(),
                ox == patch_origin_cells@[0],
                oy == patch_origin_cells@[1],
                vertices@.len() == gy * (cells + 1) + gx,
                forall|k: int|
                    0 <= k < vertices@.len() ==> is_vertex(
                        math,
                        item.placement(),
                        site_of(
                            item,
                            patch_origin_cells,
                            patch_cells,
                            lod,
                            k % (cells + 1),
                            k / (cells + 1),
                        ),
                        #[trigger] vertices@[k],
                    ),
            decreases cells + 1 - gx,
        {
            proof {
                lemma_offset_within_patch(patch_cells, lod, gx as int);
                lemma_offset_within_patch(patch_cells, lod, gy as int);
                let far_x = ox + patch_cells;
                let far_y = oy + patch_cells;
                let x = clamped(ox + grid_offset(patch_cells, lod, gx as int), item.dims@[0]);
                let y = clamped(oy + grid_offset(patch_cells, lod, gy as int), item.dims@[1]);
                lemma_sample_index_monotone(item.dims, x, y, far_x + step, far_y);
                lemma_sample_index_monotone(item.dims, x + step, y, far_x + step, far_y);
                lemma_sample_index_monotone(item.dims, x - step, y, far_x + step, far_y);
                lemma_sample_index_monotone(item.dims, x, y + step, far_x, far_y + step);
                lemma_sample_index_monotone(item.dims, x, y - step, far_x, far_y + step);
                lemma_row_major(cells + 1, gx as int, gy as int);
            }
            let into_x: u32 = if gx == cells { patch_cells } else { gx * step };
            let into_y: u32 = if gy == cells { patch_cells } else { gy * step };
            let x: i32 = clip((ox + into_x) as i32, item.dims[0]);
            let y: i32 = clip((oy + into_y) as i32, item.dims[1]);
            let reach: i32 = step as i32;
            let site = VertexSite {
                cell: Cell { x, y },
                step,
                centre: sample(item, x, y),
                east: sample(item, x + reach, y),
                west: sample(item, x - reach, y),
                north: sample(item, x, y + reach),
                south: sample(item, x, y - reach),
            };
            assert(site == site_of(
                item,
                patch_origin_cells,
                patch_cells,
                lod,
                gx as int,
                gy as int,
            ));
            let ground = math.corner(frame, site.cell);
            let z = math.elevation(frame, site.centre);
            let uv = math.texture(frame, ground);
            let facing = math.normal(frame, site);
            let vertex = TerrainVertex {
                position: [ground.x, ground.y, z],
                normal: [facing.x, facing.y, facing.z],
                uv: [uv.x, uv.y],
            };
            assert(is_vertex(math, item.placement(), site, vertex));
            vertices.push(vertex);
            gx = gx + 1;
        }
        proof {
            lemma_mul_is_distributive_add_other_way(cells + 1, gy as int, 1);
        }
        gy = gy + 1;
    }
    vertices
}

/// The lowest and the highest height depend on the vertices that are counted
/// only.
proof fn lemma_span_of_prefix(a: Seq<TerrainVertex>, b: Seq<TerrainVertex>, count: int)
    requires
        forall|k: int| 0 <= k < count ==> #[trigger] a[k] == b[k],
    ensures
        lowest(a, count) == lowest(b, count),
        highest(a, count) == highest(b, count),
    decreases count,
{
    if count > 0 {
        lemma_span_of_prefix(a, b, count - 1);
        assert(a[count - 1] == b[count - 1]);
    }
}

/// The lowest and the highest height of a run of vertices.
fn height_span(vertices: &Vec<TerrainVertex>) -> (span: (Scalar, Scalar))
    ensures
        span.0 == lowest(vertices@, vertices@.len() as int),
        span.1 == highest(vertices@, vertices@.len() as int),
{
    let mut low = Scalar { bits: INFINITY };
    let mut high = Scalar { bits: NEG_INFINITY };
    let mut k: usize = 0;
    while k < vertices.len()
        invariant
            k <= vertices@.len(),
            low == lowest(vertices@, k as int),
            high == highest(vertices@, k as int),
        decreases vertices@.len() - k,
    {
        let z = vertices[k].position[2];
        low = low.min(z);
        high = high.max(z);
        k = k + 1;
    }
    (low, high)
}

/// Build one level of detail of one patch.
///
/// `patch_origin_cells` is the patch's lower-left corner in heightmap cell
/// coordinates (not world). `patch_cells` is the patch size at the finest
/// level in cells per side. Adjacent patches overlap by one row/column of
/// heightmap samples so the base meshes are watertight when neighbours pick
/// the same level. A patch that reaches beyond the heightmap is clipped to fit.
pub fn build_patch<M: MeshMath>(
    item: &TerrainItem,
    patch_origin_cells: [u32; 2],
    patch_cells: u32,
    lod: u32,
    skirt_depth: Scalar,
    math: &M,
) -> (mesh: PatchMesh)
    requires
        patch_fits(
            item,
            patch_origin_cells,
            patch_cells,
            lod,
            (Scalar { bits: ZERO }).below(skirt_depth),
        ),
    ensures
        is_patch_mesh(math, item, patch_origin_cells, patch_cells, lod, skirt_depth, mesh),
{
    let step: u32 = step_of(lod);
    let quotient: u32 = patch_cells / step;
    let cells: u32 = if quotient >= 1 { quotient } else { 1 };
    let mut vertices = grid_vertices(
        math,
        item,
        patch_origin_cells,
        patch_cells,
        lod,
        step,
        cells,
    );
    let ghost main = vertices@;
    let (mut z_lo, z_hi) = height_span(&vertices);
    let mut indices = grid_triangles(cells);
    let skirt: bool = (Scalar { bits: ZERO }).lt(skirt_depth);
    if skirt {
        let ring = collect_perimeter(cells);
        let base: u32 = vertices.len() as u32;
        let mut i: usize = 0;
        while i < ring.len()
            invariant
                1 <= cells,
                i <= ring@.len(),
                ring@.len() == 4 * cells,
                main.len() == (cells + 1) * (cells + 1),
                forall|j: int|
                    0 <= j < 4 * cells ==> #[trigger] ring@[j] == perimeter_vertex(cells as nat, j),
                vertices@.len() == main.len() + i,
                forall|k: int| 0 <= k < main.len() ==> #[trigger] vertices@[k] == main[k],
                forall|k: int|
                    main.len() <= k < vertices@.len() ==> hangs_below(
                        math,
                        main[perimeter_vertex(cells as nat, k - main.len())],
                        skirt_depth,
                        #[trigger] vertices@[k],
                    ),
            decreases ring@.len() - i,
        {
            proof {
                lemma_perimeter_in_grid(cells as nat, i as int);
            }
            let top = vertices[ring[i] as usize];
            let z = math.lower(top.position[2], skirt_depth);
            let bottom = TerrainVertex {
                position: [top.position[0], top.position[1], z],
                normal: top.normal,
                uv: top.uv,
            };
            vertices.push(bottom);
            i = i + 1;
        }
        skirt_triangles(cells, &ring, base, &mut indices);
        z_lo = math.lower(z_lo, skirt_depth);
        proof {
            assert forall|k: int| main.len() <= k < vertices@.len() implies hangs_below(
                math,
                vertices@[perimeter_vertex(cells as nat, k - main.len())],
                skirt_depth,
                #[trigger] vertices@[k],
            ) by {
                lemma_perimeter_in_grid(cells as nat, k - main.len());
            }
        }
    }
    proof {
        lemma_span_of_prefix(main, vertices@, main.len() as int);
    }
    let frame = item.frame();
    let near = math.corner(
        frame,
        Cell {
            x: clip(patch_origin_cells[0] as i32, item.dims[0]),
            y: clip(patch_origin_cells[1] as i32, item.dims[1]),
        },
    );
    let far = math.corner(
        frame,
        Cell {
            x: clip((patch_origin_cells[0] + patch_cells) as i32, item.dims[0]),
            y: clip((patch_origin_cells[1] + patch_cells) as i32, item.dims[1]),
        },
    );
    PatchMesh {
        vertices,
        indices,
        aabb_min: Vec3 { x: near.x, y: near.y, z: z_lo },
        aabb_max: Vec3 { x: far.x, y: far.y, z: z_hi },
    }
}

/// The vertices on the perimeter are vertices of the grid.
proof fn lemma_perimeter_in_grid(cells: nat, i: int)
    requires
        0 <= i < 4 * cells,
    ensures
        0 <= perimeter_vertex(cells, i) < (cells + 1) * (cells + 1),
{
    if i < cells {
        lemma_vertex_index_range(cells, i, 0);
    } else if i < 2 * cells {
        lemma_vertex_index_range(cells, cells as int, i - cells);
    } else if i < 3 * cells {
        lemma_vertex_index_range(cells, 3 * cells - i, cells as int);
    } else {
        lemma_vertex_index_range(cells, 0, 4 * cells - i);
    }
}

/// Every index of a patch names one of its vertices.
pub proof fn indices_name_vertices(cells: nat, skirt: bool)
    requires
        1 <= cells,
        vertex_total(cells, skirt) <= u32::MAX,
    ensures
        forall|k: int|
            0 <= k < grid_indices(cells).len() ==> (#[trigger] grid_indices(cells)[k])
                < vertex_total(cells, skirt),
        skirt ==> forall|k: int|
            0 <= k < skirt_indices(cells).len() ==> (#[trigger] skirt_indices(cells)[k])
                < vertex_total(cells, skirt),
{
    assert forall|k: int| 0 <= k < grid_indices(cells).len() implies (#[trigger] grid_indices(
        cells,
    )[k]) < vertex_total(cells, skirt) by {
        let cell = k / 6;
        let c = cells as int;
        assert(0 <= cell < c * c);
        let x = cell % c;
        let y = cell / c;
        lemma_fundamental_div_mod(cell, c);
        lemma_mod_bound(cell, c);
        assert(0 <= y < c) by (nonlinear_arith)
            requires
                0 <= cell < c * c,
                cell == c * y + x,
                0 <= x < c,
        ;
        lemma_vertex_index_range(cells, x, y);
        lemma_vertex_index_range(cells, x + 1, y);
        lemma_vertex_index_range(cells, x, y + 1);
        lemma_vertex_index_range(cells, x + 1, y + 1);
    }
    if skirt {
        assert forall|k: int| 0 <= k < skirt_indices(cells).len() implies (
        #[trigger] skirt_indices(cells)[k]) < vertex_total(cells, skirt) by {
            let edge = k / 6;
            lemma_perimeter_in_grid(cells, edge);
            lemma_perimeter_in_grid(cells, if edge + 1 == 4 * cells { 0 } else { edge + 1 });
        }
    }
}

/// Whether a vertex of the grid lies on its outer rows or columns.
pub open spec fn on_boundary(cells: nat, x: int, y: int) -> bool {
    &&& 0 <= x <= cells
    &&& 0 <= y <= cells
    &&& x == 0 || x == cells || y == 0 || y == cells
}

/// The column and the row of the `i`-th vertex on the perimeter.
pub open spec fn perimeter_place(cells: nat, i: int) -> (int, int) {
    if i < cells {
        (i, 0)
    } else if i < 2 * cells {
        (cells as int, i - cells)
    } else if i < 3 * cells {
        (3 * cells - i, cells as int)
    } else {
        (0, 4 * cells - i)
    }
}

/// The perimeter visits vertices of the boundary only, and no vertex twice.
pub proof fn perimeter_has_no_repeats(cells: nat, i: int, j: int)
    requires
        0 <= i < j < 4 * cells,
    ensures
        ({
            let place = perimeter_place(cells, i);
            &&& on_boundary(cells, place.0, place.1)
            &&& perimeter_vertex(cells, i) == vertex_index(cells, place.0, place.1)
        }),
        perimeter_vertex(cells, i) != perimeter_vertex(cells, j),
{
    let a = perimeter_place(cells, i);
    let b = perimeter_place(cells, j);
    lemma_vertex_index_range(cells, a.0, a.1);
    lemma_vertex_index_range(cells, b.0, b.1);
    assert(a != b);
}

/// The perimeter visits every vertex of the boundary; two perimeter vertices
/// in a row, the last and the first included, are neighbours in the grid.
pub proof fn perimeter_is_a_closed_walk_of_the_boundary(cells: nat)
    requires
        1 <= cells,
    ensures
        forall|x: int, y: int|
            on_boundary(cells, x, y) ==> exists|i: int|
                0 <= i < 4 * cells && #[trigger] perimeter_place(cells, i) == (x, y),
        forall|i: int|
            0 <= i < 4 * cells ==> {
                let a = #[trigger] perimeter_place(cells, i);
                let b = perimeter_place(cells, if i + 1 == 4 * cells { 0 } else { i + 1 });
                &&& (a.0 == b.0 && (a.1 + 1 == b.1 || b.1 + 1 == a.1)) || (a.1 == b.1 && (a.0 + 1
                    == b.0 || b.0 + 1 == a.0))
            },
{
    assert forall|x: int, y: int| on_boundary(cells, x, y) implies exists|i: int|
        0 <= i < 4 * cells && #[trigger] perimeter_place(cells, i) == (x, y) by {
        let i = if y == 0 && x < cells {
            x
        } else if x == cells && y < cells {
            cells + y
        } else if y == cells && x > 0 {
            3 * cells - x
        } else {
            4 * cells - y
        };
        assert(perimeter_place(cells, i) == (x, y));
    }
}

/// No vertex lies below the lowest or above the highest height, whatever
/// vertices are NaN.
pub proof fn span_holds_every_height(vertices: Seq<TerrainVertex>, count: int, k: int)
    requires
        0 <= k < count,
    ensures
        !lowest(vertices, count).nan(),
        !highest(vertices, count).nan(),
        !vertices[k].position@[2].below(lowest(vertices, count)),
        !highest(vertices, count).below(vertices[k].position@[2]),
    decreases count,
{
    if k < count - 1 {
        span_holds_every_height(vertices, count - 1, k);
    } else if count > 1 {
        span_holds_every_height(vertices, count - 1, 0);
    } else {
        assert(lowest(vertices, 0) == Scalar { bits: INFINITY });
        assert(highest(vertices, 0) == Scalar { bits: NEG_INFINITY });
    }
}

/// Neighbouring patches at the same level of detail have the same sites along
/// their shared edge, so their base meshes are watertight: the right column of
/// a patch is the left column of the patch to its right, and the top row is
/// the bottom row of the patch above.
pub proof fn neighbours_share_their_edge(
    item: &TerrainItem,
    ox: u32,
    oy: u32,
    patch_cells: u32,
    lod: u32,
    along: int,
)
    requires
        ox + patch_cells <= u32::MAX,
        oy + patch_cells <= u32::MAX,
    ensures
        site_of(
            item,
            [ox, oy],
            patch_cells,
            lod,
            cells_per_side(patch_cells, lod) as int,
            along,
        ) == site_of(item, [(ox + patch_cells) as u32, oy], patch_cells, lod, 0, along),
        site_of(
            item,
            [ox, oy],
            patch_cells,
            lod,
            along,
            cells_per_side(patch_cells, lod) as int,
        ) == site_of(item, [ox, (oy + patch_cells) as u32], patch_cells, lod, along, 0),
{
    assert(0 * lod_step(lod) == 0);
}

/// A coarser level of detail only drops vertices: each of its vertices is one of
/// the finest level, on the same cell and the same sample.
pub proof fn coarser_levels_only_drop_vertices(
    item: &TerrainItem,
    patch_origin_cells: [u32; 2],
    patch_cells: u32,
    lod: u32,
    gx: int,
    gy: int,
)
    requires
        1 <= patch_cells,
        0 <= gx <= cells_per_side(patch_cells, lod),
        0 <= gy <= cells_per_side(patch_cells, lod),
    ensures
        0 <= grid_offset(patch_cells, lod, gx) <= cells_per_side(patch_cells, 0),
        0 <= grid_offset(patch_cells, lod, gy) <= cells_per_side(patch_cells, 0),
        ({
            let coarse = site_of(item, patch_origin_cells, patch_cells, lod, gx, gy);
            let fine = site_of(
                item,
                patch_origin_cells,
                patch_cells,
                0,
                grid_offset(patch_cells, lod, gx),
                grid_offset(patch_cells, lod, gy),
            );
            coarse.cell == fine.cell && coarse.centre == fine.centre
        }),
{
    lemma_offset_within_patch(patch_cells, lod, gx);
    lemma_offset_within_patch(patch_cells, lod, gy);
    lemma2_to64();
    assert(lod_step(0) == 1);
    assert(patch_cells as nat / 1 == patch_cells);
    assert(cells_per_side(patch_cells, 0) == patch_cells);
}

/// Whether each formula gives one result for the same arguments, as arithmetic
/// on one machine does.
pub open spec fn repeats<M: MeshMath>(math: &M) -> bool {
    &&& forall|frame: GridFrame, cell: Cell, a: Vec2, b: Vec2| #[trigger]
        call_ensures(M::corner, (math, frame, cell), a) && #[trigger] call_ensures(
            M::corner,
            (math, frame, cell),
            b,
        ) ==> a == b
    &&& forall|frame: GridFrame, sample: u16, a: Scalar, b: Scalar| #[trigger]
        call_ensures(M::elevation, (math, frame, sample), a) && #[trigger] call_ensures(
            M::elevation,
            (math, frame, sample),
            b,
        ) ==> a == b
    &&& forall|frame: GridFrame, ground: Vec2, a: Vec2, b: Vec2| #[trigger]
        call_ensures(M::texture, (math, frame, ground), a) && #[trigger] call_ensures(
            M::texture,
            (math, frame, ground),
            b,
        ) ==> a == b
    &&& forall|frame: GridFrame, site: VertexSite, a: Vec3, b: Vec3| #[trigger]
        call_ensures(M::normal, (math, frame, site), a) && #[trigger] call_ensures(
            M::normal,
            (math, frame, site),
            b,
        ) ==> a == b
    &&& forall|height: Scalar, depth: Scalar, a: Scalar, b: Scalar| #[trigger]
        call_ensures(M::lower, (math, height, depth), a) && #[trigger] call_ensures(
            M::lower,
            (math, height, depth),
            b,
        ) ==> a == b
    &&& forall|frame: GridFrame, sample: u16, a: Scalar, b: Scalar| #[trigger]
        call_ensures(M::height, (math, frame, sample), a) && #[trigger] call_ensures(
            M::height,
            (math, frame, sample),
            b,
        ) ==> a == b
}

/// Vertices at the same site are the same.
proof fn lemma_same_site_same_vertex<M: MeshMath>(
    math: &M,
    frame: GridFrame,
    site: VertexSite,
    a: TerrainVertex,
    b: TerrainVertex,
)
    requires
        repeats(math),
        is_vertex(math, frame, site, a),
        is_vertex(math, frame, site, b),
    ensures
        a == b,
{
    assert(a.position =~= b.position);
    assert(a.uv =~= b.uv);
    assert(a.normal =~= b.normal);
}

/// Neighbouring patches at the same level of detail are watertight: the
/// vertices of the right column of a patch are those of the left column of the
/// patch to its right, and those of the top row are those of the bottom row of
/// the patch above.
pub proof fn neighbours_are_watertight<M: MeshMath>(
    math: &M,
    item: &TerrainItem,
    ox: u32,
    oy: u32,
    patch_cells: u32,
    lod: u32,
    skirt_depth: Scalar,
    patch: PatchMesh,
    right: PatchMesh,
    above: PatchMesh,
    along: int,
)
    requires
        repeats(math),
        ox + patch_cells <= u32::MAX,
        oy + patch_cells <= u32::MAX,
        is_patch_mesh(math, item, [ox, oy], patch_cells, lod, skirt_depth, patch),
        is_patch_mesh(
            math,
            item,
            [(ox + patch_cells) as u32, oy],
            patch_cells,
            lod,
            skirt_depth,
            right,
        ),
        is_patch_mesh(
            math,
            item,
            [ox, (oy + patch_cells) as u32],
            patch_cells,
            lod,
            skirt_depth,
            above,
        ),
        0 <= along <= cells_per_side(patch_cells, lod),
    ensures
        ({
            let cells = cells_per_side(patch_cells, lod);
            &&& patch.vertices@[vertex_index(cells, cells as int, along)]
                == right.vertices@[vertex_index(cells, 0, along)]
            &&& patch.vertices@[vertex_index(cells, along, cells as int)]
                == above.vertices@[vertex_index(cells, along, 0)]
        }),
{
    let cells = cells_per_side(patch_cells, lod);
    let c = cells as int;
    neighbours_share_their_edge(item, ox, oy, patch_cells, lod, along);
    lemma_row_major(c + 1, c, along);
    lemma_row_major(c + 1, 0, along);
    lemma_row_major(c + 1, along, c);
    lemma_row_major(c + 1, along, 0);
    lemma_vertex_index_range(cells, c, along);
    lemma_vertex_index_range(cells, 0, along);
    lemma_vertex_index_range(cells, along, c);
    lemma_vertex_index_range(cells, along, 0);
    let frame = item.placement();
    lemma_same_site_same_vertex(
        math,
        frame,
        site_of(item, [ox, oy], patch_cells, lod, c, along),
        patch.vertices@[vertex_index(cells, c, along)],
        right.vertices@[vertex_index(cells, 0, along)],
    );
    lemma_same_site_same_vertex(
        math,
        frame,
        site_of(item, [ox, oy], patch_cells, lod, along, c),
        patch.vertices@[vertex_index(cells, along, c)],
        above.vertices@[vertex_index(cells, along, 0)],
    );
}

/// A coarser level of detail moves no vertex: each of its vertices has the
/// position and the texture coordinate of the vertex of the finest level on the
/// same cell.
pub proof fn coarser_levels_move_no_vertex<M: MeshMath>(
    math: &M,
    item: &TerrainItem,
    patch_origin_cells: [u32; 2],
    patch_cells: u32,
    lod: u32,
    skirt_depth: Scalar,
    fine: PatchMesh,
    coarse: PatchMesh,
    gx: int,
    gy: int,
)
    requires
        repeats(math),
        1 <= patch_cells,
        is_patch_mesh(math, item, patch_origin_cells, patch_cells, 0, skirt_depth, fine),
        is_patch_mesh(math, item, patch_origin_cells, patch_cells, lod, skirt_depth, coarse),
        0 <= gx <= cells_per_side(patch_cells, lod),
        0 <= gy <= cells_per_side(patch_cells, lod),
    ensures
        ({
            let kept = coarse.vertices@[vertex_index(cells_per_side(patch_cells, lod), gx, gy)];
            let full = fine.vertices@[vertex_index(
                patch_cells as nat,
                grid_offset(patch_cells, lod, gx),
                grid_offset(patch_cells, lod, gy),
            )];
            kept.position == full.position && kept.uv == full.uv
        }),
        gx < cells_per_side(patch_cells, lod) || (patch_cells as nat % lod_step(lod) == 0
            && lod_step(lod) <= patch_cells) ==> grid_offset(patch_cells, lod, gx) == gx * lod_step(
            lod,
        ),
{
    let cells = cells_per_side(patch_cells, lod);
    let x = grid_offset(patch_cells, lod, gx);
    let y = grid_offset(patch_cells, lod, gy);
    coarser_levels_only_drop_vertices(item, patch_origin_cells, patch_cells, lod, gx, gy);
    lemma2_to64();
    assert(lod_step(0) == 1);
    assert(patch_cells as nat / 1 == patch_cells);
    lemma_step_range(lod);
    lemma_fundamental_div_mod(patch_cells as int, lod_step(lod) as int);
    lemma_mul_is_commutative(lod_step(lod) as int, patch_cells as int / lod_step(lod) as int);
    if lod_step(lod) <= patch_cells {
        lemma_div_non_zero(patch_cells as int, lod_step(lod) as int);
    }
    lemma_row_major(cells as int + 1, gx, gy);
    lemma_row_major(patch_cells + 1, x, y);
    lemma_vertex_index_range(cells, gx, gy);
    lemma_vertex_index_range(patch_cells as nat, x, y);
    let kept = coarse.vertices@[vertex_index(cells, gx, gy)];
    let full = fine.vertices@[vertex_index(patch_cells as nat, x, y)];
    assert(is_vertex(
        math,
        item.placement(),
        site_of(item, patch_origin_cells, patch_cells, lod, gx, gy),
        kept,
    ));
    assert(is_vertex(
        math,
        item.placement(),
        site_of(item, patch_origin_cells, patch_cells, 0, x, y),
        full,
    ));
    assert(kept.position =~= full.position);
    assert(kept.uv =~= full.uv);
}

/// A skirt adds the lowered ring and lowers the box, and changes nothing else.
pub proof fn a_skirt_only_adds_the_lowered_ring<M: MeshMath>(
    math: &M,
    item: &TerrainItem,
    patch_origin_cells: [u32; 2],
    patch_cells: u32,
    lod: u32,
    skirt_depth: Scalar,
    bare: PatchMesh,
    skirted: PatchMesh,
)
    requires
        repeats(math),
        (Scalar { bits: ZERO }).below(skirt_depth),
        is_patch_mesh(
            math,
            item,
            patch_origin_cells,
            patch_cells,
            lod,
            Scalar { bits: ZERO },
            bare,
        ),
        is_patch_mesh(
            math,
            item,
            patch_origin_cells,
            patch_cells,
            lod,
            skirt_depth,
            skirted,
        ),
    ensures
        bare.vertices@ == skirted.vertices@.take(bare.vertices@.len() as int),
        bare.indices@ == skirted.indices@.take(bare.indices@.len() as int),
        skirted.vertices@.len() == bare.vertices@.len() + 4 * cells_per_side(patch_cells, lod),
        forall|i: int|
            0 <= i < 4 * cells_per_side(patch_cells, lod) ==> #[trigger] hangs_below(
                math,
                bare.vertices@[perimeter_vertex(cells_per_side(patch_cells, lod), i)],
                skirt_depth,
                skirted.vertices@[bare.vertices@.len() + i],
            ),
        call_ensures(M::lower, (math, bare.aabb_min.z, skirt_depth), skirted.aabb_min.z),
        skirted.aabb_min.x == bare.aabb_min.x,
        skirted.aabb_min.y == bare.aabb_min.y,
        skirted.aabb_max == bare.aabb_max,
{
    let cells = cells_per_side(patch_cells, lod);
    let main = vertex_total(cells, false) as int;
    assert forall|k: int| 0 <= k < main implies #[trigger] bare.vertices@[k]
        == skirted.vertices@[k] by {
        lemma_same_site_same_vertex(
            math,
            item.placement(),
            site_of(
                item,
                patch_origin_cells,
                patch_cells,
                lod,
                k % (cells + 1) as int,
                k / (cells + 1) as int,
            ),
            bare.vertices@[k],
            skirted.vertices@[k],
        );
    }
    assert(bare.vertices@ =~= skirted.vertices@.take(main));
    assert(bare.indices@ =~= skirted.indices@.take(bare.indices@.len() as int));
    lemma_span_of_prefix(bare.vertices@, skirted.vertices@, main);
    assert forall|i: int| 0 <= i < 4 * cells implies #[trigger] hangs_below(
        math,
        bare.vertices@[perimeter_vertex(cells, i)],
        skirt_depth,
        skirted.vertices@[main + i],
    ) by {
        lemma_perimeter_in_grid(cells, i);
    }
    let near_a = Vec2 { x: bare.aabb_min.x, y: bare.aabb_min.y };
    let near_b = Vec2 { x: skirted.aabb_min.x, y: skirted.aabb_min.y };
    assert(near_a == near_b);
    let far_a = Vec2 { x: bare.aabb_max.x, y: bare.aabb_max.y };
    let far_b = Vec2 { x: skirted.aabb_max.x, y: skirted.aabb_max.y };
    assert(far_a == far_b);
}

/// Every vertex of a patch sits on a sample of the heightmap, however far the
/// patch reaches.
pub proof fn sites_lie_on_the_heightmap(
    item: &TerrainItem,
    patch_origin_cells: [u32; 2],
    patch_cells: u32,
    lod: u32,
    gx: int,
    gy: int,
)
    requires
        1 <= item.dims@[0] <= i32::MAX,
        1 <= item.dims@[1] <= i32::MAX,
    ensures
        0 <= site_of(item, patch_origin_cells, patch_cells, lod, gx, gy).cell.x < item.dims@[0],
        0 <= site_of(item, patch_origin_cells, patch_cells, lod, gx, gy).cell.y < item.dims@[1],
{
}

/// Every vertex of a patch sits between the corners of the patch's box, at every
/// level of detail.
pub proof fn sites_lie_within_the_box(
    item: &TerrainItem,
    patch_origin_cells: [u32; 2],
    patch_cells: u32,
    lod: u32,
    gx: int,
    gy: int,
)
    requires
        1 <= item.dims@[0] <= i32::MAX,
        1 <= item.dims@[1] <= i32::MAX,
        0 <= gx <= cells_per_side(patch_cells, lod),
        0 <= gy <= cells_per_side(patch_cells, lod),
    ensures
        ({
            let ox = patch_origin_cells@[0];
            let oy = patch_origin_cells@[1];
            let near = clipped_cell(item, ox as int, oy as int);
            let far = clipped_cell(item, ox + patch_cells, oy + patch_cells);
            let cell = site_of(item, patch_origin_cells, patch_cells, lod, gx, gy).cell;
            near.x <= cell.x <= far.x && near.y <= cell.y <= far.y
        }),
{
    lemma_offset_within_patch(patch_cells, lod, gx);
    lemma_offset_within_patch(patch_cells, lod, gy);
}

/// How the components of a vertex attribute are read.
#[derive(Clone, Copy, PartialEq, Eq, Debug, Structural)]
pub enum VertexFormat {
    /// Two 32-bit numbers.
    Float32x2,
    /// Three 32-bit numbers.
    Float32x3,
}

/// One attribute of the vertex buffer.
#[derive(Clone, Copy, PartialEq, Eq, Debug, Structural)]
pub struct VertexAttribute {
    pub format: VertexFormat,
    /// Byte offset from the start of the vertex.
    pub offset: u64,
    pub shader_location: u32,
}

/// Vertex buffer layout.
#[derive(Clone, Copy, Debug)]
pub struct VertexLayout {
    /// Bytes from one vertex to the next.
    pub array_stride: u64,
    pub attributes: [VertexAttribute; 3],
}

/// Bytes that an attribute takes.
pub open spec fn attribute_size(format: VertexFormat) -> int {
    match format {
        VertexFormat::Float32x2 => 8,
        VertexFormat::Float32x3 => 12,
    }
}

/// Vertex buffer layout matching [`TerrainVertex`]: position, normal and
/// texture coordinate one after the other, with nothing in between.
pub fn vertex_layout() -> (layout: VertexLayout)
    ensures
        layout.array_stride == 32,
        layout.attributes@ == seq![
            VertexAttribute { format: VertexFormat::Float32x3, offset: 0, shader_location: 0 },
            VertexAttribute { format: VertexFormat::Float32x3, offset: 12, shader_location: 1 },
            VertexAttribute { format: VertexFormat::Float32x2, offset: 24, shader_location: 2 },
        ],
        layout.attributes@[0].offset + attribute_size(layout.attributes@[0].format)
            == layout.attributes@[1].offset,
        layout.attributes@[1].offset + attribute_size(layout.attributes@[1].format)
            == layout.attributes@[2].offset,
        layout.attributes@[2].offset + attribute_size(layout.attributes@[2].format)
            == layout.array_stride,
{
    VertexLayout {
        array_stride: 32,
        attributes: [
            VertexAttribute { format: VertexFormat::Float32x3, offset: 0, shader_location: 0 },
            VertexAttribute { format: VertexFormat::Float32x3, offset: 12, shader_location: 1 },
            VertexAttribute { format: VertexFormat::Float32x2, offset: 24, shader_location: 2 },
        ],
    }
}

/// The words of a vertex, in the order of the vertex buffer.
pub open spec fn vertex_word(vertex: TerrainVertex, place: int) -> u32 {
    if place < 3 {
        vertex.position@[place].bits
    } else if place < 6 {
        vertex.normal@[place - 3].bits
    } else {
        vertex.uv@[place - 6].bits
    }
}

/// The words of a run of vertices.
pub open spec fn vertex_words(vertices: Seq<TerrainVertex>) -> Seq<u32> {
    Seq::new(8 * vertices.len(), |k: int| vertex_word(vertices[k / 8], k % 8))
}

impl PatchMesh {
    /// The contents of the vertex buffer.
    pub fn vertex_bytes(&self) -> (bytes: Vec<u8>)
        ensures
            crate::trusted::memory_image(vertex_words(self.vertices@), bytes@),
    {
        let mut words: Vec<u32> = Vec::new();
        let mut i: usize = 0;
        while i < self.vertices.len()
            invariant
                i <= self.vertices@.len(),
                words@ == vertex_words(self.vertices@.take(i as int)),
            decreases self.vertices@.len() - i,
        {
            let vertex = self.vertices[i];
            let ghost before = words@;
            words.push(vertex.position[0].bits);
            words.push(vertex.position[1].bits);
            words.push(vertex.position[2].bits);
            words.push(vertex.normal[0].bits);
            words.push(vertex.normal[1].bits);
            words.push(vertex.normal[2].bits);
            words.push(vertex.uv[0].bits);
            words.push(vertex.uv[1].bits);
            proof {
                let so_far = self.vertices@.take(i + 1);
                assert forall|k: int| 0 <= k < words@.len() implies words@[k] == vertex_words(
                    so_far,
                )[k] by {
                    if k < 8 * i {
                        assert(words@[k] == before[k]);
                        assert(before[k] == vertex_word(
                            self.vertices@.take(i as int)[k / 8],
                            k % 8,
                        ));
                    } else {
                        assert(k / 8 == i as int && k % 8 == k - 8 * i);
                    }
                }
                assert(words@ =~= vertex_words(so_far));
            }
            i = i + 1;
        }
        assert(self.vertices@.take(self.vertices@.len() as int) =~= self.vertices@);
        bytes_of_words(words.as_slice())
    }

    /// The contents of the index buffer.
    pub fn index_bytes(&self) -> (bytes: Vec<u8>)
        ensures
            crate::trusted::memory_image(self.indices@, bytes@),
    {
        bytes_of_words(self.indices.as_slice())
    }
}

} // verus!
