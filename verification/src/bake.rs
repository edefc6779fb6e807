//! Baking: from a submitted item to patch meshes, decoded heights, texture
//! bytes and the uniform block, and the signatures by which a bake is known
//! to be out of date.
use crate::item::{GridFrame, TerrainItem, TerrainLayer, LAYER_COUNT};
use crate::mesh::{build_patch, MeshMath, PatchMesh};
use crate::pick::{CpuHeightmap, GroundAxis};
use crate::scalar::{Scalar, Vec3, INFINITY, NEG_INFINITY, ONE, ZERO};
use crate::trusted::bytes_of_words;
use vstd::arithmetic::div_mod::*;
use vstd::prelude::*;

verus! {

/// How terrains are cut into patches.
#[derive(Clone, Copy, PartialEq, Eq, Debug, Structural)]
pub struct BakePolicy {
    /// Patch size in heightmap cells per side at the finest level of detail.
    pub patch_cells: u32,
    /// Number of levels of detail per patch.
    pub max_lod: u32,
    /// Skirt height in world units.
    pub skirt_depth: Scalar,
}

impl BakePolicy {
    /// Whether patches have a skirt.
    pub open spec fn skirted(self) -> bool {
        (Scalar { bits: ZERO }).below(self.skirt_depth)
    }
}

/// One patch of a terrain: a fixed-size grid square baked at every level of
/// detail. One level is picked per frame based on camera distance.
pub struct BakedPatch {
    /// The number of indices of the mesh at each level of detail.
    pub index_counts: Vec<u32>,
    pub aabb_min: Vec3,
    pub aabb_max: Vec3,
    /// Picked when culling; consumed when drawing.
    pub chosen_lod: u32,
    /// Unset when culling finds the patch outside the frustum.
    pub visible: bool,
}

/// A terrain cut into patches, with the meshes of each patch from the finest
/// level of detail on.
pub struct PatchBake {
    pub patches: Vec<BakedPatch>,
    pub meshes: Vec<Vec<PatchMesh>>,
    /// Number of patches along either axis.
    pub patch_grid: [u32; 2],
}

/// Number of patches along an axis with `count` samples; the last one may
/// reach beyond the heightmap.
pub open spec fn patches_along(count: u32, patch_cells: u32) -> nat {
    if count <= 1 {
        0
    } else {
        ((count - 1 + patch_cells - 1) / patch_cells as int) as nat
    }
}

/// Whether a terrain can be cut into patches: it is empty, or the heightmap
/// has a sample for every grid point, the cells around it fit in an `i32` and
/// the vertex indices of a patch in a `u32`.
pub open spec fn bakeable(item: &TerrainItem, policy: BakePolicy) -> bool {
    let w = item.dims@[0];
    let h = item.dims@[1];
    &&& policy.patch_cells >= 1
    &&& w >= 2 && h >= 2 ==> {
        &&& w * h <= item.samples().len()
        &&& w + policy.patch_cells + 256 <= i32::MAX
        &&& h + policy.patch_cells + 256 <= i32::MAX
        &&& crate::mesh::vertex_total(policy.patch_cells as nat, policy.skirted()) <= u32::MAX
    }
}

/// Tell whether a terrain can be cut into patches.
pub fn can_bake(item: &TerrainItem, policy: BakePolicy) -> (can: bool)
    ensures
        can == bakeable(item, policy),
{
    let w: u128 = item.dims[0] as u128;
    let h: u128 = item.dims[1] as u128;
    let cells: u128 = policy.patch_cells as u128;
    let samples: u128 = item.heightmap.len() as u128;
    let skirt: bool = (Scalar { bits: ZERO }).lt(policy.skirt_depth);
    assert(0 <= w * h <= 0xFFFF_FFFF * 0xFFFF_FFFF) by (nonlinear_arith)
        requires
            0 <= w <= 0xFFFF_FFFF,
            0 <= h <= 0xFFFF_FFFF,
    ;
    assert(0 <= (cells + 1) * (cells + 1) <= 0x1_0000_0000 * 0x1_0000_0000) by (nonlinear_arith)
        requires
            0 <= cells <= 0xFFFF_FFFF,
    ;
    let grid: u128 = (cells + 1) * (cells + 1);
    let vertices: u128 = if skirt {
        grid + 4 * cells
    } else {
        grid
    };
    cells >= 1 && (w < 2 || h < 2 || (w * h <= samples && w + cells + 256 <= i32::MAX as u128 && h
        + cells + 256 <= i32::MAX as u128 && vertices <= u32::MAX as u128))
}

/// The lower-left corner of the `k`-th patch in cells; patches are in
/// row-major order.
pub open spec fn patch_origin(item: &TerrainItem, policy: BakePolicy, k: int) -> [u32; 2] {
    let across = patches_along(item.dims@[0], policy.patch_cells) as int;
    [((k % across) * policy.patch_cells) as u32, ((k / across) * policy.patch_cells) as u32]
}

/// The lower corner of the box around the first `count` meshes.
pub open spec fn box_min(meshes: Seq<PatchMesh>, count: int) -> Vec3
    decreases count,
{
    if count <= 0 {
        let far = Scalar { bits: INFINITY };
        Vec3 { x: far, y: far, z: far }
    } else {
        box_min(meshes, count - 1).lower_corner(meshes[count - 1].aabb_min)
    }
}

/// The upper corner of the box around the first `count` meshes.
pub open spec fn box_max(meshes: Seq<PatchMesh>, count: int) -> Vec3
    decreases count,
{
    if count <= 0 {
        let far = Scalar { bits: NEG_INFINITY };
        Vec3 { x: far, y: far, z: far }
    } else {
        box_max(meshes, count - 1).upper_corner(meshes[count - 1].aabb_max)
    }
}

/// Whether `meshes` are the meshes of a patch at each level of detail.
pub open spec fn are_patch_meshes<M: MeshMath>(
    math: &M,
    item: &TerrainItem,
    policy: BakePolicy,
    origin: [u32; 2],
    meshes: Seq<PatchMesh>,
) -> bool {
    &&& meshes.len() == policy.max_lod
    &&& forall|lod: int|
        0 <= lod < policy.max_lod ==> crate::mesh::is_patch_mesh(
            math,
            item,
            origin,
            policy.patch_cells,
            lod as u32,
            policy.skirt_depth,
            #[trigger] meshes[lod],
        )
}

impl BakedPatch {
    /// Whether this is the state of a freshly baked patch with the given
    /// meshes: visible at the finest level of detail.
    pub open spec fn fresh(&self, meshes: Seq<PatchMesh>) -> bool {
        &&& self.index_counts@.len() == meshes.len()
        &&& forall|lod: int|
            0 <= lod < meshes.len() ==> #[trigger] self.index_counts@[lod]
                == meshes[lod].indices@.len() as u32
        &&& self.aabb_min == box_min(meshes, meshes.len() as int)
        &&& self.aabb_max == box_max(meshes, meshes.len() as int)
        &&& self.chosen_lod == 0
        &&& self.visible
    }
}

/// Whether `bake` is a terrain cut into patches.
pub open spec fn is_bake<M: MeshMath>(
    math: &M,
    item: &TerrainItem,
    policy: BakePolicy,
    patches: Seq<BakedPatch>,
    meshes: Seq<Vec<PatchMesh>>,
    patch_grid: [u32; 2],
) -> bool {
    &&& patch_grid@[0] == patches_along(item.dims@[0], policy.patch_cells)
    &&& patch_grid@[1] == patches_along(item.dims@[1], policy.patch_cells)
    &&& patches.len() == patch_grid@[0] * patch_grid@[1]
    &&& meshes.len() == patches.len()
    &&& forall|k: int|
        0 <= k < patches.len() ==> are_patch_meshes(
            math,
            item,
            policy,
            patch_origin(item, policy, k),
            #[trigger] meshes[k]@,
        )
    &&& forall|k: int|
        0 <= k < patches.len() ==> (#[trigger] patches[k]).fresh(meshes[k]@)
}

/// Every level of detail of every patch of a bakeable terrain can be built.
proof fn lemma_patch_fits(item: &TerrainItem, policy: BakePolicy, origin: [u32; 2], lod: u32)
    requires
        bakeable(item, policy),
        item.dims@[0] >= 2,
        item.dims@[1] >= 2,
        origin@[0] < item.dims@[0],
        origin@[1] < item.dims@[1],
    ensures
        crate::mesh::patch_fits(item, origin, policy.patch_cells, lod, policy.skirted()),
{
    let cells = crate::mesh::cells_per_side(policy.patch_cells, lod);
    let step = crate::mesh::lod_step(lod);
    let pc = policy.patch_cells as nat;
    crate::mesh::lemma_step_range(lod);
    assert(pc / step <= pc) by (nonlinear_arith)
        requires
            step >= 1,
    ;
    assert(cells <= pc);
    assert((cells + 1) * (cells + 1) <= (pc + 1) * (pc + 1)) by (nonlinear_arith)
        requires
            cells <= pc,
    ;
    let x = origin@[0] + pc;
    let y = origin@[1] + pc;
    lemma_sample_in_range(item.dims, x + step, y);
    lemma_sample_in_range(item.dims, x, y + step);
}

/// The sample at any cell lies in a heightmap with one sample per grid point.
proof fn lemma_sample_in_range(dims: [u32; 2], x: int, y: int)
    requires
        dims@[0] >= 1,
        dims@[1] >= 1,
    ensures
        0 <= crate::mesh::sample_index(dims, x, y) < dims@[0] * dims@[1],
{
    let w = dims@[0] as int;
    let h = dims@[1] as int;
    let cx = crate::mesh::clamped(x, dims@[0]);
    let cy = crate::mesh::clamped(y, dims@[1]);
    assert(0 <= cy * w + cx < w * h) by (nonlinear_arith)
        requires
            0 <= cx < w,
            0 <= cy < h,
    ;
}

/// Bake one patch at every level of detail.
fn bake_patch<M: MeshMath>(
    item: &TerrainItem,
    policy: BakePolicy,
    origin: [u32; 2],
    math: &M,
) -> (baked: (BakedPatch, Vec<PatchMesh>))
    requires
        bakeable(item, policy),
        item.dims@[0] >= 2,
        item.dims@[1] >= 2,
        origin@[0] < item.dims@[0],
        origin@[1] < item.dims@[1],
    ensures
        are_patch_meshes(math, item, policy, origin, baked.1@),
        baked.0.fresh(baked.1@),
{
    let far = Scalar { bits: INFINITY };
    let near = Scalar { bits: NEG_INFINITY };
    let mut meshes: Vec<PatchMesh> = Vec::new();
    let mut index_counts: Vec<u32> = Vec::new();
    let mut aabb_min = Vec3 { x: far, y: far, z: far };
    let mut aabb_max = Vec3 { x: near, y: near, z: near };
    let mut lod: u32 = 0;
    while lod < policy.max_lod
        invariant
            bakeable(item, policy),
            item.dims@[0] >= 2,
            item.dims@[1] >= 2,
            origin@[0] < item.dims@[0],
            origin@[1] < item.dims@[1],
            lod <= policy.max_lod,
            meshes@.len() == lod,
            index_counts@.len() == lod,
            forall|l: int|
                0 <= l < lod ==> crate::mesh::is_patch_mesh(
                    math,
                    item,
                    origin,
                    policy.patch_cells,
                    l as u32,
                    policy.skirt_depth,
                    #[trigger] meshes@[l],
                ),
            forall|l: int|
                0 <= l < lod ==> #[trigger] index_counts@[l] == meshes@[l].indices@.len() as u32,
            aabb_min == box_min(meshes@, lod as int),
            aabb_max == box_max(meshes@, lod as int),
        decreases policy.max_lod - lod,
    {
        proof {
            lemma_patch_fits(item, policy, origin, lod);
        }
        let mesh = build_patch(item, origin, policy.patch_cells, lod, policy.skirt_depth, math);
        aabb_min = aabb_min.min(mesh.aabb_min);
        aabb_max = aabb_max.max(mesh.aabb_max);
        let ghost before = meshes@;
        index_counts.push(mesh.indices.len() as u32);
        meshes.push(mesh);
        proof {
            lemma_box_of_prefix(before, meshes@, lod as int);
        }
        lod = lod + 1;
    }
    (BakedPatch { index_counts, aabb_min, aabb_max, chosen_lod: 0, visible: true }, meshes)
}

/// The box around the first meshes does not depend on those that follow.
proof fn lemma_box_of_prefix(a: Seq<PatchMesh>, b: Seq<PatchMesh>, count: int)
    requires
        0 <= count <= a.len() <= b.len(),
        forall|k: int| 0 <= k < count ==> #[trigger] a[k] == b[k],
    ensures
        box_min(a, count) == box_min(b, count),
        box_max(a, count) == box_max(b, count),
    decreases count,
{
    if count > 0 {
        lemma_box_of_prefix(a, b, count - 1);
        assert(a[count - 1] == b[count - 1]);
    }
}

/// Number of patches along an axis.
fn count_patches(count: u32, patch_cells: u32) -> (patches: u32)
    requires
        patch_cells >= 1,
    ensures
        patches == patches_along(count, patch_cells),
{
    let cells: u32 = if count > 1 { count - 1 } else { 0 };
    let whole: u32 = cells / patch_cells;
    let rest: u32 = cells % patch_cells;
    proof {
        let c = cells as int;
        let p = patch_cells as int;
        lemma_fundamental_div_mod(c, p);
        if count > 1 {
            if rest == 0 {
                lemma_fundamental_div_mod_converse(c + p - 1, p, whole as int, p - 1);
            } else {
                assert(whole * p + p == (whole + 1) * p) by (nonlinear_arith);
                lemma_fundamental_div_mod_converse(c + p - 1, p, whole + 1, rest - 1);
            }
        } else {
            assert(whole == 0 && rest == 0) by (nonlinear_arith)
                requires
                    whole == 0int / p,
                    rest == 0int % p,
                    p >= 1,
            ;
        }
        assert(whole < u32::MAX || rest == 0) by (nonlinear_arith)
            requires
                c == p * whole + rest,
                c <= u32::MAX,
                p >= 1,
                rest >= 0,
        ;
    }
    if rest == 0 {
        whole
    } else {
        whole + 1
    }
}

/// A patch starts on the heightmap.
proof fn lemma_patch_starts_on_the_map(count: u32, patch_cells: u32, i: int)
    requires
        patch_cells >= 1,
        0 <= i < patches_along(count, patch_cells),
    ensures
        count >= 2,
        0 <= i * patch_cells < count,
{
    let c = count - 1;
    let p = patch_cells as int;
    lemma_fundamental_div_mod(c + p - 1, p);
    let q = (c + p - 1) / p;
    let r = (c + p - 1) % p;
    assert(i * p <= (q - 1) * p && p * q <= c + p - 1 && (q - 1) * p == p * q - p && 0 <= i * p)
        by (nonlinear_arith)
        requires
            0 <= i < q,
            p >= 1,
            c + p - 1 == p * q + r,
            r >= 0,
    ;
}

/// Generate a grid of patches and their meshes at every level of detail from
/// a heightmap.
pub fn bake_patches<M: MeshMath>(item: &TerrainItem, policy: BakePolicy, math: &M) -> (bake:
    PatchBake)
    requires
        bakeable(item, policy),
    ensures
        is_bake(math, item, policy, bake.patches@, bake.meshes@, bake.patch_grid),
{
    let px: u32 = count_patches(item.dims[0], policy.patch_cells);
    let py: u32 = count_patches(item.dims[1], policy.patch_cells);
    let mut patches: Vec<BakedPatch> = Vec::new();
    let mut meshes: Vec<Vec<PatchMesh>> = Vec::new();
    let mut ipy: u32 = 0;
    assert(0 == 0 * px) by (nonlinear_arith);
    while ipy < py
        invariant
            bakeable(item, policy),
            px == patches_along(item.dims@[0], policy.patch_cells),
            py == patches_along(item.dims@[1], policy.patch_cells),
            ipy <= py,
            patches@.len() == ipy * px,
            meshes@.len() == patches@.len(),
            forall|k: int|
                0 <= k < patches@.len() ==> are_patch_meshes(
                    math,
                    item,
                    policy,
                    patch_origin(item, policy, k),
                    #[trigger] meshes@[k]@,
                ),
            forall|k: int|
                0 <= k < patches@.len() ==> (#[trigger] patches@[k]).fresh(meshes@[k]@),
        decreases py - ipy,
    {
        let mut ipx: u32 = 0;
        while ipx < px
            invariant
                bakeable(item, policy),
                px == patches_along(item.dims@[0], policy.patch_cells),
                py == patches_along(item.dims@[1], policy.patch_cells),
                ipy < py,
                ipx <= px,
                patches@.len() == ipy * px + ipx,
                meshes@.len() == patches@.len(),
                forall|k: int|
                    0 <= k < patches@.len() ==> are_patch_meshes(
                        math,
                        item,
                        policy,
                        patch_origin(item, policy, k),
                        #[trigger] meshes@[k]@,
                    ),
                forall|k: int|
                    0 <= k < patches@.len() ==> (#[trigger] patches@[k]).fresh(meshes@[k]@),
            decreases px - ipx,
        {
            proof {
                lemma_patch_starts_on_the_map(item.dims@[0], policy.patch_cells, ipx as int);
                lemma_patch_starts_on_the_map(item.dims@[1], policy.patch_cells, ipy as int);
                lemma_fundamental_div_mod_converse(
                    ipy * px + ipx,
                    px as int,
                    ipy as int,
                    ipx as int,
                );
            }
            let origin: [u32; 2] = [ipx * policy.patch_cells, ipy * policy.patch_cells];
            assert(origin == patch_origin(item, policy, patches@.len() as int));
            let (patch, levels) = bake_patch(item, policy, origin, math);
            patches.push(patch);
            meshes.push(levels);
            ipx = ipx + 1;
        }
        assert((ipy + 1) * px == ipy * px + px) by (nonlinear_arith);
        ipy = ipy + 1;
    }
    assert(ipy * px == px * py) by (nonlinear_arith)
        requires
            ipy == py,
    ;
    PatchBake { patches, meshes, patch_grid: [px, py] }
}

/// Every cell of a heightmap lies in exactly one patch.
pub proof fn every_cell_lies_in_one_patch(item: &TerrainItem, policy: BakePolicy, x: int, y: int)
    requires
        policy.patch_cells >= 1,
        0 <= x < item.dims@[0] - 1,
        0 <= y < item.dims@[1] - 1,
    ensures
        exists|k: int| #[trigger] lies_in_patch(item, policy, x, y, k),
        forall|j: int, k: int| #[trigger]
            lies_in_patch(item, policy, x, y, j) && #[trigger] lies_in_patch(item, policy, x, y, k)
                ==> j == k,
{
    let p = policy.patch_cells as int;
    let across = patches_along(item.dims@[0], policy.patch_cells) as int;
    let up = patches_along(item.dims@[1], policy.patch_cells) as int;
    let px = x / p;
    let py = y / p;
    lemma_cell_has_its_patch(item.dims@[0], policy.patch_cells, x);
    lemma_cell_has_its_patch(item.dims@[1], policy.patch_cells, y);
    let k = py * across + px;
    lemma_fundamental_div_mod_converse(k, across, py, px);
    assert(0 <= k < across * up) by (nonlinear_arith)
        requires
            k == py * across + px,
            0 <= px < across,
            0 <= py < up,
    ;
    assert(lies_in_patch(item, policy, x, y, k));
    assert forall|j: int| #[trigger] lies_in_patch(item, policy, x, y, j) implies j == k by {
        let jx = j % across;
        let jy = j / across;
        lemma_fundamental_div_mod(j, across);
        assert(0 <= jx < across && 0 <= jy < up) by (nonlinear_arith)
            requires
                j == across * jy + jx,
                0 <= j < across * up,
                0 <= jx < across,
        ;
        lemma_patch_starts_on_the_map(item.dims@[0], policy.patch_cells, jx);
        lemma_patch_starts_on_the_map(item.dims@[1], policy.patch_cells, jy);
        assert(jx == px) by {
            lemma_fundamental_div_mod_converse(x, p, jx, x - jx * p);
        }
        assert(jy == py) by {
            lemma_fundamental_div_mod_converse(y, p, jy, y - jy * p);
        }
        assert(across * jy == jy * across) by (nonlinear_arith);
    }
}

/// Whether the cell in column `x` and row `y` lies in the `k`-th patch.
pub open spec fn lies_in_patch(
    item: &TerrainItem,
    policy: BakePolicy,
    x: int,
    y: int,
    k: int,
) -> bool {
    let across = patches_along(item.dims@[0], policy.patch_cells);
    let up = patches_along(item.dims@[1], policy.patch_cells);
    let origin = patch_origin(item, policy, k);
    &&& 0 <= k < across * up
    &&& origin@[0] <= x < origin@[0] + policy.patch_cells
    &&& origin@[1] <= y < origin@[1] + policy.patch_cells
}

proof fn lemma_cell_has_its_patch(count: u32, patch_cells: u32, x: int)
    requires
        patch_cells >= 1,
        0 <= x < count - 1,
    ensures
        0 <= x / (patch_cells as int) < patches_along(count, patch_cells),
        (x / (patch_cells as int)) * patch_cells <= x < (x / (patch_cells as int)) * patch_cells
            + patch_cells,
{
    let c = count - 1;
    let p = patch_cells as int;
    let i = x / p;
    let q = (c + p - 1) / p;
    lemma_fundamental_div_mod(x, p);
    lemma_fundamental_div_mod(c + p - 1, p);
    let r = (c + p - 1) % p;
    let s = x % p;
    assert(0 <= i < q) by (nonlinear_arith)
        requires
            x == p * i + s,
            0 <= s < p,
            c + p - 1 == p * q + r,
            0 <= r < p,
            0 <= x < c,
    ;
    assert(i * p == p * i) by (nonlinear_arith);
}

/// Decode a heightmap to world-space heights.
pub fn decode_heights<M: MeshMath>(item: &TerrainItem, math: &M) -> (heights: Vec<Scalar>)
    ensures
        heights@.len() == item.samples().len(),
        forall|k: int|
            0 <= k < heights@.len() ==> call_ensures(
                M::height,
                (math, item.placement(), item.samples()[k]),
                #[trigger] heights@[k],
            ),
{
    let frame = item.frame();
    let mut heights: Vec<Scalar> = Vec::new();
    let mut k: usize = 0;
    let count: usize = item.heightmap.len();
    while k < count
        invariant
            k <= count,
            count == item.samples().len(),
            frame == item.placement(),
            heights@.len() == k,
            forall|j: int|
                0 <= j < k ==> call_ensures(
                    M::height,
                    (math, item.placement(), item.samples()[j]),
                    #[trigger] heights@[j],
                ),
        decreases count - k,
    {
        let height = math.height(frame, item.heightmap[k]);
        heights.push(height);
        k = k + 1;
    }
    heights
}

/// Whether `cpu` is the heightmap of an item, decoded for picking.
pub open spec fn is_picking_map<M: MeshMath>(
    math: &M,
    item: &TerrainItem,
    cpu: &CpuHeightmap,
) -> bool {
    &&& cpu.x == GroundAxis {
        start: item.origin.x,
        extent: item.world_size@[0],
        samples: item.dims@[0],
    }
    &&& cpu.y == GroundAxis {
        start: item.origin.y,
        extent: item.world_size@[1],
        samples: item.dims@[1],
    }
    &&& cpu.heights@.len() == item.samples().len()
    &&& forall|k: int|
        0 <= k < cpu.heights@.len() ==> call_ensures(
            M::height,
            (math, item.placement(), item.samples()[k]),
            #[trigger] cpu.heights@[k],
        )
}

/// Decode the heightmap of an item for picking.
pub fn picking_map<M: MeshMath>(item: &TerrainItem, math: &M) -> (cpu: CpuHeightmap)
    ensures
        is_picking_map(math, item, &cpu),
{
    let heights = decode_heights(item, math);
    CpuHeightmap {
        heights,
        x: GroundAxis {
            start: item.origin.x,
            extent: item.world_size[0],
            samples: item.dims[0],
        },
        y: GroundAxis {
            start: item.origin.y,
            extent: item.world_size[1],
            samples: item.dims[1],
        },
    }
}

/// What a bake depends on. A change of any of these makes it out of date.
#[derive(Clone, Copy)]
pub struct BakeSig {
    pub frame: GridFrame,
    pub heightmap_version: u64,
    pub patch_cells: u32,
    pub max_lod: u32,
    /// The skirt depth, quantised so that float wobble does not count as a
    /// change.
    pub skirt_depth_q: i32,
}

/// The signature of a bake of an item.
pub open spec fn bake_signature(item: &TerrainItem, policy: BakePolicy) -> BakeSig {
    BakeSig {
        frame: item.placement(),
        heightmap_version: item.heightmap_version,
        patch_cells: policy.patch_cells,
        max_lod: policy.max_lod,
        skirt_depth_q: policy.skirt_depth.quantised() as i32,
    }
}

impl BakeSig {
    /// Whether two signatures agree, numbers being compared by value: a NaN
    /// agrees with nothing.
    pub open spec fn agrees(self, other: BakeSig) -> bool {
        &&& self.frame.dims@[0] == other.frame.dims@[0]
        &&& self.frame.dims@[1] == other.frame.dims@[1]
        &&& self.frame.world_size@[0].equal_to(other.frame.world_size@[0])
        &&& self.frame.world_size@[1].equal_to(other.frame.world_size@[1])
        &&& self.frame.height_range@[0].equal_to(other.frame.height_range@[0])
        &&& self.frame.height_range@[1].equal_to(other.frame.height_range@[1])
        &&& self.frame.origin.x.equal_to(other.frame.origin.x)
        &&& self.frame.origin.y.equal_to(other.frame.origin.y)
        &&& self.frame.origin.z.equal_to(other.frame.origin.z)
        &&& self.heightmap_version == other.heightmap_version
        &&& self.patch_cells == other.patch_cells
        &&& self.max_lod == other.max_lod
        &&& self.skirt_depth_q == other.skirt_depth_q
    }

    /// The signature of a bake of an item.
    pub fn of(item: &TerrainItem, policy: BakePolicy) -> (sig: Self)
        ensures
            sig == bake_signature(item, policy),
    {
        BakeSig {
            frame: item.frame(),
            heightmap_version: item.heightmap_version,
            patch_cells: policy.patch_cells,
            max_lod: policy.max_lod,
            skirt_depth_q: policy.skirt_depth.quantise(),
        }
    }

    /// Whether two signatures agree.
    pub fn same(&self, other: &BakeSig) -> (same: bool)
        ensures
            same == self.agrees(*other),
    {
        let a = self.frame;
        let b = other.frame;
        a.dims[0] == b.dims[0] && a.dims[1] == b.dims[1] && a.world_size[0].same(b.world_size[0])
            && a.world_size[1].same(b.world_size[1]) && a.height_range[0].same(b.height_range[0])
            && a.height_range[1].same(b.height_range[1]) && a.origin.x.same(b.origin.x)
            && a.origin.y.same(b.origin.y) && a.origin.z.same(b.origin.z) && self.heightmap_version
            == other.heightmap_version && self.patch_cells == other.patch_cells && self.max_lod
            == other.max_lod && self.skirt_depth_q == other.skirt_depth_q
    }
}

/// What the uploaded splatmaps depend on.
#[derive(Clone, Copy)]
pub struct SplatSig {
    pub dims_a: [u32; 2],
    pub dims_b: [u32; 2],
    pub version_a: u64,
    pub version_b: u64,
}

/// The signature of the splatmaps of an item.
pub open spec fn splat_signature(item: &TerrainItem) -> SplatSig {
    SplatSig {
        dims_a: item.splatmaps@[0]@.dims,
        dims_b: item.splatmaps@[1]@.dims,
        version_a: item.splatmaps@[0]@.version,
        version_b: item.splatmaps@[1]@.version,
    }
}

impl SplatSig {
    /// Whether two signatures agree.
    pub open spec fn agrees(self, other: SplatSig) -> bool {
        &&& self.dims_a@ == other.dims_a@
        &&& self.dims_b@ == other.dims_b@
        &&& self.version_a == other.version_a
        &&& self.version_b == other.version_b
    }

    /// The signature of the splatmaps of an item.
    pub fn of(item: &TerrainItem) -> (sig: Self)
        ensures
            sig == splat_signature(item),
    {
        SplatSig {
            dims_a: item.splatmaps[0].resolution(),
            dims_b: item.splatmaps[1].resolution(),
            version_a: item.splatmaps[0].edit(),
            version_b: item.splatmaps[1].edit(),
        }
    }

    /// Whether two signatures agree.
    pub fn same(&self, other: &SplatSig) -> (same: bool)
        ensures
            same == self.agrees(*other),
    {
        same_dims(self.dims_a, other.dims_a) && same_dims(self.dims_b, other.dims_b)
            && self.version_a == other.version_a && self.version_b == other.version_b
    }
}

/// Whether two resolutions are the same.
pub(crate) fn same_dims(a: [u32; 2], b: [u32; 2]) -> (same: bool)
    ensures
        same == (a@ == b@),
{
    let same: bool = a[0] == b[0] && a[1] == b[1];
    assert(same ==> a@ =~= b@);
    same
}

/// The bytes of a texture and how they are laid out.
pub struct StagedTexture {
    pub width: u32,
    pub height: u32,
    pub bytes_per_row: u32,
    pub bytes: Vec<u8>,
}

/// The extent of a texture along an axis: at least one texel.
pub open spec fn extent(count: u32) -> u32 {
    if count >= 1 {
        count
    } else {
        1
    }
}

/// Whether the size in bytes of a splatmap texture fits in a `u32`.
pub open spec fn texture_fits(dims: [u32; 2]) -> bool {
    extent(dims@[0]) * extent(dims@[1]) * 4 <= u32::MAX
}

/// Tell whether the size in bytes of a splatmap texture fits in a `u32`.
pub fn can_stage(dims: [u32; 2]) -> (can: bool)
    ensures
        can == texture_fits(dims),
{
    let size = splatmap_extent(dims);
    let w: u128 = size[0] as u128;
    let h: u128 = size[1] as u128;
    assert(0 <= w * h <= 0xFFFF_FFFF * 0xFFFF_FFFF) by (nonlinear_arith)
        requires
            0 <= w <= 0xFFFF_FFFF,
            0 <= h <= 0xFFFF_FFFF,
    ;
    w * h * 4 <= u32::MAX as u128
}

/// The first `count` bytes, filled up with zeros.
pub open spec fn filled_up(bytes: Seq<u8>, count: nat) -> Seq<u8> {
    Seq::new(
        count,
        |i: int|
            if i < bytes.len() {
                bytes[i]
            } else {
                0u8
            },
    )
}

impl StagedTexture {
    /// Whether this is a splatmap, ready for upload.
    pub open spec fn stages(&self, rgba: Seq<u8>, dims: [u32; 2]) -> bool {
        &&& self.width == extent(dims@[0])
        &&& self.height == extent(dims@[1])
        &&& self.bytes_per_row == self.width * 4
        &&& self.bytes@ == filled_up(rgba, (self.width * self.height * 4) as nat)
    }
}

/// The extent of a splatmap texture: at least one texel along either axis.
pub fn splatmap_extent(dims: [u32; 2]) -> (size: [u32; 2])
    ensures
        size@[0] == extent(dims@[0]),
        size@[1] == extent(dims@[1]),
{
    let w: u32 = if dims[0] >= 1 { dims[0] } else { 1 };
    let h: u32 = if dims[1] >= 1 { dims[1] } else { 1 };
    [w, h]
}

/// Make a splatmap ready for upload: as many bytes as its texture holds, cut
/// off or filled up with zeros where there are more or fewer.
pub fn stage_splatmap(rgba: &[u8], dims: [u32; 2]) -> (staged: StagedTexture)
    requires
        texture_fits(dims),
    ensures
        staged.stages(rgba@, dims),
{
    let size = splatmap_extent(dims);
    let w: u32 = size[0];
    let h: u32 = size[1];
    proof {
        assert(0 < w * h <= w * h * 4 && w * 4 <= w * h * 4) by (nonlinear_arith)
            requires
                w >= 1,
                h >= 1,
        ;
    }
    let expected: usize = (w * h * 4) as usize;
    let mut bytes: Vec<u8> = Vec::new();
    let mut i: usize = 0;
    while i < expected
        invariant
            i <= expected,
            bytes@ == filled_up(rgba@, i as nat),
        decreases expected - i,
    {
        let byte: u8 = if i < rgba.len() {
            rgba[i]
        } else {
            0
        };
        bytes.push(byte);
        i = i + 1;
        assert(bytes@ =~= filled_up(rgba@, i as nat));
    }
    StagedTexture { width: w, height: h, bytes_per_row: w * 4, bytes }
}

/// Number of words of a layer in the uniform block.
pub const LAYER_WORDS: usize = 8;

/// Number of words of the uniform block.
pub const UNIFORM_WORDS: usize = 84;

/// The words of a layer in the uniform block.
pub open spec fn layer_words(layer: TerrainLayer) -> Seq<u32> {
    seq![
        layer.albedo@[0].bits,
        layer.albedo@[1].bits,
        layer.albedo@[2].bits,
        layer.metallic.bits,
        layer.roughness.bits,
        layer.height_bias.bits,
        ZERO,
        ZERO,
    ]
}

/// The words of a layer in the uniform block.
pub fn layer_uniform(layer: &TerrainLayer) -> (words: [u32; 8])
    ensures
        words@ == layer_words(*layer),
{
    let words: [u32; 8] = [
        layer.albedo[0].bits,
        layer.albedo[1].bits,
        layer.albedo[2].bits,
        layer.metallic.bits,
        layer.roughness.bits,
        layer.height_bias.bits,
        ZERO,
        ZERO,
    ];
    assert(words@ =~= layer_words(*layer));
    words
}

/// The `k`-th word of the uniform block of an item: the identity as model
/// matrix, the layers, and the parameters of the height-aware blend.
pub open spec fn uniform_word(item: &TerrainItem, k: int) -> u32 {
    if k < 16 {
        if k % 5 == 0 {
            ONE
        } else {
            ZERO
        }
    } else if k < 80 {
        layer_words(item.surface_layers@[(k - 16) / 8])[(k - 16) % 8]
    } else if k == 80 {
        item.height_blend_strength.bits
    } else if k == 81 {
        item.height_blend_noise_scale.bits
    } else {
        ZERO
    }
}

/// The words of the uniform block of an item.
pub open spec fn uniform_words(item: &TerrainItem) -> Seq<u32> {
    Seq::new(UNIFORM_WORDS as nat, |k: int| uniform_word(item, k))
}

/// The bytes of the uniform block of an item.
pub fn uniform_bytes(item: &TerrainItem) -> (bytes: Vec<u8>)
    ensures
        crate::trusted::memory_image(uniform_words(item), bytes@),
{
    let mut words: Vec<u32> = Vec::new();
    let mut k: usize = 0;
    while k < 16
        invariant
            k <= 16,
            words@.len() == k,
            forall|j: int| 0 <= j < k ==> #[trigger] words@[j] == uniform_word(item, j),
        decreases 16 - k,
    {
        words.push(if k % 5 == 0 { ONE } else { ZERO });
        k = k + 1;
    }
    let mut layer: usize = 0;
    while layer < LAYER_COUNT
        invariant
            layer <= LAYER_COUNT,
            words@.len() == 16 + layer * 8,
            forall|j: int| 0 <= j < words@.len() ==> #[trigger] words@[j] == uniform_word(item, j),
        decreases LAYER_COUNT - layer,
    {
        let block = layer_uniform(&item.surface_layers[layer]);
        let mut i: usize = 0;
        while i < LAYER_WORDS
            invariant
                layer < LAYER_COUNT,
                i <= LAYER_WORDS,
                block@ == layer_words(item.surface_layers@[layer as int]),
                words@.len() == 16 + layer * 8 + i,
                forall|j: int|
                    0 <= j < words@.len() ==> #[trigger] words@[j] == uniform_word(item, j),
            decreases LAYER_WORDS - i,
        {
            words.push(block[i]);
            i = i + 1;
        }
        layer = layer + 1;
    }
    words.push(item.height_blend_strength.bits);
    words.push(item.height_blend_noise_scale.bits);
    words.push(ZERO);
    words.push(ZERO);
    assert(words@ =~= uniform_words(item));
    bytes_of_words(&words)
}

} // verus!
