//! Host-side scatter helpers for grass, foliage, and tree levels of detail.
//!
//! Detail meshes and billboards are not part of the terrain item itself. The
//! host configures a list of [`DetailLayer`]s, calls
//! [`scatter_terrain_details`] once per frame, and submits the returned sprite
//! and mesh instance batches.
//!
//! Positions are generated from a Halton(2,3) low-discrepancy sequence over
//! the terrain bounds and accepted with a probability proportional to the
//! per-layer surface weight at that point (read from the splatmap channel that
//! owns the layer). This gives stable, frame-coherent placement without
//! retaining any state, so grass tufts do not pop or swim as the camera moves.
//!
//! All sampling is clamped to a circular footprint around
//! [`DetailScatterParams::camera_xy`]; samples outside the footprint are
//! skipped without further work.
use crate::item::{GridFrame, SplatmapData, TerrainItem, LAYER_COUNT};
use crate::scalar::{Scalar, Vec2, Vec3, ONE, ZERO};
use vstd::prelude::*;

verus! {

/// The bit pattern of 200000.0, the most samples that a footprint is meant to
/// hold.
pub const SAMPLE_LIMIT: u32 = 0x4843_5000;

/// The most samples within the footprint that a layer takes.
pub const REACH_LIMIT: u32 = 200000;

/// The bit pattern of 1e-4: the least share of the weights that counts as lying
/// above a threshold.
pub const LEAST_HEADROOM: u32 = 0x38D1_B717;

/// What the seed of a layer is a multiple of.
pub const SEED_FACTOR: u32 = 2654435761;

/// Tells the random numbers that decide on acceptance from others.
pub const ACCEPT_SALT: u32 = 0xA341_316C;

/// Tells the random numbers that vary the size from others.
pub const SIZE_SALT: u32 = 0xB529_7A4D;

/// Tells the random numbers that turn an instance from others.
pub const TURN_SALT: u32 = 0x68E3_1DA4;

/// What a [`DetailLayer`] emits per scatter point.
#[derive(Clone, Copy, Debug)]
pub enum DetailKind {
    /// Camera-facing billboard. One sprite batch per layer, world-space sized.
    Billboard {
        /// Optional texture handle. `None` renders a solid-coloured quad.
        texture_id: Option<u64>,
        /// RGBA tint applied to every instance.
        colour: [Scalar; 4],
    },
    /// Instanced mesh. One mesh batch per layer.
    Mesh { mesh_id: u64, texture_id: Option<u64>, colour: [Scalar; 4] },
    /// Tree-style level of detail: full mesh under `switch_distance`,
    /// camera-facing impostor billboard beyond. One mesh batch and one sprite
    /// batch per layer.
    TreeLod {
        mesh_id: u64,
        mesh_texture_id: Option<u64>,
        impostor_texture_id: Option<u64>,
        colour: [Scalar; 4],
        /// Distance from the camera at which an individual tree switches from
        /// mesh to impostor.
        switch_distance: Scalar,
    },
}

/// A single scatter recipe over the terrain surface.
#[derive(Clone, Copy, Debug)]
pub struct DetailLayer {
    pub kind: DetailKind,
    /// Index into the terrain's surface layers; the matching splatmap channel
    /// weights placement.
    pub surface_layer: usize,
    /// Acceptance threshold against the splatmap channel value (0..1).
    pub weight_threshold: Scalar,
    /// World-space size of each instance. For billboards this is the quad edge
    /// length; for meshes this is the uniform scale.
    pub size: Scalar,
    /// Random size jitter as a fraction of the size.
    pub size_jitter: Scalar,
    /// Maximum distance from the camera at which this layer is scattered.
    pub max_distance: Scalar,
    /// Target density per unit of area.
    pub density: Scalar,
}

/// Per-frame scatter inputs read from the host's camera state.
#[derive(Clone, Copy, PartialEq, Eq, Debug, Structural)]
pub struct DetailScatterParams {
    /// Camera position projected onto the terrain plane.
    pub camera_xy: Vec2,
    /// Camera height above the world.
    pub camera_z: Scalar,
}

/// A column-major transformation matrix.
#[derive(Clone, Copy, Debug)]
pub struct Transform {
    pub cells: [Scalar; 16],
}

/// A batch of camera-facing sprites.
pub struct SpriteItem {
    pub texture_id: Option<u64>,
    pub positions: Vec<Vec3>,
    pub sizes: Vec<Scalar>,
    pub default_colour: [Scalar; 4],
    pub default_size: Scalar,
    /// Whether sizes are in world units rather than in pixels.
    pub world_space: bool,
    pub depth_write: bool,
    /// Whether sprites are blended by their alpha.
    pub alpha_blend: bool,
}

/// A batch of instances of one mesh.
pub struct MeshInstanceItem {
    pub mesh_id: u64,
    pub texture_id: Option<u64>,
    pub transforms: Vec<Transform>,
    pub colours: Vec<[Scalar; 4]>,
    /// Whether instances are blended by their alpha.
    pub alpha_blend: bool,
}

/// Output batches built by [`scatter_terrain_details`].
pub struct DetailScatterOutput {
    pub sprites: Vec<SpriteItem>,
    pub mesh_instances: Vec<MeshInstanceItem>,
}

impl Default for DetailScatterOutput {
    fn default() -> (out: Self)
        ensures
            out.sprites@.len() == 0,
            out.mesh_instances@.len() == 0,
    {
        DetailScatterOutput { sprites: Vec::new(), mesh_instances: Vec::new() }
    }
}

impl DetailScatterOutput {
    /// Drop all batches.
    pub fn clear(&mut self)
        ensures
            final(self).sprites@.len() == 0,
            final(self).mesh_instances@.len() == 0,
    {
        self.sprites.clear();
        self.mesh_instances.clear();
    }
}

/// The heightmap samples around a point.
#[derive(Clone, Copy, PartialEq, Eq, Debug, Structural)]
pub struct CornerSamples {
    pub s00: u16,
    pub s10: u16,
    pub s01: u16,
    pub s11: u16,
}

/// The floating-point formulas of scattering, on bit patterns.
///
/// Nothing is assumed of them: what is stated of a scatter holds whatever they
/// return, and says which formula was applied to what.
pub trait ScatterMath {
    /// `a + b`.
    fn sum(&self, a: Scalar, b: Scalar) -> Scalar;

    /// `a - b`.
    fn difference(&self, a: Scalar, b: Scalar) -> Scalar;

    /// `a / b`.
    fn quotient(&self, a: Scalar, b: Scalar) -> Scalar;

    /// `a * a`.
    fn square(&self, a: Scalar) -> Scalar;

    /// A fraction divided by the base of a number system.
    fn shrink(&self, fraction: Scalar, base: u32) -> Scalar;

    /// A sum with a digit worth `fraction` added.
    fn accumulate(&self, total: Scalar, fraction: Scalar, digit: u32) -> Scalar;

    /// The number of samples that reach a density over a disc.
    fn footprint(&self, density: Scalar, max_distance: Scalar) -> Scalar;

    /// The number of samples that reach a density over a rectangle.
    fn amount(&self, density: Scalar, width: Scalar, depth: Scalar) -> Scalar;

    /// The world-space point of a terrain that two numbers from 0 to 1 stand
    /// for.
    fn spot(&self, frame: GridFrame, u: Scalar, v: Scalar) -> Vec2;

    /// The squared distance between two points of the ground plane.
    fn ground_distance_squared(&self, a: Vec2, b: Vec2) -> Scalar;

    /// A position from 0 to 1 across `count` texels or samples.
    fn stretch(&self, ratio: Scalar, count: u32) -> Scalar;

    /// The last position across `count` samples that has one beyond it.
    fn inner_limit(&self, count: u32) -> Scalar;

    /// The height at the point `fx`, `fy`, from the samples in the columns
    /// from `column` and the rows from `row` on.
    fn ground(
        &self,
        frame: GridFrame,
        column: u32,
        row: u32,
        samples: CornerSamples,
        fx: Scalar,
        fy: Scalar,
    ) -> Scalar;

    /// A size varied by a random number from 0 to 1.
    fn vary(&self, size: Scalar, jitter: Scalar, random: Scalar) -> Scalar;

    /// A height raised by half a size.
    fn lift(&self, height: Scalar, size: Scalar) -> Scalar;

    /// The squared distance between two points.
    fn distance_squared(&self, a: Vec3, b: Vec3) -> Scalar;

    /// The transformation to a position, scaled, and turned by a random
    /// number from 0 to 1.
    fn placed(&self, position: Vec3, scale: Scalar, random: Scalar) -> Transform;
}

/// Whether `value` is a Halton sequence value, from the digits of `i` on.
pub open spec fn halton_from<M: ScatterMath>(
    math: &M,
    i: u32,
    base: u32,
    fraction: Scalar,
    total: Scalar,
    value: Scalar,
) -> bool
    decreases i,
{
    if i == 0 || base < 2 {
        value == total
    } else {
        proof {
            assert(i / base < i) by (nonlinear_arith)
                requires
                    i > 0,
                    base >= 2,
            ;
        }
        exists|f: Scalar, t: Scalar|
            {
                &&& #[trigger] call_ensures(M::shrink, (math, fraction, base), f)
                &&& #[trigger] call_ensures(M::accumulate, (math, total, f, i % base), t)
                &&& halton_from(math, i / base, base, f, t, value)
            }
    }
}

/// Whether `value` is the Halton sequence value at index `i` with a base.
pub open spec fn is_halton<M: ScatterMath>(math: &M, i: u32, base: u32, value: Scalar) -> bool {
    halton_from(math, i, base, Scalar { bits: ONE }, Scalar { bits: ZERO }, value)
}

/// Halton sequence value at an index with a base: the digits of the index,
/// mirrored at the point.
pub fn halton<M: ScatterMath>(index: u32, base: u32, math: &M) -> (value: Scalar)
    requires
        base >= 2,
    ensures
        is_halton(math, index, base, value),
{
    let mut fraction = Scalar { bits: ONE };
    let mut total = Scalar { bits: ZERO };
    let mut i: u32 = index;
    while i > 0
        invariant
            base >= 2,
            forall|value: Scalar| #[trigger]
                halton_from(math, i, base, fraction, total, value) ==> is_halton(
                    math,
                    index,
                    base,
                    value,
                ),
        decreases i,
    {
        let ghost (f0, t0, i0) = (fraction, total, i);
        fraction = math.shrink(fraction, base);
        total = math.accumulate(total, fraction, i % base);
        assert(i / base < i) by (nonlinear_arith)
            requires
                i > 0,
                base >= 2,
        ;
        i = i / base;
        assert forall|value: Scalar| #[trigger]
            halton_from(math, i, base, fraction, total, value) implies is_halton(
            math,
            index,
            base,
            value,
        ) by {
            assert(halton_from(math, i0, base, f0, t0, value));
        }
    }
    assert(halton_from(math, 0, base, fraction, total, total));
    total
}

/// The bits that a cell and a seed mix into.
pub open spec fn mixed(x: i32, y: i32, seed: u32) -> u32 {
    let a = (x as u32).wrapping_mul(0x9E37_79B1);
    let b = a ^ (y as u32).wrapping_mul(0x85EB_CA77);
    let c = b ^ seed.wrapping_mul(0xC2B2_AE3D);
    let d = (c ^ (c >> 16u32)).wrapping_mul(0x7FEB_352D);
    let e = (d ^ (d >> 15u32)).wrapping_mul(0x846C_A68B);
    e ^ (e >> 16u32)
}

/// Whether `random` is the number from 0 to 1 that a cell and a seed hash to:
/// the low 24 of the mixed bits, as a fraction.
pub open spec fn is_hash01(x: i32, y: i32, seed: u32, random: Scalar) -> bool {
    random.fraction24(mixed(x, y, seed) & 0xFF_FFFF)
}

/// Cheap hash from a 2D integer cell to a number from 0 to 1.
pub fn hash01(x: i32, y: i32, seed: u32) -> (random: Scalar)
    ensures
        is_hash01(x, y, seed, random),
{
    let a: u32 = (x as u32).wrapping_mul(0x9E37_79B1);
    let b: u32 = a ^ (y as u32).wrapping_mul(0x85EB_CA77);
    let c: u32 = b ^ seed.wrapping_mul(0xC2B2_AE3D);
    let d: u32 = (c ^ (c >> 16u32)).wrapping_mul(0x7FEB_352D);
    let e: u32 = (d ^ (d >> 15u32)).wrapping_mul(0x846C_A68B);
    let h: u32 = e ^ (e >> 16u32);
    assert(h & 0xFF_FFFF < 0x100_0000) by (bit_vector);
    Scalar::from_fraction24(h & 0xFF_FFFF)
}

/// A hash is at least 0 and below 1.
pub proof fn hash_lies_from_zero_to_one(x: i32, y: i32, seed: u32, random: Scalar)
    requires
        is_hash01(x, y, seed, random),
    ensures
        !random.below(Scalar { bits: ZERO }),
        random.below(Scalar { bits: ONE }),
{
    let h = mixed(x, y, seed);
    let k = h & 0xFF_FFFF;
    assert(h & 0xFF_FFFF < 0x100_0000) by (bit_vector);
    vstd::arithmetic::power2::lemma2_to64();
    vstd::arithmetic::power2::lemma_pow2_pos(125);
    vstd::arithmetic::power2::lemma_pow2_unfold(126);
    let unit = vstd::arithmetic::power2::pow2(125);
    assert((Scalar { bits: ONE }).scaled() == 0x80_0000 * (2 * unit));
    assert(k * unit < 0x100_0000 * unit) by (nonlinear_arith)
        requires
            k < 0x100_0000,
            unit > 0,
    ;
    assert(0x80_0000 * (2 * unit) == 0x100_0000 * unit) by (nonlinear_arith);
    assert(0 <= k * unit) by (nonlinear_arith)
        requires
            k >= 0,
            unit > 0,
    ;
}

/// The position in a splatmap of the channel of a texel.
pub open spec fn channel_index(dims: [u32; 2], channel: int, x: int, y: int) -> int {
    (y * dims@[0] + x) * 4 + channel
}

/// The texel at a position across `count` texels: at most the last one.
pub open spec fn texel_at(position: Scalar, count: u32) -> int {
    if position.truncated() < count - 1 {
        position.truncated()
    } else {
        count - 1
    }
}

/// Whether `weight` is the weight of a channel at a point of a splatmap: its
/// byte there over 255, or zero beyond the bytes that there are.
pub open spec fn is_texel_weight(
    map: crate::item::SplatmapView,
    channel: int,
    fx: Scalar,
    fy: Scalar,
    weight: Scalar,
) -> bool {
    let p = channel_index(
        map.dims,
        channel,
        texel_at(fx, map.dims@[0]),
        texel_at(fy, map.dims@[1]),
    );
    if p < map.rgba.len() {
        weight == crate::scalar::over_255(map.rgba[p])
    } else {
        weight.bits == ZERO
    }
}

/// The texel at a position across `count` texels.
fn texel(position: Scalar, count: u32) -> (at: u32)
    requires
        count >= 1,
    ensures
        at == texel_at(position, count),
        at < count,
{
    let whole: u32 = position.to_u32();
    if whole < count - 1 {
        whole
    } else {
        count - 1
    }
}

/// The weight of a channel at a point of a splatmap.
pub fn texel_weight(map: &SplatmapData, channel: usize, fx: Scalar, fy: Scalar) -> (weight: Scalar)
    requires
        channel < 4,
        map@.dims@[0] >= 1,
        map@.dims@[1] >= 1,
    ensures
        is_texel_weight(map@, channel as int, fx, fy, weight),
{
    let dims = map.resolution();
    let w: u128 = dims[0] as u128;
    let x: u128 = texel(fx, dims[0]) as u128;
    let y: u128 = texel(fy, dims[1]) as u128;
    let rgba = map.rgba();
    assert(0 <= y * w <= 0xFFFF_FFFF * 0xFFFF_FFFF) by (nonlinear_arith)
        requires
            0 <= y <= 0xFFFF_FFFF,
            0 <= w <= 0xFFFF_FFFF,
    ;
    let p: u128 = (y * w + x) * 4 + channel as u128;
    if p >= rgba.len() as u128 {
        Scalar { bits: ZERO }
    } else {
        Scalar::from_unit_byte(rgba[p as usize])
    }
}

/// Whether `weight` is the weight of a surface layer at a point of a terrain,
/// both coordinates from 0 to 1.
pub open spec fn is_splat_weight<M: ScatterMath>(
    math: &M,
    item: &TerrainItem,
    u: Scalar,
    v: Scalar,
    layer: usize,
    weight: Scalar,
) -> bool {
    let zero = Scalar { bits: ZERO };
    let one = Scalar { bits: ONE };
    let map = item.splatmaps@[(layer / 4) as int]@;
    if layer >= LAYER_COUNT || map.dims@[0] == 0 || map.dims@[1] == 0 {
        weight == zero
    } else {
        exists|gx: Scalar, gy: Scalar|
            {
                &&& #[trigger] call_ensures(
                    M::stretch,
                    (math, u.limited(zero, one), map.dims@[0]),
                    gx,
                )
                &&& #[trigger] call_ensures(
                    M::stretch,
                    (math, v.limited(zero, one), map.dims@[1]),
                    gy,
                )
                &&& is_texel_weight(
                    map,
                    (layer % 4) as int,
                    gx.larger(zero),
                    gy.larger(zero),
                    weight,
                )
            }
    }
}

/// The weight of a surface layer at a point of a terrain.
pub fn sample_splat_weight<M: ScatterMath>(
    item: &TerrainItem,
    u: Scalar,
    v: Scalar,
    layer: usize,
    math: &M,
) -> (weight: Scalar)
    ensures
        is_splat_weight(math, item, u, v, layer, weight),
{
    let zero = Scalar { bits: ZERO };
    let one = Scalar { bits: ONE };
    if layer >= LAYER_COUNT {
        return zero;
    }
    let map = &item.splatmaps[layer / 4];
    let dims = map.resolution();
    if dims[0] == 0 || dims[1] == 0 {
        return zero;
    }
    let gx = math.stretch(u.clamp(zero, one), dims[0]);
    let gy = math.stretch(v.clamp(zero, one), dims[1]);
    texel_weight(map, layer % 4, gx.max(zero), gy.max(zero))
}

/// The samples around the point in the cell in a column and a row. Columns and
/// rows beyond the last one count as the last one.
pub open spec fn samples_around(item: &TerrainItem, column: u32, row: u32) -> CornerSamples {
    let x = column as int;
    let y = row as int;
    CornerSamples {
        s00: crate::mesh::sample_at(item, x, y),
        s10: crate::mesh::sample_at(item, x + 1, y),
        s01: crate::mesh::sample_at(item, x, y + 1),
        s11: crate::mesh::sample_at(item, x + 1, y + 1),
    }
}

/// Whether there is a heightmap sample for every grid point.
pub open spec fn sampled_throughout(item: &TerrainItem) -> bool {
    &&& item.dims@[0] >= 1
    &&& item.dims@[1] >= 1
    &&& item.dims@[0] * item.dims@[1] <= item.samples().len()
}

/// Tell whether there is a heightmap sample for every grid point.
pub fn can_scatter(item: &TerrainItem) -> (can: bool)
    ensures
        can == sampled_throughout(item),
{
    let w: u128 = item.dims[0] as u128;
    let h: u128 = item.dims[1] as u128;
    let samples: u128 = item.heightmap.len() as u128;
    assert(0 <= w * h <= 0xFFFF_FFFF * 0xFFFF_FFFF) by (nonlinear_arith)
        requires
            0 <= w <= 0xFFFF_FFFF,
            0 <= h <= 0xFFFF_FFFF,
    ;
    w >= 1 && h >= 1 && w * h <= samples
}

/// The heightmap sample in a column and a row.
fn sample(item: &TerrainItem, column: u64, row: u64) -> (sample: u16)
    requires
        sampled_throughout(item),
    ensures
        sample == crate::mesh::sample_at(item, column as int, row as int),
{
    let count: usize = item.heightmap.len();
    let w: u64 = item.dims[0] as u64;
    let h: u64 = item.dims[1] as u64;
    let x: usize = (if column < w { column } else { w - 1 }) as usize;
    let y: usize = (if row < h { row } else { h - 1 }) as usize;
    assert(0 <= y * w <= y * w + x < w * h) by (nonlinear_arith)
        requires
            0 <= x < w,
            0 <= y < h,
    ;
    item.heightmap[y * (w as usize) + x]
}

/// Look the samples around the point in the cell in a column and a row up.
pub fn corner_samples(item: &TerrainItem, column: u32, row: u32) -> (samples: CornerSamples)
    requires
        sampled_throughout(item),
    ensures
        samples == samples_around(item, column, row),
{
    let x: u64 = column as u64;
    let y: u64 = row as u64;
    CornerSamples {
        s00: sample(item, x, y),
        s10: sample(item, x + 1, y),
        s01: sample(item, x, y + 1),
        s11: sample(item, x + 1, y + 1),
    }
}

/// Whether `height` is the height of the surface at a point of a terrain, both
/// coordinates from 0 to 1.
pub open spec fn is_ground<M: ScatterMath>(
    math: &M,
    item: &TerrainItem,
    u: Scalar,
    v: Scalar,
    height: Scalar,
) -> bool {
    exists|fx: Scalar, fy: Scalar|
        {
            &&& #[trigger] is_inner(math, u, item.dims@[0], fx)
            &&& #[trigger] is_inner(math, v, item.dims@[1], fy)
            &&& reads_at(math, item, fx, fy, height)
        }
}

/// Whether `height` is the height of the surface at a point among the samples.
pub open spec fn reads_at<M: ScatterMath>(
    math: &M,
    item: &TerrainItem,
    fx: Scalar,
    fy: Scalar,
    height: Scalar,
) -> bool {
    let column = fx.truncated() as u32;
    let row = fy.truncated() as u32;
    call_ensures(
        M::ground,
        (math, item.placement(), column, row, samples_around(item, column, row), fx, fy),
        height,
    )
}

/// Whether `position` is a coordinate from 0 to 1 taken across `count` samples
/// and kept before the last one.
pub open spec fn is_inner<M: ScatterMath>(
    math: &M,
    ratio: Scalar,
    count: u32,
    position: Scalar,
) -> bool {
    let zero = Scalar { bits: ZERO };
    let one = Scalar { bits: ONE };
    exists|g: Scalar, limit: Scalar|
        {
            &&& #[trigger] call_ensures(M::stretch, (math, ratio.limited(zero, one), count), g)
            &&& #[trigger] call_ensures(M::inner_limit, (math, count), limit)
            &&& position == g.limited(zero, limit)
        }
}

/// Take a coordinate from 0 to 1 across `count` samples.
fn inner<M: ScatterMath>(ratio: Scalar, count: u32, math: &M) -> (position: Scalar)
    ensures
        is_inner(math, ratio, count, position),
{
    let zero = Scalar { bits: ZERO };
    let one = Scalar { bits: ONE };
    let g = math.stretch(ratio.clamp(zero, one), count);
    let limit = math.inner_limit(count);
    g.clamp(zero, limit)
}

/// The height of the surface at a point of a terrain, relative to the origin of
/// the terrain.
pub fn sample_heightmap<M: ScatterMath>(
    item: &TerrainItem,
    u: Scalar,
    v: Scalar,
    math: &M,
) -> (height: Scalar)
    requires
        sampled_throughout(item),
    ensures
        is_ground(math, item, u, v, height),
{
    let fx = inner(u, item.dims[0], math);
    let fy = inner(v, item.dims[1], math);
    let column: u32 = fx.to_u32();
    let row: u32 = fy.to_u32();
    let samples = corner_samples(item, column, row);
    let height = math.ground(item.frame(), column, row, samples, fx, fy);
    assert(fx.truncated() as u32 == column && fy.truncated() as u32 == row);
    height
}

/// One scattered instance.
#[derive(Clone, Copy, Debug)]
pub enum Instance {
    Sprite { position: Vec3, size: Scalar },
    Mesh { transform: Transform },
}

/// The seed of a layer.
pub open spec fn layer_seed(layer_idx: usize) -> u32 {
    (layer_idx as u32).wrapping_mul(SEED_FACTOR)
}

/// Whether `random` is the random number for one purpose of one sample of a
/// layer.
pub open spec fn is_random(layer_idx: usize, i: u32, salt: u32, random: Scalar) -> bool {
    is_hash01(i as i32, layer_idx as i32, layer_seed(layer_idx) ^ salt, random)
}

/// The random number for one purpose of one sample of a layer.
fn draw(layer_idx: usize, i: u32, salt: u32) -> (random: Scalar)
    ensures
        is_random(layer_idx, i, salt, random),
{
    let seed: u32 = (layer_idx as u32).wrapping_mul(SEED_FACTOR);
    hash01(i as i32, layer_idx as i32, seed ^ salt)
}

/// Whether a sprite of a size stands on a position.
pub open spec fn stands_on<M: ScatterMath>(
    math: &M,
    position: Vec3,
    size: Scalar,
    instance: Instance,
) -> bool {
    instance matches Instance::Sprite { position: centre, size: edge } && {
        &&& edge == size
        &&& centre.x == position.x
        &&& centre.y == position.y
        &&& call_ensures(M::lift, (math, position.z, size), centre.z)
    }
}

/// Whether a mesh instance is placed at a position, turned at random.
pub open spec fn is_placed<M: ScatterMath>(
    math: &M,
    layer_idx: usize,
    i: u32,
    position: Vec3,
    size: Scalar,
    instance: Instance,
) -> bool {
    exists|random: Scalar|
        {
            &&& #[trigger] is_random(layer_idx, i, TURN_SALT, random)
            &&& instance matches Instance::Mesh { transform }
            &&& call_ensures(M::placed, (math, position, size, random), transform)
        }
}

/// Where the camera is.
pub open spec fn camera_of(params: DetailScatterParams) -> Vec3 {
    Vec3 { x: params.camera_xy.x, y: params.camera_xy.y, z: params.camera_z }
}

/// Whether `instance` is what a layer emits at a position.
pub open spec fn emits<M: ScatterMath>(
    math: &M,
    layer: DetailLayer,
    layer_idx: usize,
    params: DetailScatterParams,
    i: u32,
    position: Vec3,
    size: Scalar,
    instance: Instance,
) -> bool {
    match layer.kind {
        DetailKind::Billboard { .. } => stands_on(math, position, size, instance),
        DetailKind::Mesh { .. } => is_placed(math, layer_idx, i, position, size, instance),
        DetailKind::TreeLod { switch_distance, .. } => exists|near: Scalar, limit: Scalar|
            {
                &&& #[trigger] call_ensures(
                    M::distance_squared,
                    (math, position, camera_of(params)),
                    near,
                )
                &&& #[trigger] call_ensures(M::square, (math, switch_distance), limit)
                &&& if near.below(limit) {
                    is_placed(math, layer_idx, i, position, size, instance)
                } else {
                    stands_on(math, position, size, instance)
                }
            },
    }
}

/// What a layer emits at a position.
pub fn emit<M: ScatterMath>(
    layer: &DetailLayer,
    layer_idx: usize,
    params: &DetailScatterParams,
    i: u32,
    position: Vec3,
    size: Scalar,
    math: &M,
) -> (instance: Instance)
    ensures
        emits(math, *layer, layer_idx, *params, i, position, size, instance),
{
    let as_mesh: bool = match layer.kind {
        DetailKind::Billboard { .. } => false,
        DetailKind::Mesh { .. } => true,
        DetailKind::TreeLod { switch_distance, .. } => {
            let camera = Vec3 {
                x: params.camera_xy.x,
                y: params.camera_xy.y,
                z: params.camera_z,
            };
            let near = math.distance_squared(position, camera);
            let limit = math.square(switch_distance);
            assert(camera == camera_of(*params));
            near.lt(limit)
        },
    };
    if as_mesh {
        let random = draw(layer_idx, i, TURN_SALT);
        let transform = math.placed(position, size, random);
        let instance = Instance::Mesh { transform };
        assert(is_placed(math, layer_idx, i, position, size, instance));
        instance
    } else {
        let z = math.lift(position.z, size);
        let instance = Instance::Sprite {
            position: Vec3 { x: position.x, y: position.y, z },
            size,
        };
        assert(stands_on(math, position, size, instance));
        instance
    }
}

/// Whether a sample lies at the point `at` of a terrain, both coordinates from 0
/// to 1, which is `spot` in the world. Neither depends on the camera.
pub open spec fn is_spot<M: ScatterMath>(
    math: &M,
    item: &TerrainItem,
    i: u32,
    at: Vec2,
    spot: Vec2,
) -> bool {
    &&& is_halton(math, (i + 1) as u32, 2, at.x)
    &&& is_halton(math, (i + 1) as u32, 3, at.y)
    &&& call_ensures(M::spot, (math, item.placement(), at.x, at.y), spot)
}

/// Whether a point lies within the footprint of a layer around the camera.
pub open spec fn reaches<M: ScatterMath>(
    math: &M,
    layer: DetailLayer,
    params: DetailScatterParams,
    spot: Vec2,
    reached: bool,
) -> bool {
    exists|away: Scalar, limit: Scalar|
        {
            &&& #[trigger] call_ensures(
                M::ground_distance_squared,
                (math, spot, params.camera_xy),
                away,
            )
            &&& #[trigger] call_ensures(M::square, (math, layer.max_distance), limit)
            &&& reached == !limit.below(away)
        }
}

/// Whether the ground below a position lies within the footprint of a layer
/// around the camera.
pub open spec fn in_reach<M: ScatterMath>(
    math: &M,
    layer: DetailLayer,
    params: DetailScatterParams,
    position: Vec3,
) -> bool {
    reaches(math, layer, params, (Vec2 { x: position.x, y: position.y }), true)
}

/// Test whether a point lies within the footprint of a layer around the camera.
pub fn reach<M: ScatterMath>(
    layer: &DetailLayer,
    params: &DetailScatterParams,
    spot: Vec2,
    math: &M,
) -> (reached: bool)
    ensures
        reaches(math, *layer, *params, spot, reached),
{
    let away = math.ground_distance_squared(spot, params.camera_xy);
    let limit = math.square(layer.max_distance);
    !limit.lt(away)
}

/// Whether a sample with a weight is accepted: with a probability that grows
/// with the weight above the threshold.
pub open spec fn accepts<M: ScatterMath>(
    math: &M,
    threshold: Scalar,
    weight: Scalar,
    random: Scalar,
    accepted: bool,
) -> bool {
    let zero = Scalar { bits: ZERO };
    let one = Scalar { bits: ONE };
    exists|headroom: Scalar, above: Scalar, share: Scalar|
        {
            &&& #[trigger] call_ensures(M::difference, (math, one, threshold), headroom)
            &&& #[trigger] call_ensures(M::difference, (math, weight, threshold), above)
            &&& #[trigger] call_ensures(
                M::quotient,
                (math, above, headroom.larger(Scalar { bits: LEAST_HEADROOM })),
                share,
            )
            &&& accepted == !share.limited(zero, one).below(random)
        }
}

/// Decide on a sample with a weight.
pub fn accept<M: ScatterMath>(
    threshold: Scalar,
    weight: Scalar,
    random: Scalar,
    math: &M,
) -> (accepted: bool)
    ensures
        accepts(math, threshold, weight, random, accepted),
{
    let zero = Scalar { bits: ZERO };
    let one = Scalar { bits: ONE };
    let headroom = math.difference(one, threshold);
    let above = math.difference(weight, threshold);
    let share = math.quotient(above, headroom.max(Scalar { bits: LEAST_HEADROOM }));
    !share.clamp(zero, one).lt(random)
}

/// Whether `found` is what a sample within the footprint yields: nothing where
/// the weight is below the threshold or the sample is not accepted.
pub open spec fn yields_on<M: ScatterMath>(
    math: &M,
    item: &TerrainItem,
    layer: DetailLayer,
    layer_idx: usize,
    params: DetailScatterParams,
    i: u32,
    spot: Vec2,
    at: Vec2,
    found: Option<Instance>,
) -> bool {
    exists|weight: Scalar|
        {
            &&& #[trigger] is_splat_weight(math, item, at.x, at.y, layer.surface_layer, weight)
            &&& if weight.below(layer.weight_threshold) {
                found is None
            } else {
                exists|random: Scalar, accepted: bool|
                    {
                        &&& #[trigger] is_random(layer_idx, i, ACCEPT_SALT, random)
                        &&& #[trigger] accepts(
                            math,
                            layer.weight_threshold,
                            weight,
                            random,
                            accepted,
                        )
                        &&& if accepted {
                            found is Some && yields_instance(
                                math,
                                item,
                                layer,
                                layer_idx,
                                params,
                                i,
                                spot,
                                at,
                                found->0,
                            )
                        } else {
                            found is None
                        }
                    }
            }
        }
}

/// Whether `instance` is what an accepted sample yields.
pub open spec fn yields_instance<M: ScatterMath>(
    math: &M,
    item: &TerrainItem,
    layer: DetailLayer,
    layer_idx: usize,
    params: DetailScatterParams,
    i: u32,
    spot: Vec2,
    at: Vec2,
    instance: Instance,
) -> bool {
    exists|height: Scalar, z: Scalar, random: Scalar, size: Scalar|
        {
            &&& #[trigger] is_ground(math, item, at.x, at.y, height)
            &&& #[trigger] call_ensures(M::sum, (math, item.origin.z, height), z)
            &&& #[trigger] is_random(layer_idx, i, SIZE_SALT, random)
            &&& #[trigger] call_ensures(
                M::vary,
                (math, layer.size, layer.size_jitter, random),
                size,
            )
            &&& emits(
                math,
                layer,
                layer_idx,
                params,
                i,
                (Vec3 { x: spot.x, y: spot.y, z }),
                size,
                instance,
            )
        }
}

/// Whether `found` is what a sample of a layer yields, and `reached` whether it
/// lies within the footprint around the camera: nothing beyond it.
pub open spec fn takes<M: ScatterMath>(
    math: &M,
    item: &TerrainItem,
    layer: DetailLayer,
    layer_idx: usize,
    params: DetailScatterParams,
    i: u32,
    reached: bool,
    found: Option<Instance>,
) -> bool {
    exists|at: Vec2, spot: Vec2|
        {
            &&& #[trigger] is_spot(math, item, i, at, spot)
            &&& reaches(math, layer, params, spot, reached)
            &&& if reached {
                yields_on(math, item, layer, layer_idx, params, i, spot, at, found)
            } else {
                found is None
            }
        }
}

/// Whether `found` is what a sample of a layer yields.
pub open spec fn yields<M: ScatterMath>(
    math: &M,
    item: &TerrainItem,
    layer: DetailLayer,
    layer_idx: usize,
    params: DetailScatterParams,
    i: u32,
    found: Option<Instance>,
) -> bool {
    exists|reached: bool| #[trigger]
        takes(math, item, layer, layer_idx, params, i, reached, found)
}

/// One sample of a layer: whether it lies within the footprint, and what it
/// yields.
#[derive(Clone, Copy, Debug)]
pub struct Sample {
    pub reached: bool,
    pub found: Option<Instance>,
}

/// Take one sample of a layer.
pub fn scatter_sample<M: ScatterMath>(
    item: &TerrainItem,
    layer: &DetailLayer,
    layer_idx: usize,
    params: &DetailScatterParams,
    i: u32,
    math: &M,
) -> (sample: Sample)
    requires
        sampled_throughout(item),
        i < u32::MAX,
    ensures
        takes(math, item, *layer, layer_idx, *params, i, sample.reached, sample.found),
{
    let u = halton(i + 1, 2, math);
    let v = halton(i + 1, 3, math);
    let spot = math.spot(item.frame(), u, v);
    let ghost at = Vec2 { x: u, y: v };
    assert(is_spot(math, item, i, at, spot));
    let reached: bool = reach(layer, params, spot, math);
    if !reached {
        return Sample { reached, found: None };
    }
    let weight = sample_splat_weight(item, u, v, layer.surface_layer, math);
    if weight.lt(layer.weight_threshold) {
        assert(yields_on(math, item, *layer, layer_idx, *params, i, spot, at, None));
        return Sample { reached, found: None };
    }
    let random = draw(layer_idx, i, ACCEPT_SALT);
    let accepted: bool = accept(layer.weight_threshold, weight, random, math);
    if !accepted {
        assert(yields_on(math, item, *layer, layer_idx, *params, i, spot, at, None));
        return Sample { reached, found: None };
    }
    let height = sample_heightmap(item, u, v, math);
    let z = math.sum(item.origin.z, height);
    let position = Vec3 { x: spot.x, y: spot.y, z };
    let jitter = draw(layer_idx, i, SIZE_SALT);
    let size = math.vary(layer.size, layer.size_jitter, jitter);
    let instance = emit(layer, layer_idx, params, i, position, size, math);
    assert(yields_instance(math, item, *layer, layer_idx, *params, i, spot, at, instance));
    assert(yields_on(math, item, *layer, layer_idx, *params, i, spot, at, Some(instance)));
    Sample { reached, found: Some(instance) }
}

/// The number of samples that a footprint is meant to hold, from the number that
/// reaches the density over it.
pub open spec fn target_of(footprint: Scalar) -> int {
    footprint.limited(Scalar { bits: ZERO }, Scalar { bits: SAMPLE_LIMIT }).truncated()
}

/// The number of samples that a footprint is meant to hold.
pub fn sample_target(footprint: Scalar) -> (target: u32)
    ensures
        target == target_of(footprint),
{
    footprint.clamp(Scalar { bits: ZERO }, Scalar { bits: SAMPLE_LIMIT }).to_u32()
}

/// The number of spots on a terrain of a size, from the numbers of samples that
/// reach the density over the footprint and over the terrain. There is none
/// where the footprint is not meant to hold any, and else at least one.
pub open spec fn spots_of(size: [Scalar; 2], footprint: Scalar, amount: Scalar) -> int {
    let zero = Scalar { bits: ZERO };
    if target_of(footprint) == 0 || size@[0].below(zero) || size@[1].below(zero) {
        0
    } else if amount.truncated() >= 1 {
        amount.truncated()
    } else {
        1
    }
}

/// The number of spots on a terrain.
pub fn spot_count(size: [Scalar; 2], footprint: Scalar, amount: Scalar) -> (count: u32)
    ensures
        count == spots_of(size, footprint, amount),
{
    let zero = Scalar { bits: ZERO };
    if sample_target(footprint) == 0 || size[0].lt(zero) || size[1].lt(zero) {
        return 0;
    }
    let whole: u32 = amount.to_u32();
    if whole >= 1 {
        whole
    } else {
        1
    }
}

/// Whether `total` is the number of spots of a layer on a terrain. It does not
/// depend on the camera.
pub open spec fn is_total<M: ScatterMath>(
    math: &M,
    item: &TerrainItem,
    layer: DetailLayer,
    total: int,
) -> bool {
    exists|footprint: Scalar, amount: Scalar|
        {
            &&& #[trigger] call_ensures(
                M::footprint,
                (math, layer.density, layer.max_distance),
                footprint,
            )
            &&& #[trigger] call_ensures(
                M::amount,
                (math, layer.density, item.world_size@[0], item.world_size@[1]),
                amount,
            )
            &&& total == spots_of(item.world_size, footprint, amount)
        }
}

/// How many of the first `count` samples lie within the footprint.
pub open spec fn reached_count(reached: Seq<bool>, count: int) -> nat
    decreases count,
{
    if count <= 0 {
        0
    } else if reached[count - 1] {
        reached_count(reached, count - 1) + 1
    } else {
        reached_count(reached, count - 1)
    }
}

/// The positions of the sprites among the first `count` samples.
pub open spec fn sprite_positions(samples: Seq<Option<Instance>>, count: int) -> Seq<Vec3>
    decreases count,
{
    if count <= 0 {
        Seq::empty()
    } else {
        let earlier = sprite_positions(samples, count - 1);
        match samples[count - 1] {
            Some(Instance::Sprite { position, size }) => earlier.push(position),
            _ => earlier,
        }
    }
}

/// The sizes of the sprites among the first `count` samples.
pub open spec fn sprite_sizes(samples: Seq<Option<Instance>>, count: int) -> Seq<Scalar>
    decreases count,
{
    if count <= 0 {
        Seq::empty()
    } else {
        let earlier = sprite_sizes(samples, count - 1);
        match samples[count - 1] {
            Some(Instance::Sprite { position, size }) => earlier.push(size),
            _ => earlier,
        }
    }
}

/// The transformations of the mesh instances among the first `count` samples.
pub open spec fn mesh_transforms(samples: Seq<Option<Instance>>, count: int) -> Seq<Transform>
    decreases count,
{
    if count <= 0 {
        Seq::empty()
    } else {
        let earlier = mesh_transforms(samples, count - 1);
        match samples[count - 1] {
            Some(Instance::Mesh { transform }) => earlier.push(transform),
            _ => earlier,
        }
    }
}

/// The instances of one layer.
pub struct LayerInstances {
    pub transforms: Vec<Transform>,
    pub positions: Vec<Vec3>,
    pub sizes: Vec<Scalar>,
}

impl LayerInstances {
    /// Whether these are the instances that a run of samples yields, in order.
    pub open spec fn gathers(&self, samples: Seq<Option<Instance>>) -> bool {
        &&& self.transforms@ == mesh_transforms(samples, samples.len() as int)
        &&& self.positions@ == sprite_positions(samples, samples.len() as int)
        &&& self.sizes@ == sprite_sizes(samples, samples.len() as int)
    }

    /// Add what one more sample yields.
    pub fn gather(&mut self, found: Option<Instance>)
        ensures
            forall|samples: Seq<Option<Instance>>| #[trigger]
                old(self).gathers(samples) ==> final(self).gathers(samples.push(found)),
    {
        proof {
            assert forall|samples: Seq<Option<Instance>>| true implies ({
                let n = samples.len() as int;
                &&& mesh_transforms(#[trigger] samples.push(found), n) == mesh_transforms(
                    samples,
                    n,
                )
                &&& sprite_positions(samples.push(found), n) == sprite_positions(samples, n)
                &&& sprite_sizes(samples.push(found), n) == sprite_sizes(samples, n)
            }) by {
                lemma_samples_of_prefix(samples, samples.push(found), samples.len() as int);
            }
        }
        match found {
            None => {},
            Some(Instance::Sprite { position, size }) => {
                self.positions.push(position);
                self.sizes.push(size);
            },
            Some(Instance::Mesh { transform }) => {
                self.transforms.push(transform);
            },
        }
    }
}

proof fn lemma_samples_of_prefix(a: Seq<Option<Instance>>, b: Seq<Option<Instance>>, count: int)
    requires
        forall|k: int| 0 <= k < count ==> #[trigger] a[k] == b[k],
    ensures
        mesh_transforms(a, count) == mesh_transforms(b, count),
        sprite_positions(a, count) == sprite_positions(b, count),
        sprite_sizes(a, count) == sprite_sizes(b, count),
    decreases count,
{
    if count > 0 {
        lemma_samples_of_prefix(a, b, count - 1);
        assert(a[count - 1] == b[count - 1]);
    }
}

/// Whether `samples` are what the spots of a layer yield one after another,
/// `reached` telling which of them lie within the footprint: all `total` of them,
/// unless the most samples that a layer takes have been reached before.
pub open spec fn runs<M: ScatterMath>(
    math: &M,
    item: &TerrainItem,
    layer: DetailLayer,
    layer_idx: usize,
    params: DetailScatterParams,
    total: int,
    reached: Seq<bool>,
    samples: Seq<Option<Instance>>,
) -> bool {
    &&& reached.len() == samples.len()
    &&& samples.len() <= total
    &&& forall|i: int|
        0 <= i < samples.len() ==> takes(
            math,
            item,
            layer,
            layer_idx,
            params,
            i as u32,
            reached[i],
            #[trigger] samples[i],
        )
    &&& samples.len() > 0 ==> reached_count(reached, samples.len() - 1) < REACH_LIMIT
    &&& samples.len() == total || reached_count(reached, samples.len() as int) == REACH_LIMIT
}

/// Whether `samples` are what the samples of a layer yield.
pub open spec fn samples_layer<M: ScatterMath>(
    math: &M,
    item: &TerrainItem,
    layer: DetailLayer,
    layer_idx: usize,
    params: DetailScatterParams,
    samples: Seq<Option<Instance>>,
) -> bool {
    exists|total: int, reached: Seq<bool>|
        {
            &&& #[trigger] is_total(math, item, layer, total)
            &&& #[trigger] runs(math, item, layer, layer_idx, params, total, reached, samples)
        }
}

/// How many of the first samples lie within the footprint does not depend on
/// those that follow.
pub(crate) proof fn lemma_count_of_prefix(a: Seq<bool>, b: Seq<bool>, count: int)
    requires
        forall|k: int| 0 <= k < count ==> #[trigger] a[k] == b[k],
    ensures
        reached_count(a, count) == reached_count(b, count),
    decreases count,
{
    if count > 0 {
        lemma_count_of_prefix(a, b, count - 1);
        assert(a[count - 1] == b[count - 1]);
    }
}

/// Scatter one layer.
pub fn scatter_layer<M: ScatterMath>(
    item: &TerrainItem,
    layer: &DetailLayer,
    layer_idx: usize,
    params: &DetailScatterParams,
    math: &M,
) -> (instances: LayerInstances)
    requires
        sampled_throughout(item),
    ensures
        exists|samples: Seq<Option<Instance>>| #[trigger]
            samples_layer(math, item, *layer, layer_idx, *params, samples) && instances.gathers(
                samples,
            ),
{
    let mut instances = LayerInstances {
        transforms: Vec::new(),
        positions: Vec::new(),
        sizes: Vec::new(),
    };
    let footprint = math.footprint(layer.density, layer.max_distance);
    let amount = math.amount(layer.density, item.world_size[0], item.world_size[1]);
    let total: u32 = spot_count(item.world_size, footprint, amount);
    assert(is_total(math, item, *layer, total as int));
    let ghost mut samples: Seq<Option<Instance>> = Seq::empty();
    let ghost mut reached: Seq<bool> = Seq::empty();
    assert(instances.gathers(samples));
    let mut i: u32 = 0;
    let mut within: u32 = 0;
    while i < total && within < REACH_LIMIT
        invariant
            sampled_throughout(item),
            i <= total,
            samples.len() == i,
            reached.len() == i,
            within == reached_count(reached, i as int),
            within <= REACH_LIMIT,
            instances.gathers(samples),
            forall|k: int|
                0 <= k < i ==> takes(
                    math,
                    item,
                    *layer,
                    layer_idx,
                    *params,
                    k as u32,
                    reached[k],
                    #[trigger] samples[k],
                ),
            i > 0 ==> reached_count(reached, i - 1) < REACH_LIMIT,
        decreases total - i,
    {
        let sample = scatter_sample(item, layer, layer_idx, params, i, math);
        instances.gather(sample.found);
        let ghost before = reached;
        proof {
            samples = samples.push(sample.found);
            reached = reached.push(sample.reached);
            lemma_count_of_prefix(before, reached, i as int);
        }
        if sample.reached {
            within = within + 1;
        }
        i = i + 1;
    }
    assert(runs(math, item, *layer, layer_idx, *params, total as int, reached, samples));
    assert(samples_layer(math, item, *layer, layer_idx, *params, samples));
    instances
}

/// The footprint holds at most 200000 samples, and so at most as many
/// instances.
pub proof fn samples_within_reach_are_limited<M: ScatterMath>(
    math: &M,
    item: &TerrainItem,
    layer: DetailLayer,
    layer_idx: usize,
    params: DetailScatterParams,
    total: int,
    reached: Seq<bool>,
    samples: Seq<Option<Instance>>,
)
    requires
        runs(math, item, layer, layer_idx, params, total, reached, samples),
    ensures
        reached_count(reached, samples.len() as int) <= 200000,
        found_count(samples, samples.len() as int) <= 200000,
{
    let n = samples.len() as int;
    if n > 0 {
        assert(reached_count(reached, n - 1) < REACH_LIMIT);
    }
    assert forall|i: int| 0 <= i < n && (#[trigger] samples[i]) is Some implies reached[i] by {
        assert(takes(
            math,
            item,
            layer,
            layer_idx,
            params,
            i as u32,
            reached[i],
            samples[i],
        ));
    }
    lemma_found_within_reach(reached, samples, n);
}

proof fn lemma_found_within_reach(reached: Seq<bool>, samples: Seq<Option<Instance>>, count: int)
    requires
        0 <= count <= samples.len(),
        forall|i: int| 0 <= i < count && (#[trigger] samples[i]) is Some ==> reached[i],
    ensures
        found_count(samples, count) <= reached_count(reached, count),
    decreases count,
{
    if count > 0 {
        lemma_found_within_reach(reached, samples, count - 1);
    }
}

/// The density holds within the footprint: the limit counts the samples there
/// alone, so that as long as they are fewer than 200000, every spot that the
/// density asks for over the terrain has been sampled, however large the terrain
/// is. A terrain too small for one spot has one all the same.
pub proof fn density_holds_within_the_footprint<M: ScatterMath>(
    math: &M,
    item: &TerrainItem,
    layer: DetailLayer,
    layer_idx: usize,
    params: DetailScatterParams,
    samples: Seq<Option<Instance>>,
)
    requires
        samples_layer(math, item, layer, layer_idx, params, samples),
        !item.world_size@[0].below(Scalar { bits: ZERO }),
        !item.world_size@[1].below(Scalar { bits: ZERO }),
    ensures
        exists|reached: Seq<bool>, footprint: Scalar, amount: Scalar|
            {
                &&& reached.len() == samples.len()
                &&& #[trigger] call_ensures(
                    M::footprint,
                    (math, layer.density, layer.max_distance),
                    footprint,
                )
                &&& #[trigger] call_ensures(
                    M::amount,
                    (math, layer.density, item.world_size@[0], item.world_size@[1]),
                    amount,
                )
                &&& target_of(footprint) == 0 ==> samples.len() == 0
                &&& target_of(footprint) >= 1 && #[trigger] reached_count(
                    reached,
                    samples.len() as int,
                ) < 200000 ==> samples.len() == if amount.truncated() >= 1 {
                    amount.truncated()
                } else {
                    1
                }
                &&& forall|i: int|
                    0 <= i < samples.len() ==> takes(
                        math,
                        item,
                        layer,
                        layer_idx,
                        params,
                        i as u32,
                        reached[i],
                        #[trigger] samples[i],
                    )
            },
{
    let (total, reached) = choose|total: int, reached: Seq<bool>|
        {
            &&& #[trigger] is_total(math, item, layer, total)
            &&& #[trigger] runs(math, item, layer, layer_idx, params, total, reached, samples)
        };
    let (footprint, amount) = choose|footprint: Scalar, amount: Scalar|
        {
            &&& #[trigger] call_ensures(
                M::footprint,
                (math, layer.density, layer.max_distance),
                footprint,
            )
            &&& #[trigger] call_ensures(
                M::amount,
                (math, layer.density, item.world_size@[0], item.world_size@[1]),
                amount,
            )
            &&& total == spots_of(item.world_size, footprint, amount)
        };
    sample_target_is_limited(footprint);
    assert(reached_count(reached, samples.len() as int) >= 0);
}

/// No footprint is meant to hold more than 200000 samples.
pub proof fn sample_target_is_limited(footprint: Scalar)
    ensures
        0 <= target_of(footprint) <= 200000,
{
    let limit = Scalar { bits: SAMPLE_LIMIT };
    let taken = footprint.limited(Scalar { bits: ZERO }, limit);
    let unit = vstd::arithmetic::power2::pow2(149);
    vstd::arithmetic::power2::lemma2_to64();
    vstd::arithmetic::power2::lemma_pow2_adds(143, 6);
    vstd::arithmetic::power2::lemma_pow2_pos(149);
    let part = vstd::arithmetic::power2::pow2(143);
    assert(limit.scaled() == 12_800_000 * part);
    assert(12_800_000 * part == 200000 * (part * 64)) by (nonlinear_arith);
    vstd::arithmetic::div_mod::lemma_div_by_multiple(200000, unit as int);
    assert(limit.truncated() == 200000);
    if !taken.nan() {
        crate::scalar::truncation_keeps_the_order(taken, limit);
    }
}

impl DetailKind {
    /// The texture of the sprites of a layer of this kind, if it has any.
    pub open spec fn sprite_part(self) -> Option<Option<u64>> {
        match self {
            DetailKind::Billboard { texture_id, .. } => Some(texture_id),
            DetailKind::Mesh { .. } => None,
            DetailKind::TreeLod { impostor_texture_id, .. } => Some(impostor_texture_id),
        }
    }

    /// The mesh and the texture of the mesh instances of a layer of this kind,
    /// if it has any.
    pub open spec fn mesh_part(self) -> Option<(u64, Option<u64>)> {
        match self {
            DetailKind::Billboard { .. } => None,
            DetailKind::Mesh { mesh_id, texture_id, .. } => Some((mesh_id, texture_id)),
            DetailKind::TreeLod { mesh_id, mesh_texture_id, .. } => Some(
                (mesh_id, mesh_texture_id),
            ),
        }
    }

    /// The tint of every instance.
    pub open spec fn tint(self) -> [Scalar; 4] {
        match self {
            DetailKind::Billboard { colour, .. } => colour,
            DetailKind::Mesh { colour, .. } => colour,
            DetailKind::TreeLod { colour, .. } => colour,
        }
    }
}

/// Whether a layer with the given samples contributes a sprite batch.
pub open spec fn has_sprites(layer: DetailLayer, samples: Seq<Option<Instance>>) -> bool {
    layer.kind.sprite_part() is Some && sprite_positions(samples, samples.len() as int).len() > 0
}

/// Whether a layer with the given samples contributes a mesh batch.
pub open spec fn has_meshes(layer: DetailLayer, samples: Seq<Option<Instance>>) -> bool {
    layer.kind.mesh_part() is Some && mesh_transforms(samples, samples.len() as int).len() > 0
}

/// Whether `sprite` is the sprite batch of a layer with the given samples.
pub open spec fn is_sprite_batch(
    layer: DetailLayer,
    samples: Seq<Option<Instance>>,
    sprite: SpriteItem,
) -> bool {
    &&& layer.kind.sprite_part() == Some(sprite.texture_id)
    &&& sprite.positions@ == sprite_positions(samples, samples.len() as int)
    &&& sprite.sizes@ == sprite_sizes(samples, samples.len() as int)
    &&& sprite.default_colour == layer.kind.tint()
    &&& sprite.default_size == layer.size
    &&& sprite.world_space
    &&& sprite.depth_write
    &&& sprite.alpha_blend
}

/// Whether `mesh` is the mesh batch of a layer with the given samples.
pub open spec fn is_mesh_batch(
    layer: DetailLayer,
    samples: Seq<Option<Instance>>,
    mesh: MeshInstanceItem,
) -> bool {
    &&& layer.kind.mesh_part() == Some((mesh.mesh_id, mesh.texture_id))
    &&& mesh.transforms@ == mesh_transforms(samples, samples.len() as int)
    &&& mesh.colours@.len() == mesh.transforms@.len()
    &&& forall|k: int|
        0 <= k < mesh.colours@.len() ==> #[trigger] mesh.colours@[k] == layer.kind.tint()
    &&& mesh.alpha_blend
}

/// Make the sprite batch of a layer.
fn make_sprite(
    layer: &DetailLayer,
    texture_id: Option<u64>,
    colour: [Scalar; 4],
    positions: Vec<Vec3>,
    sizes: Vec<Scalar>,
) -> (sprite: SpriteItem)
    ensures
        sprite == (SpriteItem {
            texture_id,
            positions,
            sizes,
            default_colour: colour,
            default_size: layer.size,
            world_space: true,
            depth_write: true,
            alpha_blend: true,
        }),
{
    SpriteItem {
        texture_id,
        positions,
        sizes,
        default_colour: colour,
        default_size: layer.size,
        world_space: true,
        depth_write: true,
        alpha_blend: true,
    }
}

/// Make the mesh batch of a layer.
fn make_mesh(
    mesh_id: u64,
    texture_id: Option<u64>,
    colour: [Scalar; 4],
    transforms: Vec<Transform>,
) -> (mesh: MeshInstanceItem)
    ensures
        mesh.mesh_id == mesh_id,
        mesh.texture_id == texture_id,
        mesh.transforms == transforms,
        mesh.colours@.len() == transforms@.len(),
        forall|k: int| 0 <= k < mesh.colours@.len() ==> #[trigger] mesh.colours@[k] == colour,
        mesh.alpha_blend,
{
    let mut colours: Vec<[Scalar; 4]> = Vec::new();
    let mut k: usize = 0;
    while k < transforms.len()
        invariant
            k <= transforms@.len(),
            colours@.len() == k,
            forall|j: int| 0 <= j < k ==> #[trigger] colours@[j] == colour,
        decreases transforms@.len() - k,
    {
        colours.push(colour);
        k = k + 1;
    }
    MeshInstanceItem { mesh_id, texture_id, transforms, colours, alpha_blend: true }
}

/// Whether a layer with the given samples adds its batches to the output: a
/// mesh batch and a sprite batch, each where its kind has one and it is not
/// empty.
pub open spec fn adds_batches(
    layer: DetailLayer,
    samples: Seq<Option<Instance>>,
    before: DetailScatterOutput,
    after: DetailScatterOutput,
) -> bool {
    &&& if has_sprites(layer, samples) {
        &&& after.sprites@ == before.sprites@.push(after.sprites@.last())
        &&& is_sprite_batch(layer, samples, after.sprites@.last())
    } else {
        after.sprites@ == before.sprites@
    }
    &&& if has_meshes(layer, samples) {
        &&& after.mesh_instances@ == before.mesh_instances@.push(after.mesh_instances@.last())
        &&& is_mesh_batch(layer, samples, after.mesh_instances@.last())
    } else {
        after.mesh_instances@ == before.mesh_instances@
    }
}

/// Add the batches of a layer to the output.
pub fn add_batches(layer: &DetailLayer, instances: LayerInstances, out: &mut DetailScatterOutput)
    ensures
        forall|samples: Seq<Option<Instance>>| #[trigger]
            instances.gathers(samples) ==> adds_batches(*layer, samples, *old(out), *final(out)),
{
    match layer.kind {
        DetailKind::Billboard { texture_id, colour } => {
            if instances.positions.len() > 0 {
                let sprite = make_sprite(
                    layer,
                    texture_id,
                    colour,
                    instances.positions,
                    instances.sizes,
                );
                out.sprites.push(sprite);
            }
        },
        DetailKind::Mesh { mesh_id, texture_id, colour } => {
            if instances.transforms.len() > 0 {
                let mesh = make_mesh(mesh_id, texture_id, colour, instances.transforms);
                out.mesh_instances.push(mesh);
            }
        },
        DetailKind::TreeLod {
            mesh_id,
            mesh_texture_id,
            impostor_texture_id,
            colour,
            switch_distance: _,
        } => {
            if instances.transforms.len() > 0 {
                let mesh = make_mesh(mesh_id, mesh_texture_id, colour, instances.transforms);
                out.mesh_instances.push(mesh);
            }
            if instances.positions.len() > 0 {
                let sprite = make_sprite(
                    layer,
                    impostor_texture_id,
                    colour,
                    instances.positions,
                    instances.sizes,
                );
                out.sprites.push(sprite);
            }
        },
    }
}

/// Whether `stages` are the batches before the first layer, after the first
/// one and so on, `samples` being what each of them yields.
pub open spec fn scatters<M: ScatterMath>(
    math: &M,
    item: &TerrainItem,
    layers: Seq<DetailLayer>,
    params: DetailScatterParams,
    samples: Seq<Seq<Option<Instance>>>,
    stages: Seq<DetailScatterOutput>,
) -> bool {
    &&& samples.len() == layers.len()
    &&& stages.len() == layers.len() + 1
    &&& stages[0].sprites@.len() == 0
    &&& stages[0].mesh_instances@.len() == 0
    &&& forall|l: int|
        0 <= l < layers.len() ==> {
            &&& samples_layer(math, item, layers[l], l as usize, params, #[trigger] samples[l])
            &&& adds_batches(layers[l], samples[l], stages[l], stages[l + 1])
        }
}

/// Build per-frame sprite/mesh batches for the given detail layers.
///
/// One layer can contribute up to two batches: an instanced mesh and a
/// billboard set (the [`DetailKind::TreeLod`] case). What the output held
/// before is dropped.
pub fn scatter_terrain_details<M: ScatterMath>(
    item: &TerrainItem,
    layers: &[DetailLayer],
    params: &DetailScatterParams,
    out: &mut DetailScatterOutput,
    math: &M,
)
    requires
        layers@.len() > 0 ==> sampled_throughout(item),
    ensures
        exists|samples: Seq<Seq<Option<Instance>>>, stages: Seq<DetailScatterOutput>|
            {
                &&& #[trigger] scatters(math, item, layers@, *params, samples, stages)
                &&& stages.last() == *final(out)
            },
{
    out.clear();
    let ghost mut samples: Seq<Seq<Option<Instance>>> = Seq::empty();
    let ghost mut stages: Seq<DetailScatterOutput> = seq![*out];
    let mut l: usize = 0;
    while l < layers.len()
        invariant
            l <= layers@.len(),
            layers@.len() > 0 ==> sampled_throughout(item),
            samples.len() == l,
            stages.len() == l + 1,
            stages[0].sprites@.len() == 0,
            stages[0].mesh_instances@.len() == 0,
            stages.last() == *out,
            forall|k: int|
                0 <= k < l ==> {
                    &&& samples_layer(
                        math,
                        item,
                        layers@[k],
                        k as usize,
                        *params,
                        #[trigger] samples[k],
                    )
                    &&& adds_batches(layers@[k], samples[k], stages[k], stages[k + 1])
                },
        decreases layers@.len() - l,
    {
        let layer = &layers[l];
        let instances = scatter_layer(item, layer, l, params, math);
        let ghost taken = choose|taken: Seq<Option<Instance>>| #[trigger]
            samples_layer(math, item, *layer, l, *params, taken) && instances.gathers(taken);
        let ghost before = *out;
        add_batches(layer, instances, out);
        proof {
            assert(adds_batches(*layer, taken, before, *out));
            samples = samples.push(taken);
            stages = stages.push(*out);
        }
        l = l + 1;
    }
    assert(scatters(math, item, layers@, *params, samples, stages));
}

/// The random number for a purpose of a sample of a layer is always the same
/// one.
pub proof fn random_numbers_repeat(layer_idx: usize, i: u32, salt: u32, a: Scalar, b: Scalar)
    requires
        is_random(layer_idx, i, salt, a),
        is_random(layer_idx, i, salt, b),
    ensures
        a == b,
{
    crate::scalar::unsigned_numbers_are_unique(a, b);
}

/// How many of the first `count` samples yield an instance.
pub open spec fn found_count(samples: Seq<Option<Instance>>, count: int) -> nat
    decreases count,
{
    if count <= 0 {
        0
    } else if samples[count - 1] is Some {
        found_count(samples, count - 1) + 1
    } else {
        found_count(samples, count - 1)
    }
}

/// Every sprite has a size, and every instance is a sprite or a mesh instance.
pub proof fn every_instance_is_in_one_batch(samples: Seq<Option<Instance>>, count: int)
    requires
        0 <= count <= samples.len(),
    ensures
        sprite_positions(samples, count).len() == sprite_sizes(samples, count).len(),
        sprite_positions(samples, count).len() + mesh_transforms(samples, count).len()
            == found_count(samples, count),
        found_count(samples, count) <= count,
    decreases count,
{
    if count > 0 {
        every_instance_is_in_one_batch(samples, count - 1);
    }
}

/// Each layer contributes at most one sprite batch and at most one mesh batch.
pub proof fn layers_contribute_one_batch_of_a_sort<M: ScatterMath>(
    math: &M,
    item: &TerrainItem,
    layers: Seq<DetailLayer>,
    params: DetailScatterParams,
    samples: Seq<Seq<Option<Instance>>>,
    stages: Seq<DetailScatterOutput>,
    l: int,
)
    requires
        scatters(math, item, layers, params, samples, stages),
        0 <= l <= layers.len(),
    ensures
        stages[l].sprites@.len() <= l,
        stages[l].mesh_instances@.len() <= l,
    decreases l,
{
    if l > 0 {
        layers_contribute_one_batch_of_a_sort(
            math,
            item,
            layers,
            params,
            samples,
            stages,
            l - 1,
        );
        assert(adds_batches(layers[l - 1], samples[l - 1], stages[l - 1], stages[l]));
    }
}

/// Weights that were packed into splatmaps are what scattering reads back: the
/// weight of a layer at a texel is its byte there over 255, and zero for a
/// layer that was not given.
pub proof fn packed_weight_is_sampled(
    per_layer: Seq<Vec<u8>>,
    dims: [u32; 2],
    layer: int,
    fx: Scalar,
    fy: Scalar,
    weight: Scalar,
)
    requires
        0 <= layer < LAYER_COUNT,
        dims@[0] >= 1,
        dims@[1] >= 1,
        is_texel_weight(
            (crate::item::SplatmapView {
                rgba: crate::item::interleaved(
                    per_layer,
                    4 * (layer / 4),
                    crate::item::texel_count(dims),
                ),
                dims,
                version: 0,
            }),
            layer % 4,
            fx,
            fy,
            weight,
        ),
    ensures
        weight == crate::scalar::over_255(
            if layer < per_layer.len() {
                per_layer[layer]@[texel_at(fy, dims@[1]) * dims@[0] + texel_at(fx, dims@[0])]
            } else {
                0u8
            },
        ),
{
    let x = texel_at(fx, dims@[0]);
    let y = texel_at(fy, dims@[1]);
    let w = dims@[0] as int;
    let h = dims@[1] as int;
    if !fx.nan() {
        crate::scalar::truncation_keeps_the_order(fx, fx);
    }
    if !fy.nan() {
        crate::scalar::truncation_keeps_the_order(fy, fy);
    }
    assert(0 <= y * w + x < w * h) by (nonlinear_arith)
        requires
            0 <= x < w,
            0 <= y < h,
    ;
    crate::item::packed_channel_reads_back(
        per_layer,
        crate::item::texel_count(dims),
        layer,
        y * w + x,
    );
}

} // verus!
