//! What preparing a frame keeps up to date: meshes, picking maps, textures and
//! uniform blocks are those of the items as they were submitted.
use crate::bake::{BakePolicy, StagedTexture};
use crate::item::TerrainItem;
use crate::mesh::MeshMath;
use crate::plugin::{BakedTerrain, ItemPlan, PluginView, Upload};
use crate::scalar::{Scalar, ONE, ZERO};
use vstd::arithmetic::div_mod::*;
use vstd::arithmetic::power2::*;
use vstd::prelude::*;

verus! {

/// Whether two items place and shape a terrain differently: another resolution,
/// extent, height range, origin or version of the heightmap.
pub open spec fn shaped_differently(a: &TerrainItem, b: &TerrainItem) -> bool {
    ||| a.dims@[0] != b.dims@[0]
    ||| a.dims@[1] != b.dims@[1]
    ||| !a.world_size@[0].equal_to(b.world_size@[0])
    ||| !a.world_size@[1].equal_to(b.world_size@[1])
    ||| !a.height_range@[0].equal_to(b.height_range@[0])
    ||| !a.height_range@[1].equal_to(b.height_range@[1])
    ||| !a.origin.x.equal_to(b.origin.x)
    ||| !a.origin.y.equal_to(b.origin.y)
    ||| !a.origin.z.equal_to(b.origin.z)
    ||| a.heightmap_version != b.heightmap_version
}

/// Whether two policies cut terrains differently: another patch size or number of
/// levels of detail, or skirts that differ by more than wobble, a 1024th of a unit.
pub open spec fn cut_differently(a: BakePolicy, b: BakePolicy) -> bool {
    let (p, q) = (a.skirt_depth.scaled(), b.skirt_depth.scaled());
    let wobble = pow2(139) as int;
    ||| a.patch_cells != b.patch_cells
    ||| a.max_lod != b.max_lod
    ||| {
        &&& !a.skirt_depth.nan() && !b.skirt_depth.nan()
        &&& 0 <= p < 0x4000_0000 * wobble
        &&& 0 <= q < 0x4000_0000 * wobble
        &&& p - q >= wobble || q - p >= wobble
    }
}

proof fn lemma_skirts_differ(a: Scalar, b: Scalar)
    requires
        !a.nan(),
        !b.nan(),
        0 <= a.scaled() < 0x4000_0000 * pow2(139),
        0 <= b.scaled() < 0x4000_0000 * pow2(139),
        a.scaled() - b.scaled() >= pow2(139) || b.scaled() - a.scaled() >= pow2(139),
    ensures
        a.quantised() as i32 != b.quantised() as i32,
{
    let m = pow2(139) as int;
    lemma_pow2_pos(139);
    lemma_whole(a);
    lemma_whole(b);
    let (p, q) = (a.scaled(), b.scaled());
    lemma_fundamental_div_mod(p, m);
    lemma_fundamental_div_mod(q, m);
    let (i, j, r, s) = (p / m, q / m, p % m, q % m);
    assert(i != j) by (nonlinear_arith)
        requires
            p == m * i + r,
            q == m * j + s,
            0 <= r < m,
            0 <= s < m,
            p - q >= m || q - p >= m,
    ;
}

proof fn lemma_whole(a: Scalar)
    requires
        !a.nan(),
        0 <= a.scaled() < 0x4000_0000 * pow2(139),
    ensures
        a.quantised() == a.scaled() / (pow2(139) as int),
        0 <= a.quantised() < 0x4000_0000,
{
    let m = pow2(139) as int;
    lemma_pow2_pos(139);
    let p = a.scaled();
    lemma_fundamental_div_mod(p, m);
    let (i, r) = (p / m, p % m);
    assert(0 <= i < 0x4000_0000) by (nonlinear_arith)
        requires
            p == m * i + r,
            0 <= r < m,
            0 <= p < 0x4000_0000 * m,
    ;
    if a.negative() {
        assert(crate::scalar::magnitude_of(a.pattern()) == 0);
        lemma_basic_div(0, m);
    }
}

/// A changed item is baked again: where an item differs in shape from the one that
/// was prepared before it, or the policy from the one before, everything is baked
/// and uploaded again. Where nothing of this changed, nothing is baked.
pub proof fn a_changed_item_is_baked_again<M: MeshMath>(
    math: &M,
    earlier_policy: BakePolicy,
    policy: BakePolicy,
    earlier: &TerrainItem,
    item: &TerrainItem,
    first: Option<BakedTerrain>,
    before: BakedTerrain,
    after: BakedTerrain,
    earlier_plan: ItemPlan,
    plan: ItemPlan,
)
    requires
        crate::plugin::prepares(math, earlier_policy, earlier, first, before, earlier_plan),
        crate::plugin::prepares(math, policy, item, Some(before), after, plan),
    ensures
        shaped_differently(earlier, item) || cut_differently(earlier_policy, policy)
            ==> plan.upload is Rebake,
        !shaped_differently(earlier, item) && earlier_policy == policy
            ==> !(plan.upload is Rebake),
{
    if !(earlier_policy.skirt_depth.nan()) && !policy.skirt_depth.nan() {
        let (p, q) = (earlier_policy.skirt_depth, policy.skirt_depth);
        if 0 <= p.scaled() < 0x4000_0000 * pow2(139) && 0 <= q.scaled() < 0x4000_0000 * pow2(139)
            && (p.scaled() - q.scaled() >= pow2(139) || q.scaled() - p.scaled() >= pow2(139)) {
            lemma_skirts_differ(p, q);
        }
    }
}

/// A terrain that was not baked before is baked.
pub proof fn a_new_item_is_baked<M: MeshMath>(
    math: &M,
    policy: BakePolicy,
    item: &TerrainItem,
    after: BakedTerrain,
    plan: ItemPlan,
)
    requires
        crate::plugin::prepares(math, policy, item, None, after, plan),
    ensures
        plan.upload is Rebake,
        plan.key == item.settings.pick_id,
{
}

/// Whether the ground and the signature of a baked terrain tell of the same place.
pub open spec fn in_step(baked: BakedTerrain) -> bool {
    let frame = baked.sig.frame;
    &&& baked.cpu.x.samples == frame.dims@[0] && baked.cpu.y.samples == frame.dims@[1]
    &&& baked.cpu.x.start == frame.origin.x && baked.cpu.y.start == frame.origin.y
    &&& baked.cpu.x.extent == frame.world_size@[0] && baked.cpu.y.extent == frame.world_size@[1]
}

/// After an item has been prepared, what is picked is the ground of that item,
/// whatever was baked before: as many samples, from the origin of the item on, over
/// its extent.
pub proof fn the_ground_is_that_of_the_item<M: MeshMath>(
    math: &M,
    policy: BakePolicy,
    item: &TerrainItem,
    before: Option<BakedTerrain>,
    after: BakedTerrain,
    plan: ItemPlan,
)
    requires
        crate::plugin::prepares(math, policy, item, before, after, plan),
        before matches Some(baked) ==> in_step(baked),
    ensures
        in_step(after),
        after.cpu.x.samples == item.dims@[0],
        after.cpu.y.samples == item.dims@[1],
        after.cpu.x.start == item.origin.x || after.cpu.x.start.equal_to(item.origin.x),
        after.cpu.y.start == item.origin.y || after.cpu.y.start.equal_to(item.origin.y),
        after.cpu.x.extent == item.world_size@[0] || after.cpu.x.extent.equal_to(
            item.world_size@[0],
        ),
        after.cpu.y.extent == item.world_size@[1] || after.cpu.y.extent.equal_to(
            item.world_size@[1],
        ),
{
}

/// Baking gives the picking map the heights of the samples, each in the place of its
/// sample. `high` tells which height a sample stands for.
pub proof fn picked_heights_are_those_of_the_samples<M: MeshMath>(
    math: &M,
    policy: BakePolicy,
    item: &TerrainItem,
    high: spec_fn(u16, Scalar) -> bool,
    before: Option<BakedTerrain>,
    after: BakedTerrain,
    plan: ItemPlan,
    k: int,
)
    requires
        forall|sample: u16, z: Scalar| #[trigger]
            call_ensures(M::height, (math, item.placement(), sample), z) ==> high(sample, z),
        crate::plugin::prepares(math, policy, item, before, after, plan),
        plan.upload is Rebake,
        0 <= k < item.samples().len(),
    ensures
        after.cpu.heights@.len() == item.samples().len(),
        high(item.samples()[k], after.cpu.heights@[k]),
{
    assert(call_ensures(
        M::height,
        (math, item.placement(), item.samples()[k]),
        after.cpu.heights@[k],
    ));
}

/// Whether two items are painted differently: another resolution or version of either
/// splatmap.
pub open spec fn painted_differently(a: &TerrainItem, b: &TerrainItem) -> bool {
    ||| a.splatmaps@[0]@.dims@ != b.splatmaps@[0]@.dims@
    ||| a.splatmaps@[1]@.dims@ != b.splatmaps@[1]@.dims@
    ||| a.splatmaps@[0]@.version != b.splatmaps@[0]@.version
    ||| a.splatmaps@[1]@.version != b.splatmaps@[1]@.version
}

/// Repainted splatmaps are uploaded: where an item is painted differently from the
/// one that was prepared before it, both are, into a new texture each where its
/// resolution changed; where neither paint nor shape changed, nothing is.
pub proof fn a_repainted_item_is_uploaded<M: MeshMath>(
    math: &M,
    policy: BakePolicy,
    earlier: &TerrainItem,
    item: &TerrainItem,
    first: Option<BakedTerrain>,
    before: BakedTerrain,
    after: BakedTerrain,
    earlier_plan: ItemPlan,
    plan: ItemPlan,
)
    requires
        crate::plugin::prepares(math, policy, earlier, first, before, earlier_plan),
        crate::plugin::prepares(math, policy, item, Some(before), after, plan),
        !shaped_differently(earlier, item),
    ensures
        painted_differently(earlier, item) ==> plan.upload is Splatmaps,
        !painted_differently(earlier, item) ==> plan.upload is Keep,
        plan.upload matches Upload::Splatmaps { a_resized, b_resized, .. } ==> a_resized == (
        earlier.splatmaps@[0]@.dims@ != item.splatmaps@[0]@.dims@) && b_resized == (
        earlier.splatmaps@[1]@.dims@ != item.splatmaps@[1]@.dims@),
        after.patches == before.patches,
        after.cpu == before.cpu,
{
}

/// The texture that an upload carries for one of the splatmaps, if it carries any.
pub open spec fn texture_of(upload: Upload, second: bool) -> Option<StagedTexture> {
    match upload {
        Upload::Rebake { splatmap_a, splatmap_b, .. } => Some(
            if second {
                splatmap_b
            } else {
                splatmap_a
            },
        ),
        Upload::Splatmaps { splatmap_a, splatmap_b, .. } => Some(
            if second {
                splatmap_b
            } else {
                splatmap_a
            },
        ),
        Upload::Keep => None,
    }
}

/// An uploaded texture shows its splatmap: it has its resolution, and channel `c` of
/// the texel in column `x` and row `y` is the byte of the splatmap there, or zero
/// where the splatmap is too short.
pub proof fn an_uploaded_texture_shows_its_splatmap<M: MeshMath>(
    math: &M,
    policy: BakePolicy,
    item: &TerrainItem,
    before: Option<BakedTerrain>,
    after: BakedTerrain,
    plan: ItemPlan,
    second: bool,
    x: int,
    y: int,
    c: int,
)
    requires
        crate::plugin::prepares(math, policy, item, before, after, plan),
        texture_of(plan.upload, second) is Some,
        ({
            let dims = item.splatmaps@[if second { 1int } else { 0int }]@.dims;
            &&& dims@[0] >= 1 && dims@[1] >= 1
            &&& dims@[0] * dims@[1] * 4 <= u32::MAX
            &&& 0 <= x < dims@[0] && 0 <= y < dims@[1]
        }),
        0 <= c < 4,
    ensures
        ({
            let map = item.splatmaps@[if second { 1int } else { 0int }]@;
            let texture = texture_of(plan.upload, second)->0;
            let from = (y * map.dims@[0] + x) * 4 + c;
            &&& texture.width == map.dims@[0] && texture.height == map.dims@[1]
            &&& texture.bytes@.len() == texture.height * texture.bytes_per_row
            &&& texture.bytes@[y * texture.bytes_per_row + 4 * x + c] == if from < map.rgba.len() {
                map.rgba[from]
            } else {
                0u8
            }
        }),
{
    let map = item.splatmaps@[if second { 1int } else { 0int }]@;
    let texture = texture_of(plan.upload, second)->0;
    assert(texture.stages(map.rgba, map.dims));
    let (w, h) = (map.dims@[0] as int, map.dims@[1] as int);
    let from = (y * w + x) * 4 + c;
    assert(y * (w * 4) + 4 * x + c == from && 0 <= from < w * h * 4 && h * (w * 4) == w * h * 4)
        by (nonlinear_arith)
        requires
            from == (y * w + x) * 4 + c,
            0 <= x < w,
            0 <= y < h,
            0 <= c < 4,
    ;
}

/// The uniform block holds what the shader reads where it reads it: the identity,
/// eight words per surface layer with its colour, metalness, roughness and height
/// bias, and the two parameters of the blend.
pub proof fn the_uniform_block_holds_the_surface<M: MeshMath>(
    math: &M,
    policy: BakePolicy,
    item: &TerrainItem,
    before: Option<BakedTerrain>,
    after: BakedTerrain,
    plan: ItemPlan,
    row: int,
    column: int,
    layer: int,
) -> (words: Seq<u32>)
    requires
        crate::plugin::prepares(math, policy, item, before, after, plan),
        0 <= row < 4,
        0 <= column < 4,
        0 <= layer < 8,
    ensures
        crate::trusted::memory_image(words, plan.uniform@),
        words.len() == 84,
        words[4 * column + row] == if row == column {
            ONE
        } else {
            ZERO
        },
        ({
            let start = 16 + 8 * layer;
            let own = item.surface_layers@[layer];
            &&& words[start] == own.albedo@[0].bits
            &&& words[start + 1] == own.albedo@[1].bits
            &&& words[start + 2] == own.albedo@[2].bits
            &&& words[start + 3] == own.metallic.bits
            &&& words[start + 4] == own.roughness.bits
            &&& words[start + 5] == own.height_bias.bits
        }),
        words[80] == item.height_blend_strength.bits,
        words[81] == item.height_blend_noise_scale.bits,
{
    let words = crate::bake::uniform_words(item);
    let start = 16 + 8 * layer;
    assert((start - 16) / 8 == layer && (start - 16) % 8 == 0);
    assert((start + 1 - 16) / 8 == layer && (start + 1 - 16) % 8 == 1);
    assert((start + 2 - 16) / 8 == layer && (start + 2 - 16) % 8 == 2);
    assert((start + 3 - 16) / 8 == layer && (start + 3 - 16) % 8 == 3);
    assert((start + 4 - 16) / 8 == layer && (start + 4 - 16) % 8 == 4);
    assert((start + 5 - 16) / 8 == layer && (start + 5 - 16) % 8 == 5);
    words
}

proof fn lemma_stages_are_in_step<M: MeshMath>(
    math: &M,
    policy: BakePolicy,
    items: Seq<TerrainItem>,
    stages: Seq<Map<u64, BakedTerrain>>,
    plans: Seq<ItemPlan>,
    count: int,
)
    requires
        crate::plugin::prepares_all(math, policy, items, stages, plans),
        forall|key: u64| #[trigger] stages[0].contains_key(key) ==> in_step(stages[0][key]),
        0 <= count <= items.len(),
    ensures
        forall|key: u64| #[trigger]
            stages[count].contains_key(key) ==> in_step(stages[count][key]),
    decreases count,
{
    if count > 0 {
        lemma_stages_are_in_step(math, policy, items, stages, plans, count - 1);
        let item = &items[count - 1];
        let (earlier, later) = (stages[count - 1], stages[count]);
        let plan = plans[count - 1];
        assert(crate::plugin::prepares_next(math, policy, item, earlier, later, plan));
        let own = item.settings.pick_id;
        the_ground_is_that_of_the_item(
            math,
            policy,
            item,
            crate::plugin::lookup(earlier, own),
            later[own],
            plan,
        );
        assert forall|key: u64| #[trigger] later.contains_key(key) implies in_step(later[key]) by {
            if key != own {
                assert(earlier.contains_key(key));
            }
        }
    }
}

proof fn lemma_last_item_stays<M: MeshMath>(
    math: &M,
    policy: BakePolicy,
    items: Seq<TerrainItem>,
    stages: Seq<Map<u64, BakedTerrain>>,
    plans: Seq<ItemPlan>,
    i: int,
    count: int,
)
    requires
        crate::plugin::prepares_all(math, policy, items, stages, plans),
        0 <= i < count <= items.len(),
        forall|j: int|
            i < j < items.len() ==> (#[trigger] items[j]).settings.pick_id
                != items[i].settings.pick_id,
    ensures
        stages[count].contains_key(items[i].settings.pick_id),
        stages[count][items[i].settings.pick_id] == stages[i + 1][items[i].settings.pick_id],
    decreases count,
{
    let (earlier, later) = (stages[count - 1], stages[count]);
    let plan = plans[count - 1];
    assert(crate::plugin::prepares_next(
        math,
        policy,
        &items[count - 1],
        earlier,
        later,
        plan,
    ));
    if count - 1 > i {
        lemma_last_item_stays(math, policy, items, stages, plans, i, count - 1);
        assert(items[count - 1].settings.pick_id != items[i].settings.pick_id);
    }
}

/// After a frame has been prepared, exactly the submitted terrains are held, each with
/// the ground of the item that was submitted last for it, whatever was held before. There
/// is one upload per item, in their order, and the settings stay as they were.
pub proof fn a_frame_holds_what_was_submitted<M: MeshMath>(
    math: &M,
    before: PluginView,
    items: Seq<TerrainItem>,
    plans: Seq<ItemPlan>,
    after: PluginView,
    i: int,
)
    requires
        crate::plugin::prepares_frame(math, before, items, plans, after),
        forall|key: u64| #[trigger] before.baked.contains_key(key) ==> in_step(before.baked[key]),
        0 <= i < items.len(),
        forall|j: int|
            i < j < items.len() ==> (#[trigger] items[j]).settings.pick_id
                != items[i].settings.pick_id,
    ensures
        plans.len() == items.len(),
        plans[i].key == items[i].settings.pick_id,
        after.baked.contains_key(items[i].settings.pick_id),
        ({
            let cpu = after.baked[items[i].settings.pick_id].cpu;
            &&& cpu.x.samples == items[i].dims@[0] && cpu.y.samples == items[i].dims@[1]
            &&& cpu.x.start == items[i].origin.x || cpu.x.start.equal_to(items[i].origin.x)
            &&& cpu.y.start == items[i].origin.y || cpu.y.start.equal_to(items[i].origin.y)
            &&& cpu.x.extent == items[i].world_size@[0] || cpu.x.extent.equal_to(
                items[i].world_size@[0],
            )
            &&& cpu.y.extent == items[i].world_size@[1] || cpu.y.extent.equal_to(
                items[i].world_size@[1],
            )
        }),
        forall|key: u64| #[trigger]
            after.baked.contains_key(key) ==> in_step(after.baked[key]) && exists|j: int|
                0 <= j < items.len() && (#[trigger] items[j]).settings.pick_id == key,
        after.sample_count == before.sample_count,
        after.patch_cells == before.patch_cells,
        after.max_lod == before.max_lod,
        after.skirt_depth == before.skirt_depth,
        after.lod_distance == before.lod_distance,
{
    let policy = BakePolicy {
        patch_cells: before.patch_cells,
        max_lod: before.max_lod,
        skirt_depth: before.skirt_depth,
    };
    let stages = choose|stages: Seq<Map<u64, BakedTerrain>>|
        {
            &&& #[trigger] crate::plugin::prepares_all(math, policy, items, stages, plans)
            &&& stages[0] == before.baked
            &&& crate::plugin::evicts(items, stages.last(), after.baked)
        };
    let count = items.len() as int;
    let key = items[i].settings.pick_id;
    lemma_stages_are_in_step(math, policy, items, stages, plans, i);
    lemma_stages_are_in_step(math, policy, items, stages, plans, count);
    lemma_last_item_stays(math, policy, items, stages, plans, i, count);
    let (earlier, later, plan) = (stages[i], stages[i + 1], plans[i]);
    assert(crate::plugin::prepares_next(math, policy, &items[i], earlier, later, plan));
    the_ground_is_that_of_the_item(
        math,
        policy,
        &items[i],
        crate::plugin::lookup(earlier, key),
        later[key],
        plan,
    );
    assert(stages.last() == stages[count]);
    assert(items[i].settings.pick_id == key);
    assert(crate::plugin::submitted(items, key));
    assert(after.baked.contains_key(key));
    assert(after.baked[key] == later[key]);
    assert(in_step(later[key]));
}

/// Formulas are told where the item lies: its resolution, extent, height range and
/// origin.
pub proof fn formulas_are_told_where_the_item_lies(item: &TerrainItem)
    ensures
        item.placement().dims == item.dims,
        item.placement().world_size == item.world_size,
        item.placement().height_range == item.height_range,
        item.placement().origin == item.origin,
{
}

/// An edit never leaves the version as it was.
pub proof fn an_edit_changes_the_version(version: u64)
    ensures
        crate::item::next_version(version) != version,
{
}

/// The samples of a blob are its pairs of bytes, the low byte first.
pub proof fn samples_are_pairs_of_bytes(bytes: Seq<u8>, i: int)
    requires
        0 <= i < bytes.len() / 2,
    ensures
        crate::item::decoded(bytes).len() == bytes.len() / 2,
        crate::item::decoded(bytes)[i] % 256 == bytes[2 * i],
        crate::item::decoded(bytes)[i] / 256 == bytes[2 * i + 1],
{
    let (low, high) = (bytes[2 * i], bytes[2 * i + 1]);
    assert(low + 256 * high <= 0xFFFF);
}

/// A baked item is drawn whole: where a frame bakes an item, the uploaded meshes cover
/// every cell of its heightmap, at every level of detail that the policy asks for. The
/// results are the patch over a cell, its first column and row, and the column and row of
/// the cell in it.
pub proof fn a_baked_item_is_drawn_whole<M: MeshMath>(
    math: &M,
    policy: BakePolicy,
    item: &TerrainItem,
    before: Option<BakedTerrain>,
    after: BakedTerrain,
    plan: ItemPlan,
    x: int,
    y: int,
) -> (drawn: (int, [u32; 2], int, int))
    requires
        crate::plugin::prepares(math, policy, item, before, after, plan),
        plan.upload is Rebake,
        1 <= policy.patch_cells < 0x4000,
        policy.max_lod >= 1,
        0 <= x < item.dims@[0] - 1,
        0 <= y < item.dims@[1] - 1,
    ensures
        0 <= drawn.0 < after.patches@.len(),
        after.patches@[drawn.0].visible,
        after.patches@[drawn.0].index_counts@.len() == policy.max_lod,
        plan.upload->meshes@.len() == after.patches@.len(),
        plan.upload->meshes@[drawn.0]@.len() == policy.max_lod,
        crate::mesh::is_patch_mesh(
            math,
            item,
            drawn.1,
            policy.patch_cells,
            0,
            policy.skirt_depth,
            plan.upload->meshes@[drawn.0]@[0],
        ),
        0 <= drawn.2 < crate::surface::side(policy.patch_cells, 0),
        0 <= drawn.3 < crate::surface::side(policy.patch_cells, 0),
        ({
            let (cells, dims) = (policy.patch_cells, item.dims);
            let (ox, oy) = (drawn.1@[0], drawn.1@[1]);
            &&& crate::surface::column_of(ox, cells, 0, drawn.2, dims@[0]) == x
            &&& crate::surface::column_of(ox, cells, 0, drawn.2 + 1, dims@[0]) == x + 1
            &&& crate::surface::column_of(oy, cells, 0, drawn.3, dims@[1]) == y
            &&& crate::surface::column_of(oy, cells, 0, drawn.3 + 1, dims@[1]) == y + 1
        }),
{
    let meshes = plan.upload->meshes@;
    let drawn = crate::surface::every_cell_is_drawn(
        math,
        item,
        policy,
        after.patches@,
        meshes,
        after.patch_grid,
        x,
        y,
    );
    crate::surface::every_level_has_its_own_triangles(
        math,
        item,
        policy,
        after.patches@,
        meshes,
        after.patch_grid,
        drawn.0,
        0,
    );
    drawn
}

/// An ordinary item is never turned away: one with a sample for every grid point and
/// splatmaps of up to 16384 texels along either axis can be prepared, whatever is known
/// of its terrain, and can be scattered over.
pub proof fn ordinary_items_are_accepted(
    item: &TerrainItem,
    policy: BakePolicy,
    known: Option<crate::plugin::Signatures>,
)
    requires
        1 <= policy.patch_cells <= 1024,
        item.dims@[0] <= 0x1000_0000,
        item.dims@[1] <= 0x1000_0000,
        item.dims@[0] * item.dims@[1] <= item.samples().len(),
        item.splatmaps@[0]@.dims@[0] <= 0x4000 && item.splatmaps@[0]@.dims@[1] <= 0x4000,
        item.splatmaps@[1]@.dims@[0] <= 0x4000 && item.splatmaps@[1]@.dims@[1] <= 0x4000,
    ensures
        crate::plugin::ready(item, policy, known),
        item.dims@[0] >= 1 && item.dims@[1] >= 1 ==> crate::detail::sampled_throughout(item),
{
    let cells = policy.patch_cells as nat;
    assert((cells + 1) * (cells + 1) + 4 * cells <= u32::MAX) by (nonlinear_arith)
        requires
            1 <= cells <= 1024,
    ;
    assert forall|w: u32, h: u32| 1 <= w <= 0x4000 && 1 <= h <= 0x4000 implies #[trigger] (w * h)
        * 4 <= u32::MAX by {
        assert((w * h) * 4 <= u32::MAX) by (nonlinear_arith)
            requires
                1 <= w <= 0x4000,
                1 <= h <= 0x4000,
        ;
    }
}

/// The vertex buffer is laid out as the vertex layout says: eight words per vertex, first
/// its position, then its normal, then its texture coordinate.
pub proof fn vertices_are_laid_out_in_order(
    vertices: Seq<crate::mesh::TerrainVertex>,
    i: int,
    axis: int,
)
    requires
        0 <= i < vertices.len(),
        0 <= axis < 3,
    ensures
        crate::mesh::vertex_words(vertices).len() == 8 * vertices.len(),
        crate::mesh::vertex_words(vertices)[8 * i + axis] == vertices[i].position@[axis].bits,
        crate::mesh::vertex_words(vertices)[8 * i + 3 + axis] == vertices[i].normal@[axis].bits,
        axis < 2 ==> crate::mesh::vertex_words(vertices)[8 * i + 6 + axis]
            == vertices[i].uv@[axis].bits,
{
    assert((8 * i + axis) / 8 == i && (8 * i + axis) % 8 == axis);
    assert((8 * i + 3 + axis) / 8 == i && (8 * i + 3 + axis) % 8 == 3 + axis);
    if axis < 2 {
        assert((8 * i + 6 + axis) / 8 == i && (8 * i + 6 + axis) % 8 == 6 + axis);
    }
}

/// The shader holds its four parts whole and in order, each on a line of its own.
pub proof fn the_shader_holds_its_parts_in_order(
    bindings: Seq<char>,
    pbr: Seq<char>,
    mask: Seq<char>,
    terrain: Seq<char>,
)
    ensures
        ({
            let source = crate::plugin::shader_source(bindings, pbr, mask, terrain);
            let a = bindings.len() as int;
            let b = a + 1 + pbr.len();
            let c = b + 1 + mask.len();
            &&& source.len() == c + 1 + terrain.len()
            &&& source.subrange(0, a) == bindings
            &&& source.subrange(a + 1, b) == pbr
            &&& source.subrange(b + 1, c) == mask
            &&& source.subrange(c + 1, source.len() as int) == terrain
            &&& source[a] == '\n' && source[b] == '\n' && source[c] == '\n'
        }),
{
    let source = crate::plugin::shader_source(bindings, pbr, mask, terrain);
    let a = bindings.len() as int;
    let b = a + 1 + pbr.len();
    let c = b + 1 + mask.len();
    assert(source.subrange(0, a) =~= bindings);
    assert(source.subrange(a + 1, b) =~= pbr);
    assert(source.subrange(b + 1, c) =~= mask);
    assert(source.subrange(c + 1, source.len() as int) =~= terrain);
}

/// A repainted splatmap is seen in the next frame: where one of the splatmaps of a
/// prepared item was replaced, the next frame uploads the texture with the new bytes, and
/// bakes nothing.
pub proof fn new_paint_is_seen_in_the_next_frame<M: MeshMath>(
    math: &M,
    policy: BakePolicy,
    earlier: &TerrainItem,
    item: &TerrainItem,
    first: Option<BakedTerrain>,
    before: BakedTerrain,
    after: BakedTerrain,
    earlier_plan: ItemPlan,
    plan: ItemPlan,
    second: bool,
    rgba: Seq<u8>,
    dims: [u32; 2],
    x: int,
    y: int,
    c: int,
)
    requires
        crate::plugin::prepares(math, policy, earlier, first, before, earlier_plan),
        crate::plugin::prepares(math, policy, item, Some(before), after, plan),
        !shaped_differently(earlier, item),
        crate::item::repainted(
            earlier.splatmaps@[if second { 1int } else { 0int }]@,
            rgba,
            dims,
            item.splatmaps@[if second { 1int } else { 0int }]@,
        ),
        dims@[0] * dims@[1] * 4 <= u32::MAX,
        rgba.len() == dims@[0] * dims@[1] * 4,
        0 <= x < dims@[0],
        0 <= y < dims@[1],
        0 <= c < 4,
    ensures
        plan.upload is Splatmaps,
        ({
            let texture = texture_of(plan.upload, second)->0;
            &&& texture.width == dims@[0] && texture.height == dims@[1]
            &&& texture.bytes@[y * texture.bytes_per_row + 4 * x + c] == rgba[(y * dims@[0] + x)
                * 4 + c]
        }),
{
    an_edit_changes_the_version(earlier.splatmaps@[0]@.version);
    an_edit_changes_the_version(earlier.splatmaps@[1]@.version);
    a_repainted_item_is_uploaded(
        math,
        policy,
        earlier,
        item,
        first,
        before,
        after,
        earlier_plan,
        plan,
    );
    an_uploaded_texture_shows_its_splatmap(
        math,
        policy,
        item,
        Some(before),
        after,
        plan,
        second,
        x,
        y,
        c,
    );
    let (w, h) = (dims@[0] as int, dims@[1] as int);
    assert((y * w + x) * 4 + c < w * h * 4) by (nonlinear_arith)
        requires
            0 <= x < w,
            0 <= y < h,
            0 <= c < 4,
    ;
}

/// A new heightmap is seen in the next frame: where the samples of a prepared item were
/// replaced, the next frame bakes it again, with the new samples in the old place.
pub proof fn new_samples_are_seen_in_the_next_frame<M: MeshMath>(
    math: &M,
    policy: BakePolicy,
    high: spec_fn(u16, Scalar) -> bool,
    earlier: &TerrainItem,
    item: &TerrainItem,
    first: Option<BakedTerrain>,
    before: BakedTerrain,
    after: BakedTerrain,
    earlier_plan: ItemPlan,
    plan: ItemPlan,
    samples: Seq<u16>,
    dims: [u32; 2],
    k: int,
)
    requires
        crate::plugin::prepares(math, policy, earlier, first, before, earlier_plan),
        crate::plugin::prepares(math, policy, item, Some(before), after, plan),
        crate::item::resampled(*earlier, samples, dims, *item),
        forall|sample: u16, z: Scalar| #[trigger]
            call_ensures(M::height, (math, item.placement(), sample), z) ==> high(sample, z),
        0 <= k < samples.len(),
    ensures
        plan.upload is Rebake,
        after.cpu.heights@.len() == samples.len(),
        high(samples[k], after.cpu.heights@[k]),
        after.cpu.x.samples == dims@[0] && after.cpu.y.samples == dims@[1],
        after.cpu.x.start == earlier.origin.x && after.cpu.y.start == earlier.origin.y,
        after.cpu.x.extent == earlier.world_size@[0],
        after.cpu.y.extent == earlier.world_size@[1],
        plan.key == earlier.settings.pick_id,
{
    an_edit_changes_the_version(earlier.heightmap_version);
    a_changed_item_is_baked_again(
        math,
        policy,
        policy,
        earlier,
        item,
        first,
        before,
        after,
        earlier_plan,
        plan,
    );
    picked_heights_are_those_of_the_samples(
        math,
        policy,
        item,
        high,
        Some(before),
        after,
        plan,
        k,
    );
}

/// A blob loads exactly where it has two bytes per grid point, low byte first, row by row,
/// and the item is placed as was asked, visible, and covered by its first layer.
pub proof fn a_blob_loads_row_by_row(
    bytes: Seq<u8>,
    frame: crate::item::GridFrame,
    item: Option<TerrainItem>,
    x: int,
    y: int,
)
    requires
        crate::item::loads(bytes, frame, item),
        0 <= x < frame.dims@[0],
        0 <= y < frame.dims@[1],
    ensures
        item is Some <==> bytes.len() == frame.dims@[0] * frame.dims@[1] * 2,
        item matches Some(loaded) ==> {
            let k = y * frame.dims@[0] + x;
            &&& loaded.samples().len() == frame.dims@[0] * frame.dims@[1]
            &&& loaded.samples()[k] == bytes[2 * k] + 256 * bytes[2 * k + 1]
            &&& loaded.dims == frame.dims && loaded.origin == frame.origin
            &&& loaded.world_size == frame.world_size
            &&& loaded.height_range == frame.height_range
            &&& !loaded.settings.hidden && !loaded.settings.selected
            &&& loaded.settings.pick_id == 0
            &&& loaded.splatmaps@[0]@.rgba == seq![255u8, 0, 0, 0]
            &&& loaded.splatmaps@[1]@.rgba == seq![0u8, 0, 0, 0]
        },
{
    let (w, h) = (frame.dims@[0] as int, frame.dims@[1] as int);
    let k = y * w + x;
    assert(0 <= k < w * h) by (nonlinear_arith)
        requires
            k == y * w + x,
            0 <= x < w,
            0 <= y < h,
    ;
    if item is Some {
        samples_are_pairs_of_bytes(bytes, k);
    }
}

/// Packed weights are where scattering and the shader look for them: the weight of layer
/// `l` at texel `t` is channel `l % 4` of that texel in splatmap `l / 4`, layers beyond
/// those given weigh nothing, and there are splatmaps exactly where there is a layer and
/// each has one weight per texel.
pub proof fn packed_weights_are_in_their_channel(
    per_layer: Seq<Vec<u8>>,
    dims: [u32; 2],
    maps: Option<[crate::item::SplatmapData; 2]>,
    l: int,
    t: int,
)
    requires
        crate::item::packs(per_layer, dims, maps),
        0 <= l < 8,
        0 <= t < dims@[0] * dims@[1],
    ensures
        maps is Some <==> per_layer.len() > 0 && forall|k: int|
            0 <= k < per_layer.len() ==> (#[trigger] per_layer[k])@.len() == dims@[0] * dims@[1],
        maps matches Some(packed) ==> {
            let map = packed@[l / 4]@;
            &&& map.dims == dims
            &&& map.rgba.len() == 4 * (dims@[0] * dims@[1])
            &&& map.rgba[4 * t + l % 4] == if l < per_layer.len() {
                per_layer[l]@[t]
            } else {
                0u8
            }
        },
{
    crate::item::packed_channel_reads_back(
        per_layer,
        crate::item::texel_count(dims),
        l,
        t,
    );
}

/// The descriptors of surface layers reach the shader: slot `l` of the uniform block holds
/// the `l`-th of them, and the rest of the item stays as it was.
pub proof fn descriptors_reach_the_uniform_block<M: MeshMath>(
    math: &M,
    policy: BakePolicy,
    earlier: &TerrainItem,
    item: &TerrainItem,
    descriptors: Seq<crate::item::TerrainLayer>,
    before: Option<BakedTerrain>,
    after: BakedTerrain,
    plan: ItemPlan,
    l: int,
) -> (words: Seq<u32>)
    requires
        crate::item::surfaced(*earlier, descriptors, *item),
        crate::plugin::prepares(math, policy, item, before, after, plan),
        0 <= l < 8,
        l < descriptors.len(),
    ensures
        crate::trusted::memory_image(words, plan.uniform@),
        words[16 + 8 * l] == descriptors[l].albedo@[0].bits,
        words[16 + 8 * l + 1] == descriptors[l].albedo@[1].bits,
        words[16 + 8 * l + 2] == descriptors[l].albedo@[2].bits,
        words[16 + 8 * l + 3] == descriptors[l].metallic.bits,
        words[16 + 8 * l + 4] == descriptors[l].roughness.bits,
        words[16 + 8 * l + 5] == descriptors[l].height_bias.bits,
        item.samples() == earlier.samples(),
        item.heightmap_version == earlier.heightmap_version,
        item.dims == earlier.dims && item.world_size == earlier.world_size,
        item.height_range == earlier.height_range && item.origin == earlier.origin,
        item.splatmaps == earlier.splatmaps && item.settings == earlier.settings,
{
    assert(item.surface_layers@[l] == descriptors[l]);
    the_uniform_block_holds_the_surface(
        math,
        policy,
        item,
        before,
        after,
        plan,
        0,
        0,
        l,
    )
}

/// A setting within its limits is taken as it is, one beyond them is the nearest limit,
/// and nothing else of the plugin changes: patches have at least 2 cells per side, there are
/// 1 to 9 levels of detail, skirts are no less than 0 high and levels no less than 1 apart.
pub proof fn settings_are_taken_within_their_limits(
    before: PluginView,
    number: u32,
    length: Scalar,
    sampled: PluginView,
    cut: PluginView,
    levelled: PluginView,
    skirted: PluginView,
    spaced: PluginView,
)
    requires
        crate::plugin::sampled_by(before, number, sampled),
        crate::plugin::cut_by(before, number, cut),
        crate::plugin::levelled_by(before, number, levelled),
        crate::plugin::skirted_by(before, length, skirted),
        crate::plugin::spaced_by(before, length, spaced),
        !length.nan(),
    ensures
        sampled.sample_count == number,
        number >= 2 ==> cut.patch_cells == number,
        number < 2 ==> cut.patch_cells == 2,
        1 <= number <= 9 ==> levelled.max_lod == number,
        number < 1 ==> levelled.max_lod == 1,
        number > 9 ==> levelled.max_lod == 9,
        length.scaled() >= 0 ==> skirted.skirt_depth == length,
        length.scaled() < 0 ==> skirted.skirt_depth.scaled() == 0,
        length.scaled() >= (Scalar { bits: ONE }).scaled() ==> spaced.lod_distance == length,
        length.scaled() < (Scalar { bits: ONE }).scaled() ==> spaced.lod_distance == (Scalar {
            bits: ONE,
        }),
        ({
            let rest = |after: PluginView|
                PluginView {
                    sample_count: before.sample_count,
                    patch_cells: before.patch_cells,
                    max_lod: before.max_lod,
                    skirt_depth: before.skirt_depth,
                    lod_distance: before.lod_distance,
                    baked: after.baked,
                };
            &&& sampled == (PluginView { sample_count: sampled.sample_count, ..rest(sampled) })
            &&& cut == (PluginView { patch_cells: cut.patch_cells, ..rest(cut) })
            &&& levelled == (PluginView { max_lod: levelled.max_lod, ..rest(levelled) })
            &&& skirted == (PluginView { skirt_depth: skirted.skirt_depth, ..rest(skirted) })
            &&& spaced == (PluginView { lod_distance: spaced.lod_distance, ..rest(spaced) })
        }),
        sampled.baked == before.baked,
        cut.baked == before.baked,
        levelled.baked == before.baked,
        skirted.baked == before.baked,
        spaced.baked == before.baked,
{
    assert((Scalar { bits: ZERO }).scaled() == 0);
    crate::scalar::zero_is_below_one();
}

} // verus!
