//! What is seen of a terrain: which patches culling leaves, how fine they are, and
//! which of them are drawn.
use crate::bake::BakedPatch;
use crate::item::TerrainItem;
use crate::mesh::{MeshMath, PatchMesh};
use crate::plugin::{BakedTerrain, DrawCommand, PluginView, Viewpoint};
use crate::scalar::{Scalar, Vec3};
use vstd::arithmetic::div_mod::*;
use vstd::arithmetic::power2::*;
use vstd::prelude::*;

verus! {

/// Whether a frustum test rejects a box only where no point of the box is in view.
pub open spec fn rejects_unseen<V: Viewpoint>(view: &V, seen: spec_fn(Vec3) -> bool) -> bool {
    forall|lower: Vec3, upper: Vec3, p: Vec3|
        #![trigger call_ensures(V::culled, (view, lower, upper), true),
            crate::surface::in_box(lower, upper, p)]
        call_ensures(V::culled, (view, lower, upper), true) && crate::surface::in_box(
            lower,
            upper,
            p,
        ) ==> !seen(p)
}

/// A patch is hidden only where its whole box is out of view: where some point of the
/// box of a patch is in view, the patch is visible after culling. Boxes and meshes
/// stay as they were.
pub proof fn a_patch_in_view_is_visible<V: Viewpoint>(
    view: &V,
    seen: spec_fn(Vec3) -> bool,
    lod_distance: Scalar,
    max_lod: u32,
    before: BakedTerrain,
    after: BakedTerrain,
    k: int,
    p: Vec3,
)
    requires
        rejects_unseen(view, seen),
        crate::plugin::culls_terrain(view, lod_distance, max_lod, before, after),
        0 <= k < before.patches@.len(),
        crate::surface::in_box(before.patches@[k].aabb_min, before.patches@[k].aabb_max, p),
        seen(p),
    ensures
        after.patches@.len() == before.patches@.len(),
        after.patches@[k].visible,
        after.patches@[k].aabb_min == before.patches@[k].aabb_min,
        after.patches@[k].aabb_max == before.patches@[k].aabb_max,
        after.patches@[k].index_counts == before.patches@[k].index_counts,
{
    assert(crate::plugin::culls_patch(
        view,
        lod_distance,
        max_lod,
        before.patches@[k],
        after.patches@[k],
    ));
}

/// A patch whose box the frustum test rejects is hidden, and no other one is.
/// `outside` tells which boxes the test rejects.
pub proof fn a_patch_is_hidden_where_its_box_is_outside<V: Viewpoint>(
    view: &V,
    outside: spec_fn(Vec3, Vec3) -> bool,
    lod_distance: Scalar,
    max_lod: u32,
    before: BakedTerrain,
    after: BakedTerrain,
    k: int,
)
    requires
        forall|lower: Vec3, upper: Vec3, culled: bool| #[trigger]
            call_ensures(V::culled, (view, lower, upper), culled) ==> culled == outside(
                lower,
                upper,
            ),
        crate::plugin::culls_terrain(view, lod_distance, max_lod, before, after),
        0 <= k < before.patches@.len(),
    ensures
        after.patches@[k].visible == !outside(
            before.patches@[k].aabb_min,
            before.patches@[k].aabb_max,
        ),
        !after.patches@[k].visible ==> after.patches@[k].chosen_lod
            == before.patches@[k].chosen_lod,
{
    assert(crate::plugin::culls_patch(
        view,
        lod_distance,
        max_lod,
        before.patches@[k],
        after.patches@[k],
    ));
}

/// Every patch with a vertex in view is visible: of a terrain as it was baked, no
/// patch is hidden that has a vertex of any level of detail in view.
pub proof fn every_vertex_in_view_is_kept<M: MeshMath, V: Viewpoint>(
    math: &M,
    view: &V,
    seen: spec_fn(Vec3) -> bool,
    item: &TerrainItem,
    policy: crate::bake::BakePolicy,
    lod_distance: Scalar,
    max_lod: u32,
    before: BakedTerrain,
    meshes: Seq<Vec<PatchMesh>>,
    after: BakedTerrain,
    k: int,
    level: int,
    v: int,
)
    requires
        crate::bake::is_bake(math, item, policy, before.patches@, meshes, before.patch_grid),
        crate::surface::grows(math, item.placement()),
        crate::surface::gives_numbers(math, item.placement(), policy.skirt_depth),
        (Scalar { bits: crate::scalar::ZERO }).below(policy.skirt_depth)
            ==> crate::surface::lowers(math, policy.skirt_depth),
        1 <= item.dims@[0] <= i32::MAX,
        1 <= item.dims@[1] <= i32::MAX,
        1 <= policy.patch_cells < 0xFFFF,
        rejects_unseen(view, seen),
        crate::plugin::culls_terrain(view, lod_distance, max_lod, before, after),
        0 <= k < before.patches@.len(),
        0 <= level < meshes[k]@.len(),
        0 <= v < meshes[k]@[level].vertices@.len(),
        seen(crate::surface::position_of(meshes[k]@[level].vertices@[v])),
    ensures
        after.patches@[k].visible,
{
    crate::surface::patch_boxes_hold_every_vertex(
        math,
        item,
        policy,
        before.patches@,
        meshes,
        before.patch_grid,
        k,
        level,
        v,
    );
    a_patch_in_view_is_visible(
        view,
        seen,
        lod_distance,
        max_lod,
        before,
        after,
        k,
        crate::surface::position_of(meshes[k]@[level].vertices@[v]),
    );
}

/// The level of detail of a visible patch is the number of whole units of distance
/// to its box, up to the coarsest one: at less than one unit the finest.
pub proof fn one_level_per_unit_of_distance<V: Viewpoint>(
    view: &V,
    lod_distance: Scalar,
    max_lod: u32,
    before: BakedTerrain,
    after: BakedTerrain,
    k: int,
    units: int,
)
    requires
        max_lod >= 1,
        crate::plugin::culls_terrain(view, lod_distance, max_lod, before, after),
        0 <= k < before.patches@.len(),
        after.patches@[k].visible,
        0 <= units <= u32::MAX,
        forall|ratio: Scalar| #[trigger]
            call_ensures(
                V::lod_ratio,
                (
                    view,
                    before.patches@[k].aabb_min,
                    before.patches@[k].aabb_max,
                    lod_distance,
                ),
                ratio,
            ) ==> !ratio.nan() && units * pow2(149) <= ratio.scaled() < (units + 1) * pow2(149),
    ensures
        after.patches@[k].chosen_lod == if units < max_lod - 1 {
            units
        } else {
            max_lod - 1
        },
{
    assert(crate::plugin::culls_patch(
        view,
        lod_distance,
        max_lod,
        before.patches@[k],
        after.patches@[k],
    ));
    let ratio = choose|ratio: Scalar| #[trigger]
        call_ensures(
            V::lod_ratio,
            (view, before.patches@[k].aabb_min, before.patches@[k].aabb_max, lod_distance),
            ratio,
        ) && after.patches@[k].chosen_lod == crate::plugin::lod_at(ratio, max_lod) as u32;
    let unit = pow2(149) as int;
    lemma_pow2_pos(149);
    assert(0 <= units * unit) by (nonlinear_arith)
        requires
            0 <= units,
            unit > 0,
    ;
    assert(ratio.scaled() / unit == units) by {
        assert(units * unit + (ratio.scaled() - units * unit) == ratio.scaled());
        assert((units + 1) * unit == units * unit + unit) by (nonlinear_arith);
        lemma_fundamental_div_mod_converse(
            ratio.scaled(),
            unit,
            units,
            ratio.scaled() - units * unit,
        );
    }
}

/// Four times the squared distance from an eye to the centre of a box.
pub open spec fn apart(eye: Vec3, lower: Vec3, upper: Vec3) -> int {
    let x = lower.x.scaled() + upper.x.scaled() - 2 * eye.x.scaled();
    let y = lower.y.scaled() + upper.y.scaled() - 2 * eye.y.scaled();
    let z = lower.z.scaled() + upper.z.scaled() - 2 * eye.z.scaled();
    x * x + y * y + z * z
}

/// Nearer patches are no coarser: of two visible patches, the one whose box has its
/// centre nearer to the eye does not get a coarser level of detail.
pub proof fn nearer_patches_are_no_coarser<V: Viewpoint>(
    view: &V,
    eye: Vec3,
    lod_distance: Scalar,
    max_lod: u32,
    before: BakedTerrain,
    after: BakedTerrain,
    j: int,
    k: int,
)
    requires
        crate::plugin::culls_terrain(view, lod_distance, max_lod, before, after),
        0 <= j < before.patches@.len(),
        0 <= k < before.patches@.len(),
        forall|culled: bool| #[trigger]
            call_ensures(
                V::culled,
                (view, before.patches@[j].aabb_min, before.patches@[j].aabb_max),
                culled,
            ) ==> !culled,
        forall|culled: bool| #[trigger]
            call_ensures(
                V::culled,
                (view, before.patches@[k].aabb_min, before.patches@[k].aabb_max),
                culled,
            ) ==> !culled,
        forall|a: Vec3, b: Vec3, c: Vec3, d: Vec3, near: Scalar, far: Scalar| #[trigger]
            call_ensures(V::lod_ratio, (view, a, b, lod_distance), near)
                && #[trigger] call_ensures(V::lod_ratio, (view, c, d, lod_distance), far)
                && apart(eye, a, b) <= apart(eye, c, d) ==> !far.nan() && !far.below(near),
        apart(eye, before.patches@[j].aabb_min, before.patches@[j].aabb_max) <= apart(
            eye,
            before.patches@[k].aabb_min,
            before.patches@[k].aabb_max,
        ),
    ensures
        after.patches@[j].visible && after.patches@[k].visible,
        after.patches@[j].chosen_lod <= after.patches@[k].chosen_lod,
{
    let (a, b) = (before.patches@[j], before.patches@[k]);
    assert(crate::plugin::culls_patch(view, lod_distance, max_lod, a, after.patches@[j]));
    assert(crate::plugin::culls_patch(view, lod_distance, max_lod, b, after.patches@[k]));
    let near = choose|ratio: Scalar| #[trigger]
        call_ensures(V::lod_ratio, (view, a.aabb_min, a.aabb_max, lod_distance), ratio)
            && after.patches@[j].chosen_lod == crate::plugin::lod_at(ratio, max_lod) as u32;
    let far = choose|ratio: Scalar| #[trigger]
        call_ensures(V::lod_ratio, (view, b.aabb_min, b.aabb_max, lod_distance), ratio)
            && after.patches@[k].chosen_lod == crate::plugin::lod_at(ratio, max_lod) as u32;
    assert(!far.below(near));
    crate::plugin::further_patches_are_no_finer(near, far, max_lod);
    crate::scalar::truncation_keeps_the_order(near, far);
}

/// Culling a frame leaves every terrain with its patches and boxes, and every patch
/// of a submitted terrain visible that has a point of its box in view. Terrains that
/// were not submitted stay as they were.
pub proof fn a_frame_keeps_what_is_in_view<V: Viewpoint>(
    view: &V,
    seen: spec_fn(Vec3) -> bool,
    lod_distance: Scalar,
    max_lod: u32,
    items: Seq<TerrainItem>,
    stages: Seq<Map<u64, BakedTerrain>>,
    key: u64,
    count: int,
)
    requires
        rejects_unseen(view, seen),
        crate::plugin::culls_all(view, lod_distance, max_lod, items, stages),
        0 <= count <= items.len(),
    ensures
        stages[count].contains_key(key) == stages[0].contains_key(key),
        stages[0].contains_key(key) ==> {
            let (before, after) = (stages[0][key], stages[count][key]);
            let submitted = exists|i: int|
                0 <= i < count && (#[trigger] items[i]).settings.pick_id == key;
            &&& !submitted ==> after == before
            &&& after.cpu == before.cpu
            &&& after.patches@.len() == before.patches@.len()
            &&& forall|k: int|
                0 <= k < before.patches@.len() ==> {
                    &&& (#[trigger] after.patches@[k]).aabb_min == before.patches@[k].aabb_min
                    &&& after.patches@[k].aabb_max == before.patches@[k].aabb_max
                    &&& after.patches@[k].index_counts == before.patches@[k].index_counts
                }
            &&& forall|k: int, p: Vec3|
                #![trigger after.patches@[k], seen(p)]
                submitted && 0 <= k < before.patches@.len() && crate::surface::in_box(
                    before.patches@[k].aabb_min,
                    before.patches@[k].aabb_max,
                    p,
                ) && seen(p) ==> after.patches@[k].visible
        },
    decreases count,
{
    if count > 0 {
        a_frame_keeps_what_is_in_view(
            view,
            seen,
            lod_distance,
            max_lod,
            items,
            stages,
            key,
            count - 1,
        );
        let own = items[count - 1].settings.pick_id;
        let (earlier, later) = (stages[count - 1], stages[count]);
        assert(crate::plugin::culls_next(view, lod_distance, max_lod, own, earlier, later));
        if own == key && earlier.contains_key(key) {
            let (a, b) = (earlier[key], later[key]);
            assert(crate::plugin::culls_terrain(view, lod_distance, max_lod, a, b));
            assert(items[count - 1].settings.pick_id == key);
            assert forall|k: int| 0 <= k < a.patches@.len() implies ({
                &&& (#[trigger] b.patches@[k]).aabb_min == a.patches@[k].aabb_min
                &&& b.patches@[k].aabb_max == a.patches@[k].aabb_max
                &&& b.patches@[k].index_counts == a.patches@[k].index_counts
            }) by {
                assert(crate::plugin::culls_patch(
                    view,
                    lod_distance,
                    max_lod,
                    a.patches@[k],
                    b.patches@[k],
                ));
            }
            assert forall|k: int, p: Vec3|
                #![trigger b.patches@[k], seen(p)]
                0 <= k < a.patches@.len() && crate::surface::in_box(
                    a.patches@[k].aabb_min,
                    a.patches@[k].aabb_max,
                    p,
                ) && seen(p) implies b.patches@[k].visible by {
                a_patch_in_view_is_visible(
                    view,
                    seen,
                    lod_distance,
                    max_lod,
                    a,
                    b,
                    k,
                    p,
                );
            }
        } else {
            assert(earlier.contains_key(key) ==> later[key] == earlier[key]);
        }
    }
}

/// The command that draws a patch at the level of detail that was chosen for it, or
/// at the coarsest one that it has: all the indices of the mesh of that level.
pub open spec fn draw_call(key: u64, patch: BakedPatch, number: int) -> DrawCommand {
    let level = if patch.chosen_lod < patch.index_counts@.len() {
        patch.chosen_lod as int
    } else {
        patch.index_counts@.len() - 1
    };
    DrawCommand::DrawPatch {
        key,
        patch: number as usize,
        lod: level as usize,
        index_count: patch.index_counts@[level],
    }
}

/// Whether the `i`-th command draws while a terrain is bound: the one bound last
/// before it, by the `j`-th command, with only patches of that terrain in between,
/// each with a greater number than the one before.
pub open spec fn bound_by(commands: Seq<DrawCommand>, key: u64, i: int, j: int) -> bool {
    &&& 0 <= j < i < commands.len()
    &&& commands[j] == (DrawCommand::BindTerrain { key })
    &&& forall|m: int| j < m <= i ==> (#[trigger] commands[m]) is DrawPatch
    &&& forall|m: int, n: int|
        j < m < n <= i ==> (#[trigger] commands[m])->DrawPatch_patch < (
        #[trigger] commands[n])->DrawPatch_patch
}

/// Whether a run of commands draws visible patches of admitted terrains only, each
/// while its own terrain is bound and none twice while it is.
pub open spec fn orderly(
    baked: Map<u64, BakedTerrain>,
    admitted: spec_fn(u64) -> bool,
    commands: Seq<DrawCommand>,
) -> bool {
    forall|i: int|
        0 <= i < commands.len() && (#[trigger] commands[i]) is DrawPatch ==> {
            let key = commands[i]->DrawPatch_key;
            let number = commands[i]->DrawPatch_patch;
            &&& admitted(key)
            &&& baked.contains_key(key)
            &&& number < baked[key].patches@.len()
            &&& baked[key].patches@[number as int].visible
            &&& commands[i] == draw_call(key, baked[key].patches@[number as int], number as int)
            &&& exists|j: int| bound_by(commands, key, i, j)
        }
}

proof fn lemma_patch_run(key: u64, patches: Seq<BakedPatch>, count: int)
    requires
        0 <= count <= patches.len() <= usize::MAX,
        forall|k: int|
            0 <= k < patches.len() ==> (#[trigger] patches[k]).index_counts@.len() >= 1,
    ensures
        ({
            let run = crate::plugin::patch_commands(key, patches, count);
            &&& forall|i: int|
                0 <= i < run.len() ==> {
                    let number = (#[trigger] run[i])->DrawPatch_patch;
                    &&& run[i] is DrawPatch
                    &&& number < count
                    &&& patches[number as int].visible
                    &&& run[i] == draw_call(key, patches[number as int], number as int)
                }
            &&& forall|i: int, j: int|
                0 <= i < j < run.len() ==> (#[trigger] run[i])->DrawPatch_patch < (
                #[trigger] run[j])->DrawPatch_patch
        }),
    decreases count,
{
    if count > 0 {
        lemma_patch_run(key, patches, count - 1);
        let earlier = crate::plugin::patch_commands(key, patches, count - 1);
        let run = crate::plugin::patch_commands(key, patches, count);
        let patch = patches[count - 1];
        if patch.visible {
            assert(run == earlier.push(draw_call(key, patch, count - 1)));
        }
    }
}

proof fn lemma_terrain_run(
    baked: Map<u64, BakedTerrain>,
    admitted: spec_fn(u64) -> bool,
    earlier: Seq<DrawCommand>,
    key: u64,
)
    requires
        baked.contains_key(key),
        baked[key].wf(),
        admitted(key),
        orderly(baked, admitted, earlier),
    ensures
        orderly(
            baked,
            admitted,
            earlier + crate::plugin::terrain_commands(key, baked[key]),
        ),
{
    let patches = baked[key].patches@;
    assert(patches.len() == baked[key].patches.len());
    lemma_patch_run(key, patches, patches.len() as int);
    let run = crate::plugin::patch_commands(key, patches, patches.len() as int);
    let all = earlier + crate::plugin::terrain_commands(key, baked[key]);
    let start = earlier.len() as int;
    assert(all[start] == (DrawCommand::BindTerrain { key }));
    assert forall|m: int| start < m < all.len() implies #[trigger] all[m] == run[m - start - 1] by {
    }
    assert forall|i: int| 0 <= i < all.len() && (#[trigger] all[i]) is DrawPatch implies ({
        let owner = all[i]->DrawPatch_key;
        let number = all[i]->DrawPatch_patch;
        &&& admitted(owner)
        &&& baked.contains_key(owner)
        &&& number < baked[owner].patches@.len()
        &&& baked[owner].patches@[number as int].visible
        &&& all[i] == draw_call(owner, baked[owner].patches@[number as int], number as int)
        &&& exists|j: int| bound_by(all, owner, i, j)
    }) by {
        if i < start {
            assert(all[i] == earlier[i]);
            let owner = all[i]->DrawPatch_key;
            let j = choose|j: int| bound_by(earlier, owner, i, j);
            assert forall|m: int| j <= m <= i implies #[trigger] all[m] == earlier[m] by {}
            assert(bound_by(all, owner, i, j));
        } else {
            assert(all[i] == run[i - start - 1]);
            assert forall|m: int, n: int| start < m < n <= i implies (
            #[trigger] all[m])->DrawPatch_patch < (#[trigger] all[n])->DrawPatch_patch by {
                assert(all[m] == run[m - start - 1] && all[n] == run[n - start - 1]);
            }
            assert(bound_by(all, key, i, start));
        }
    }
}

/// The scene pass draws nothing but visible patches of items that are not hidden,
/// each at its own level of detail while its own terrain is bound, after the
/// pipeline has been set.
pub proof fn the_scene_pass_is_orderly(
    baked: Map<u64, BakedTerrain>,
    items: Seq<TerrainItem>,
    count: int,
)
    requires
        crate::plugin::all_wf(baked),
        0 <= count <= items.len(),
    ensures
        crate::plugin::paint_commands(baked, items, count).len() >= 1,
        crate::plugin::paint_commands(baked, items, count)[0] == DrawCommand::SetPipeline,
        orderly(
            baked,
            |key: u64|
                exists|i: int|
                    0 <= i < items.len() && (#[trigger] items[i]).settings.pick_id == key
                        && !items[i].settings.hidden,
            crate::plugin::paint_commands(baked, items, count),
        ),
    decreases count,
{
    let admitted = |key: u64|
        exists|i: int|
            0 <= i < items.len() && (#[trigger] items[i]).settings.pick_id == key
                && !items[i].settings.hidden;
    if count > 0 {
        the_scene_pass_is_orderly(baked, items, count - 1);
        let settings = items[count - 1].settings;
        if !settings.hidden && baked.contains_key(settings.pick_id) {
            assert(items[count - 1].settings.pick_id == settings.pick_id);
            assert(admitted(settings.pick_id));
            lemma_terrain_run(
                baked,
                admitted,
                crate::plugin::paint_commands(baked, items, count - 1),
                settings.pick_id,
            );
        }
    }
}

/// The outline mask pass draws nothing but visible patches of items that are selected
/// and not hidden, each at its own level of detail while its own terrain is bound,
/// after the pipeline has been set.
pub proof fn the_outline_pass_is_orderly(
    baked: Map<u64, BakedTerrain>,
    items: Seq<TerrainItem>,
    count: int,
)
    requires
        crate::plugin::all_wf(baked),
        0 <= count <= items.len(),
    ensures
        crate::plugin::outline_commands(baked, items, count).len() > 0
            ==> crate::plugin::outline_commands(baked, items, count)[0]
            == DrawCommand::SetPipeline,
        orderly(
            baked,
            |key: u64|
                exists|i: int|
                    0 <= i < items.len() && (#[trigger] items[i]).settings.pick_id == key
                        && items[i].settings.selected && !items[i].settings.hidden,
            crate::plugin::outline_commands(baked, items, count),
        ),
    decreases count,
{
    let admitted = |key: u64|
        exists|i: int|
            0 <= i < items.len() && (#[trigger] items[i]).settings.pick_id == key
                && items[i].settings.selected && !items[i].settings.hidden;
    if count > 0 {
        the_outline_pass_is_orderly(baked, items, count - 1);
        let settings = items[count - 1].settings;
        if !settings.hidden && settings.selected && baked.contains_key(settings.pick_id) {
            assert(items[count - 1].settings.pick_id == settings.pick_id);
            assert(admitted(settings.pick_id));
            let earlier = crate::plugin::outline_commands(baked, items, count - 1);
            let start = if earlier.len() == 0 {
                seq![DrawCommand::SetPipeline]
            } else {
                earlier
            };
            assert(orderly(baked, admitted, start));
            lemma_terrain_run(baked, admitted, start, settings.pick_id);
        }
    }
}

proof fn lemma_patch_is_in_the_run(key: u64, patches: Seq<BakedPatch>, count: int, k: int)
    requires
        0 <= k < count <= patches.len() <= usize::MAX,
        patches[k].visible,
    ensures
        crate::plugin::patch_commands(key, patches, count).contains(
            draw_call(key, patches[k], k),
        ),
    decreases count,
{
    let run = crate::plugin::patch_commands(key, patches, count);
    let earlier = crate::plugin::patch_commands(key, patches, count - 1);
    let wanted = draw_call(key, patches[k], k);
    if k == count - 1 {
        assert(run[run.len() - 1] == wanted);
    } else {
        lemma_patch_is_in_the_run(key, patches, count - 1, k);
        let at = choose|at: int| 0 <= at < earlier.len() && earlier[at] == wanted;
        assert(run[at] == wanted);
    }
}

/// Every visible patch of every baked item that is not hidden is drawn in the scene
/// pass, and in the outline mask pass where the item is selected.
pub proof fn every_visible_patch_is_drawn(
    baked: Map<u64, BakedTerrain>,
    items: Seq<TerrainItem>,
    count: int,
    i: int,
    k: int,
)
    requires
        0 <= i < count <= items.len(),
        !items[i].settings.hidden,
        baked.contains_key(items[i].settings.pick_id),
        0 <= k < baked[items[i].settings.pick_id].patches@.len(),
        baked[items[i].settings.pick_id].patches@[k].visible,
    ensures
        crate::plugin::paint_commands(baked, items, count).contains(
            draw_call(
                items[i].settings.pick_id,
                baked[items[i].settings.pick_id].patches@[k],
                k,
            ),
        ),
        items[i].settings.selected ==> crate::plugin::outline_commands(
            baked,
            items,
            count,
        ).contains(
            draw_call(
                items[i].settings.pick_id,
                baked[items[i].settings.pick_id].patches@[k],
                k,
            ),
        ),
    decreases count,
{
    let key = items[i].settings.pick_id;
    let patches = baked[key].patches@;
    assert(patches.len() == baked[key].patches.len());
    let wanted = draw_call(key, patches[k], k);
    let scene = crate::plugin::paint_commands(baked, items, count);
    let scene_before = crate::plugin::paint_commands(baked, items, count - 1);
    let mask = crate::plugin::outline_commands(baked, items, count);
    let mask_before = crate::plugin::outline_commands(baked, items, count - 1);
    if i == count - 1 {
        lemma_patch_is_in_the_run(key, patches, patches.len() as int, k);
        let run = crate::plugin::patch_commands(key, patches, patches.len() as int);
        let at = choose|at: int| 0 <= at < run.len() && run[at] == wanted;
        assert(scene[scene_before.len() + 1 + at] == wanted);
        if items[i].settings.selected {
            let start = if mask_before.len() == 0 {
                1
            } else {
                mask_before.len() as int
            };
            assert(mask[start + 1 + at] == wanted);
        }
    } else {
        every_visible_patch_is_drawn(baked, items, count - 1, i, k);
        let at = choose|at: int| 0 <= at < scene_before.len() && scene_before[at] == wanted;
        assert(scene[at] == wanted);
        if items[i].settings.selected {
            let at = choose|at: int| 0 <= at < mask_before.len() && mask_before[at] == wanted;
            assert(mask[at] == wanted);
        }
    }
}

proof fn lemma_frame_levels<V: Viewpoint>(
    view: &V,
    lod_distance: Scalar,
    max_lod: u32,
    items: Seq<TerrainItem>,
    stages: Seq<Map<u64, BakedTerrain>>,
    key: u64,
    count: int,
    k: int,
    units: int,
)
    requires
        crate::plugin::culls_all(view, lod_distance, max_lod, items, stages),
        0 <= count <= items.len(),
        stages[0].contains_key(key),
        0 <= k < stages[0][key].patches@.len(),
        max_lod >= 1,
        0 <= units <= u32::MAX,
        forall|ratio: Scalar| #[trigger]
            call_ensures(
                V::lod_ratio,
                (
                    view,
                    stages[0][key].patches@[k].aabb_min,
                    stages[0][key].patches@[k].aabb_max,
                    lod_distance,
                ),
                ratio,
            ) ==> !ratio.nan() && units * pow2(149) <= ratio.scaled() < (units + 1) * pow2(149),
        exists|i: int| 0 <= i < count && (#[trigger] items[i]).settings.pick_id == key,
    ensures
        stages[count].contains_key(key),
        k < stages[count][key].patches@.len(),
        stages[count][key].patches@[k].visible ==> stages[count][key].patches@[k].chosen_lod
            == if units < max_lod - 1 {
            units
        } else {
            max_lod - 1
        },
    decreases count,
{
    let never = |p: Vec3| false;
    a_frame_keeps_what_is_in_view(
        view,
        never,
        lod_distance,
        max_lod,
        items,
        stages,
        key,
        count - 1,
    );
    let own = items[count - 1].settings.pick_id;
    let (earlier, later) = (stages[count - 1], stages[count]);
    assert(crate::plugin::culls_next(view, lod_distance, max_lod, own, earlier, later));
    assert(earlier[key].patches@[k].aabb_min == stages[0][key].patches@[k].aabb_min);
    assert(earlier[key].patches@[k].aabb_max == stages[0][key].patches@[k].aabb_max);
    if own == key {
        let (a, b) = (earlier[key], later[key]);
        assert(crate::plugin::culls_terrain(view, lod_distance, max_lod, a, b));
        if b.patches@[k].visible {
            one_level_per_unit_of_distance(
                view,
                lod_distance,
                max_lod,
                a,
                b,
                k,
                units,
            );
        }
    } else {
        let i = choose|i: int| 0 <= i < count && (#[trigger] items[i]).settings.pick_id == key;
        assert(0 <= i < count - 1 && items[i].settings.pick_id == key);
        lemma_frame_levels(
            view,
            lod_distance,
            max_lod,
            items,
            stages,
            key,
            count - 1,
            k,
            units,
        );
        assert(later[key] == earlier[key]);
    }
}

/// Culling a frame goes by the settings of the plugin and leaves them as they were: of
/// every submitted terrain the patches with a point of their box in view are visible, and
/// a visible patch has one level of detail per distance that was set, up to the number of
/// levels that was set.
pub proof fn a_frame_is_culled_by_the_settings<V: Viewpoint>(
    view: &V,
    seen: spec_fn(Vec3) -> bool,
    before: PluginView,
    items: Seq<TerrainItem>,
    after: PluginView,
    i: int,
    k: int,
    p: Vec3,
    units: int,
)
    requires
        rejects_unseen(view, seen),
        before.wf(),
        crate::plugin::culls_frame(view, before, items, after),
        0 <= i < items.len(),
        before.baked.contains_key(items[i].settings.pick_id),
        0 <= k < before.baked[items[i].settings.pick_id].patches@.len(),
        0 <= units <= u32::MAX,
        ({
            let patch = before.baked[items[i].settings.pick_id].patches@[k];
            forall|ratio: Scalar| #[trigger]
                call_ensures(
                    V::lod_ratio,
                    (view, patch.aabb_min, patch.aabb_max, before.lod_distance),
                    ratio,
                ) ==> !ratio.nan() && units * pow2(149) <= ratio.scaled() < (units + 1) * pow2(
                    149,
                )
        }),
    ensures
        after.baked.contains_key(items[i].settings.pick_id),
        ({
            let patch = before.baked[items[i].settings.pick_id].patches@[k];
            let culled = after.baked[items[i].settings.pick_id].patches@[k];
            &&& crate::surface::in_box(patch.aabb_min, patch.aabb_max, p) && seen(p)
                ==> culled.visible
            &&& culled.visible ==> culled.chosen_lod == if units < before.max_lod - 1 {
                units
            } else {
                before.max_lod - 1
            }
        }),
        after.sample_count == before.sample_count,
        after.patch_cells == before.patch_cells,
        after.max_lod == before.max_lod,
        after.skirt_depth == before.skirt_depth,
        after.lod_distance == before.lod_distance,
{
    let key = items[i].settings.pick_id;
    let lod_distance = before.lod_distance.larger(Scalar { bits: crate::scalar::ONE });
    assert(lod_distance == before.lod_distance);
    let stages = choose|stages: Seq<Map<u64, BakedTerrain>>|
        {
            &&& #[trigger] crate::plugin::culls_all(
                view,
                lod_distance,
                before.max_lod,
                items,
                stages,
            )
            &&& stages[0] == before.baked
            &&& stages.last() == after.baked
        };
    let count = items.len() as int;
    assert(stages.last() == stages[count]);
    a_frame_keeps_what_is_in_view(
        view,
        seen,
        lod_distance,
        before.max_lod,
        items,
        stages,
        key,
        count,
    );
    lemma_frame_levels(
        view,
        lod_distance,
        before.max_lod,
        items,
        stages,
        key,
        count,
        k,
        units,
    );
    let culled = after.baked[key].patches@[k];
    assert(items[i].settings.pick_id == key);
}

} // verus!
