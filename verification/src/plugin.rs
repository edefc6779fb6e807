//! The terrain plugin: which terrains are baked, what a frame uploads, which
//! patches are seen at which level of detail, what is drawn and what is
//! picked.
use crate::bake::{
    bake_patches, can_bake, can_stage, picking_map, same_dims, stage_splatmap, uniform_bytes,
    BakePolicy, BakeSig, BakedPatch, SplatSig, StagedTexture,
};
use crate::item::{TerrainCollection, TerrainItem};
use crate::mesh::{MeshMath, PatchMesh};
use crate::pick::{pick_heightmap, CpuHeightmap, HeightmapHit, PickRay, RayMath};
use crate::scalar::{Scalar, Vec3, ONE, ZERO};
use std::collections::HashMap;
use vstd::prelude::*;

verus! {

broadcast use vstd::std_specs::hash::group_hash_axioms;

/// The bit pattern of 64.0, the distance per level of detail of a new plugin.
pub const NEUTRAL_LOD_DISTANCE: u32 = 0x4280_0000;

/// The most levels of detail that a patch has.
pub const LOD_LIMIT: u32 = 9;

/// Baked state of one terrain.
pub struct BakedTerrain {
    pub patches: Vec<BakedPatch>,
    /// Patch grid dimensions in patches.
    pub patch_grid: [u32; 2],
    pub cpu: CpuHeightmap,
    pub sig: BakeSig,
    pub splat_sig: SplatSig,
}

impl BakedTerrain {
    /// Whether the heights are complete and every patch has a mesh.
    pub open spec fn wf(&self) -> bool {
        &&& self.cpu.complete()
        &&& forall|k: int|
            0 <= k < self.patches@.len() ==> (#[trigger] self.patches@[k]).index_counts@.len() >= 1
    }
}

/// Renders heightmap terrains.
pub struct TerrainPlugin {
    baked: HashMap<u64, BakedTerrain>,
    sample_count: u32,
    patch_cells: u32,
    max_lod: u32,
    skirt_depth: Scalar,
    lod_distance: Scalar,
}

/// What a [`TerrainPlugin`] holds.
#[verifier::ext_equal]
pub struct PluginView {
    /// The baked terrains by pick identifier.
    pub baked: Map<u64, BakedTerrain>,
    pub sample_count: u32,
    /// Patch size in heightmap cells per side at the finest level of detail.
    pub patch_cells: u32,
    /// Number of levels of detail per patch.
    pub max_lod: u32,
    /// Skirt height in world units; zero for no skirts.
    pub skirt_depth: Scalar,
    /// World-space distance per level of detail.
    pub lod_distance: Scalar,
}

impl PluginView {
    /// How terrains are cut into patches.
    pub open spec fn policy(self) -> BakePolicy {
        BakePolicy {
            patch_cells: self.patch_cells,
            max_lod: self.max_lod,
            skirt_depth: self.skirt_depth,
        }
    }

    /// Whether the settings are within their limits and every baked terrain
    /// is well-formed.
    pub open spec fn wf(self) -> bool {
        &&& self.patch_cells >= 2
        &&& 1 <= self.max_lod <= LOD_LIMIT
        &&& !self.skirt_depth.nan() && !self.skirt_depth.below(Scalar { bits: ZERO })
        &&& !self.lod_distance.nan() && !self.lod_distance.below(Scalar { bits: ONE })
        &&& forall|key: u64| #[trigger]
            self.baked.contains_key(key) ==> self.baked[key].wf()
    }
}

/// Whether setting the samples per pixel turns what the plugin holds from `before` into
/// `after`.
pub open spec fn sampled_by(before: PluginView, sample_count: u32, after: PluginView) -> bool {
    after == (PluginView { sample_count, ..before })
}

/// Whether setting the patch size turns what the plugin holds from `before` into `after`.
pub open spec fn cut_by(before: PluginView, cells: u32, after: PluginView) -> bool {
    after == (PluginView { patch_cells: if cells >= 2 { cells } else { 2 }, ..before })
}

/// Whether setting the number of levels of detail turns what the plugin holds from
/// `before` into `after`.
pub open spec fn levelled_by(before: PluginView, max_lod: u32, after: PluginView) -> bool {
    after == (PluginView {
        max_lod: if max_lod < 1 {
            1
        } else if max_lod > LOD_LIMIT {
            LOD_LIMIT
        } else {
            max_lod
        },
        ..before
    })
}

/// Whether setting the skirt height turns what the plugin holds from `before` into
/// `after`.
pub open spec fn skirted_by(before: PluginView, depth: Scalar, after: PluginView) -> bool {
    after == (PluginView { skirt_depth: depth.larger(Scalar { bits: ZERO }), ..before })
}

/// Whether setting the distance per level of detail turns what the plugin holds from
/// `before` into `after`.
pub open spec fn spaced_by(before: PluginView, distance: Scalar, after: PluginView) -> bool {
    after == (PluginView { lod_distance: distance.larger(Scalar { bits: ONE }), ..before })
}

impl View for TerrainPlugin {
    type V = PluginView;

    closed spec fn view(&self) -> PluginView {
        PluginView {
            baked: self.baked@,
            sample_count: self.sample_count,
            patch_cells: self.patch_cells,
            max_lod: self.max_lod,
            skirt_depth: self.skirt_depth,
            lod_distance: self.lod_distance,
        }
    }
}

impl Default for TerrainPlugin {
    fn default() -> (plugin: Self)
        ensures
            plugin@ == (PluginView {
                baked: Map::empty(),
                sample_count: 1,
                patch_cells: 32,
                max_lod: 4,
                skirt_depth: Scalar { bits: ONE },
                lod_distance: Scalar { bits: NEUTRAL_LOD_DISTANCE },
            }),
            plugin@.wf(),
    {
        let plugin = TerrainPlugin {
            baked: HashMap::new(),
            sample_count: 1,
            patch_cells: 32,
            max_lod: 4,
            skirt_depth: Scalar { bits: ONE },
            lod_distance: Scalar { bits: NEUTRAL_LOD_DISTANCE },
        };
        proof {
            crate::scalar::lemma_magnitude_monotone(ONE as nat, NEUTRAL_LOD_DISTANCE as nat);
            crate::scalar::lemma_magnitude_monotone(ZERO as nat, ONE as nat);
        }
        plugin
    }
}

impl TerrainPlugin {
    /// A plugin with the default settings and no baked terrain.
    pub fn new() -> (plugin: Self)
        ensures
            plugin@ == (PluginView {
                baked: Map::empty(),
                sample_count: 1,
                patch_cells: 32,
                max_lod: 4,
                skirt_depth: Scalar { bits: ONE },
                lod_distance: Scalar { bits: NEUTRAL_LOD_DISTANCE },
            }),
            plugin@.wf(),
    {
        Self::default()
    }

    /// Number of samples per pixel of the scene pass.
    pub fn with_sample_count(self, sample_count: u32) -> (plugin: Self)
        ensures
            plugin@ == (PluginView { sample_count, ..self@ }),
            sampled_by(self@, sample_count, plugin@),
            self@.wf() ==> plugin@.wf(),
    {
        let mut plugin = self;
        plugin.sample_count = sample_count;
        plugin
    }

    /// Patch size in heightmap cells per side at the finest level of detail.
    /// Default 32, at least 2. Heightmap dimensions need not be a multiple;
    /// the final row / column of patches is clipped to fit.
    pub fn with_patch_cells(self, cells: u32) -> (plugin: Self)
        ensures
            plugin@ == (PluginView { patch_cells: if cells >= 2 { cells } else { 2 }, ..self@ }),
            cut_by(self@, cells, plugin@),
            self@.wf() ==> plugin@.wf(),
    {
        let mut plugin = self;
        plugin.patch_cells = if cells >= 2 { cells } else { 2 };
        plugin
    }

    /// Number of levels of detail per patch. `1` disables levels of detail;
    /// the default 4 produces decimation factors 1x / 2x / 4x / 8x. Capped at
    /// 9.
    pub fn with_max_lod(self, max_lod: u32) -> (plugin: Self)
        ensures
            plugin@ == (PluginView {
                max_lod: if max_lod < 1 {
                    1
                } else if max_lod > LOD_LIMIT {
                    LOD_LIMIT
                } else {
                    max_lod
                },
                ..self@
            }),
            levelled_by(self@, max_lod, plugin@),
            self@.wf() ==> plugin@.wf(),
    {
        let mut plugin = self;
        plugin.max_lod = if max_lod < 1 {
            1
        } else if max_lod > LOD_LIMIT {
            LOD_LIMIT
        } else {
            max_lod
        };
        plugin
    }

    /// Skirt height in world units. Zero disables skirts.
    pub fn with_skirt_depth(self, depth: Scalar) -> (plugin: Self)
        ensures
            plugin@ == (PluginView {
                skirt_depth: depth.larger(Scalar { bits: ZERO }),
                ..self@
            }),
            skirted_by(self@, depth, plugin@),
            self@.wf() ==> plugin@.wf(),
    {
        let mut plugin = self;
        plugin.skirt_depth = depth.max(Scalar { bits: ZERO });
        plugin
    }

    /// World-space distance per level of detail, at least 1. Smaller values
    /// push patches to coarser levels sooner.
    pub fn with_lod_distance(self, distance: Scalar) -> (plugin: Self)
        ensures
            plugin@ == (PluginView {
                lod_distance: distance.larger(Scalar { bits: ONE }),
                ..self@
            }),
            spaced_by(self@, distance, plugin@),
            self@.wf() ==> plugin@.wf(),
    {
        let mut plugin = self;
        plugin.lod_distance = distance.max(Scalar { bits: ONE });
        plugin
    }

    /// Number of samples per pixel of the scene pass.
    pub fn sample_count(&self) -> (count: u32)
        ensures
            count == self@.sample_count,
    {
        self.sample_count
    }

    /// Whether the terrain of a pick identifier is baked.
    pub fn is_baked(&self, key: u64) -> (baked: bool)
        ensures
            baked == self@.baked.contains_key(key),
    {
        self.baked.contains_key(&key)
    }
}

/// What has to be uploaded for an item before it can be drawn.
pub enum Upload {
    /// Everything: the meshes of each patch at each level of detail, into new
    /// buffers, and both splatmaps, into new textures.
    Rebake {
        meshes: Vec<Vec<PatchMesh>>,
        splatmap_a: StagedTexture,
        splatmap_b: StagedTexture,
    },
    /// Both splatmaps, into a new texture each where its size changed.
    Splatmaps {
        splatmap_a: StagedTexture,
        splatmap_b: StagedTexture,
        a_resized: bool,
        b_resized: bool,
    },
    /// Nothing.
    Keep,
}

/// What a frame uploads for one item.
pub struct ItemPlan {
    /// The pick identifier of the item.
    pub key: u64,
    pub upload: Upload,
    /// The contents of the uniform block.
    pub uniform: Vec<u8>,
}

/// What is known of a terrain when its item is prepared.
#[derive(Clone, Copy)]
pub struct Signatures {
    pub sig: BakeSig,
    pub splat_sig: SplatSig,
}

/// The signatures of an item.
pub open spec fn item_signatures(item: &TerrainItem, policy: BakePolicy) -> Signatures {
    Signatures {
        sig: crate::bake::bake_signature(item, policy),
        splat_sig: crate::bake::splat_signature(item),
    }
}

/// The signatures of a baked terrain, if there is one.
pub open spec fn baked_signatures(baked: Option<BakedTerrain>) -> Option<Signatures> {
    match baked {
        None => None,
        Some(terrain) => Some(Signatures { sig: terrain.sig, splat_sig: terrain.splat_sig }),
    }
}

/// Whether what preparing an item needs is there: a heightmap that can be baked
/// where the item is baked, and splatmaps that can be staged where they are
/// uploaded.
pub open spec fn ready(item: &TerrainItem, policy: BakePolicy, known: Option<Signatures>) -> bool {
    let own = item_signatures(item, policy);
    let bakes = known is None || !known->0.sig.agrees(own.sig);
    let uploads = bakes || !known->0.splat_sig.agrees(own.splat_sig);
    &&& bakes ==> crate::bake::bakeable(item, policy)
    &&& uploads ==> {
        &&& crate::bake::texture_fits(item.splatmaps@[0]@.dims)
        &&& crate::bake::texture_fits(item.splatmaps@[1]@.dims)
    }
}

/// What is known of the terrain of a pick identifier once `count` items have
/// been prepared: the signatures of the last one with that identifier, or those
/// of what was baked before.
pub open spec fn known(
    baked: Map<u64, BakedTerrain>,
    items: Seq<TerrainItem>,
    policy: BakePolicy,
    key: u64,
    count: int,
) -> Option<Signatures>
    decreases count,
{
    if count <= 0 {
        baked_signatures(lookup(baked, key))
    } else if items[count - 1].settings.pick_id == key {
        Some(item_signatures(&items[count - 1], policy))
    } else {
        known(baked, items, policy, key, count - 1)
    }
}

/// Whether what preparing each item needs is there.
pub open spec fn all_ready(
    baked: Map<u64, BakedTerrain>,
    items: Seq<TerrainItem>,
    policy: BakePolicy,
) -> bool {
    forall|i: int|
        0 <= i < items.len() ==> ready(
            #[trigger] &items[i],
            policy,
            known(baked, items, policy, items[i].settings.pick_id, i),
        )
}

/// Whether two pieces of knowledge about a terrain lead to the same decisions.
spec fn interchangeable(a: Option<Signatures>, b: Option<Signatures>) -> bool {
    match (a, b) {
        (None, None) => true,
        (Some(x), Some(y)) => {
            &&& forall|sig: BakeSig| x.sig.agrees(sig) == #[trigger] y.sig.agrees(sig)
            &&& forall|sig: SplatSig| x.splat_sig.agrees(sig) == #[trigger] y.splat_sig.agrees(sig)
        },
        _ => false,
    }
}

/// Whether a baked terrain is out of date or missing.
pub open spec fn needs_rebake(
    before: Option<BakedTerrain>,
    item: &TerrainItem,
    policy: BakePolicy,
) -> bool {
    match before {
        None => true,
        Some(baked) => !baked.sig.agrees(crate::bake::bake_signature(item, policy)),
    }
}

/// Whether the uploaded splatmaps of a baked terrain are out of date.
pub open spec fn needs_splatmaps(baked: BakedTerrain, item: &TerrainItem) -> bool {
    !baked.splat_sig.agrees(crate::bake::splat_signature(item))
}

/// Whether preparing an item turns the baked terrain `before` into `after`
/// and uploads what `plan` says.
pub open spec fn prepares<M: MeshMath>(
    math: &M,
    policy: BakePolicy,
    item: &TerrainItem,
    before: Option<BakedTerrain>,
    after: BakedTerrain,
    plan: ItemPlan,
) -> bool {
    let map_a = item.splatmaps@[0]@;
    let map_b = item.splatmaps@[1]@;
    &&& plan.key == item.settings.pick_id
    &&& crate::trusted::memory_image(crate::bake::uniform_words(item), plan.uniform@)
    &&& if needs_rebake(before, item, policy) {
        &&& plan.upload matches Upload::Rebake { meshes, splatmap_a, splatmap_b }
        &&& crate::bake::is_bake(math, item, policy, after.patches@, meshes@, after.patch_grid)
        &&& crate::bake::is_picking_map(math, item, &after.cpu)
        &&& after.sig == crate::bake::bake_signature(item, policy)
        &&& after.splat_sig == crate::bake::splat_signature(item)
        &&& splatmap_a.stages(map_a.rgba, map_a.dims)
        &&& splatmap_b.stages(map_b.rgba, map_b.dims)
    } else if needs_splatmaps(before->0, item) {
        &&& plan.upload matches Upload::Splatmaps { splatmap_a, splatmap_b, a_resized, b_resized }
        &&& after == (BakedTerrain { splat_sig: crate::bake::splat_signature(item), ..before->0 })
        &&& splatmap_a.stages(map_a.rgba, map_a.dims)
        &&& splatmap_b.stages(map_b.rgba, map_b.dims)
        &&& a_resized == (before->0.splat_sig.dims_a@ != map_a.dims@)
        &&& b_resized == (before->0.splat_sig.dims_b@ != map_b.dims@)
    } else {
        &&& plan.upload is Keep
        &&& after == before->0
    }
}

/// Prepare one item: bake it where its baked terrain is missing or out of
/// date, or make its splatmaps ready where only they changed.
pub fn prepare_item<M: MeshMath>(
    before: Option<BakedTerrain>,
    item: &TerrainItem,
    policy: BakePolicy,
    math: &M,
) -> (prepared: (BakedTerrain, ItemPlan))
    requires
        ready(item, policy, baked_signatures(before)),
        policy.max_lod >= 1,
        before matches Some(baked) ==> baked.wf(),
    ensures
        prepares(math, policy, item, before, prepared.0, prepared.1),
        prepared.0.wf(),
{
    let key: u64 = item.settings.pick_id;
    let sig = BakeSig::of(item, policy);
    let splat_sig = SplatSig::of(item);
    let uniform = uniform_bytes(item);
    let current = match before {
        None => None,
        Some(baked) => if baked.sig.same(&sig) {
            Some(baked)
        } else {
            None
        },
    };
    let (baked, upload) = match current {
        None => {
            let bake = bake_patches(item, policy, math);
            let cpu = picking_map(item, math);
            let splatmap_a = stage_splatmap(
                item.splatmaps[0].rgba(),
                item.splatmaps[0].resolution(),
            );
            let splatmap_b = stage_splatmap(
                item.splatmaps[1].rgba(),
                item.splatmaps[1].resolution(),
            );
            let baked = BakedTerrain {
                patches: bake.patches,
                patch_grid: bake.patch_grid,
                cpu,
                sig,
                splat_sig,
            };
            (baked, Upload::Rebake { meshes: bake.meshes, splatmap_a, splatmap_b })
        },
        Some(baked) => {
            if baked.splat_sig.same(&splat_sig) {
                (baked, Upload::Keep)
            } else {
                let mut baked = baked;
                let splatmap_a = stage_splatmap(
                    item.splatmaps[0].rgba(),
                    item.splatmaps[0].resolution(),
                );
                let splatmap_b = stage_splatmap(
                    item.splatmaps[1].rgba(),
                    item.splatmaps[1].resolution(),
                );
                let a_resized: bool = !same_dims(baked.splat_sig.dims_a, splat_sig.dims_a);
                let b_resized: bool = !same_dims(baked.splat_sig.dims_b, splat_sig.dims_b);
                baked.splat_sig = splat_sig;
                (baked, Upload::Splatmaps { splatmap_a, splatmap_b, a_resized, b_resized })
            }
        },
    };
    (baked, ItemPlan { key, upload, uniform })
}

/// The baked terrain of a pick identifier, if there is one.
pub open spec fn lookup(baked: Map<u64, BakedTerrain>, key: u64) -> Option<BakedTerrain> {
    if baked.contains_key(key) {
        Some(baked[key])
    } else {
        None
    }
}

/// A prepared terrain has the signatures of its item, or such as lead to the
/// same decisions.
proof fn lemma_prepared_terrain_is_known<M: MeshMath>(
    math: &M,
    policy: BakePolicy,
    item: &TerrainItem,
    before: Option<BakedTerrain>,
    after: BakedTerrain,
    plan: ItemPlan,
)
    requires
        prepares(math, policy, item, before, after, plan),
    ensures
        interchangeable(Some(item_signatures(item, policy)), baked_signatures(Some(after))),
{
    let own = item_signatures(item, policy);
    assert forall|sig: BakeSig| own.sig.agrees(sig) == #[trigger] after.sig.agrees(sig) by {}
    assert forall|sig: SplatSig| own.splat_sig.agrees(sig) == #[trigger] after.splat_sig.agrees(
        sig,
    ) by {}
}

/// Whether preparing an item turns the baked terrains `before` into `after`.
pub open spec fn prepares_next<M: MeshMath>(
    math: &M,
    policy: BakePolicy,
    item: &TerrainItem,
    before: Map<u64, BakedTerrain>,
    after: Map<u64, BakedTerrain>,
    plan: ItemPlan,
) -> bool {
    let key = item.settings.pick_id;
    &&& after == before.insert(key, after[key])
    &&& prepares(math, policy, item, lookup(before, key), after[key], plan)
}

/// Whether `stages` are the baked terrains before the first item, after the
/// first one and so on, and `plans` what each of them uploads.
pub open spec fn prepares_all<M: MeshMath>(
    math: &M,
    policy: BakePolicy,
    items: Seq<TerrainItem>,
    stages: Seq<Map<u64, BakedTerrain>>,
    plans: Seq<ItemPlan>,
) -> bool {
    &&& stages.len() == items.len() + 1
    &&& plans.len() == items.len()
    &&& forall|i: int|
        0 <= i < items.len() ==> prepares_next(
            math,
            policy,
            &items[i],
            stages[i],
            stages[i + 1],
            #[trigger] plans[i],
        )
}

/// Whether an item with a pick identifier was submitted.
pub open spec fn submitted(items: Seq<TerrainItem>, key: u64) -> bool {
    exists|i: int| 0 <= i < items.len() && (#[trigger] items[i]).settings.pick_id == key
}

/// Whether `rest` is what is left of the baked terrains once those whose item
/// was not submitted are gone.
pub open spec fn evicts(
    items: Seq<TerrainItem>,
    baked: Map<u64, BakedTerrain>,
    rest: Map<u64, BakedTerrain>,
) -> bool {
    &&& forall|key: u64| #[trigger]
        rest.contains_key(key) <==> baked.contains_key(key) && submitted(items, key)
    &&& forall|key: u64| #[trigger] rest.contains_key(key) ==> rest[key] == baked[key]
}

/// Whether preparing a frame turns what the plugin holds from `before` into `after`
/// and uploads what `plans` says: the items are prepared one after another, then the
/// terrains whose item was not submitted are dropped.
pub open spec fn prepares_frame<M: MeshMath>(
    math: &M,
    before: PluginView,
    items: Seq<TerrainItem>,
    plans: Seq<ItemPlan>,
    after: PluginView,
) -> bool {
    &&& after == (PluginView { baked: after.baked, ..before })
    &&& exists|stages: Seq<Map<u64, BakedTerrain>>|
        {
            &&& #[trigger] prepares_all(math, before.policy(), items, stages, plans)
            &&& stages[0] == before.baked
            &&& evicts(items, stages.last(), after.baked)
        }
}

impl TerrainPlugin {
    /// What is known of the terrain of a pick identifier once `count` items
    /// have been prepared.
    fn known_after(&self, items: &Vec<TerrainItem>, key: u64, count: usize) -> (found: Option<
        Signatures,
    >)
        requires
            count <= items@.len(),
        ensures
            found == known(self@.baked, items@, self@.policy(), key, count as int),
    {
        let policy = self.bake_policy();
        let mut i: usize = count;
        while i > 0
            invariant
                i <= count <= items@.len(),
                policy == self@.policy(),
                known(self@.baked, items@, policy, key, count as int) == known(
                    self@.baked,
                    items@,
                    policy,
                    key,
                    i as int,
                ),
            decreases i,
        {
            let item = &items[i - 1];
            if item.settings.pick_id == key {
                return Some(
                    Signatures { sig: BakeSig::of(item, policy), splat_sig: SplatSig::of(item) },
                );
            }
            i = i - 1;
        }
        match self.baked.get(&key) {
            None => None,
            Some(terrain) => Some(
                Signatures { sig: terrain.sig, splat_sig: terrain.splat_sig },
            ),
        }
    }

    /// How terrains are cut into patches.
    fn bake_policy(&self) -> (policy: BakePolicy)
        ensures
            policy == self@.policy(),
    {
        BakePolicy {
            patch_cells: self.patch_cells,
            max_lod: self.max_lod,
            skirt_depth: self.skirt_depth,
        }
    }

    /// Tell whether what preparing each item needs is there.
    #[verifier::spinoff_prover]
    pub fn can_prepare(&self, collection: &TerrainCollection) -> (can: bool)
        ensures
            can == all_ready(self@.baked, collection.items@, self@.policy()),
    {
        let policy = self.bake_policy();
        let mut i: usize = 0;
        while i < collection.items.len()
            invariant
                i <= collection.items@.len(),
                policy == self@.policy(),
                forall|k: int|
                    0 <= k < i ==> ready(
                        #[trigger] &collection.items@[k],
                        policy,
                        known(
                            self@.baked,
                            collection.items@,
                            policy,
                            collection.items@[k].settings.pick_id,
                            k,
                        ),
                    ),
            decreases collection.items@.len() - i,
        {
            let item = &collection.items[i];
            let found = self.known_after(&collection.items, item.settings.pick_id, i);
            let sig = BakeSig::of(item, policy);
            let splat_sig = SplatSig::of(item);
            let bakes: bool = match found {
                None => true,
                Some(signatures) => !signatures.sig.same(&sig),
            };
            let uploads: bool = match found {
                None => true,
                Some(signatures) => bakes || !signatures.splat_sig.same(&splat_sig),
            };
            if (bakes && !can_bake(item, policy)) || (uploads && !(can_stage(
                item.splatmaps[0].resolution(),
            ) && can_stage(item.splatmaps[1].resolution()))) {
                assert(!ready(
                    &collection.items@[i as int],
                    policy,
                    known(
                        self@.baked,
                        collection.items@,
                        policy,
                        collection.items@[i as int].settings.pick_id,
                        i as int,
                    ),
                ));
                return false;
            }
            i = i + 1;
        }
        true
    }

    /// Drop the baked terrains whose item was not submitted.
    fn evict(&mut self, items: &Vec<TerrainItem>)
        ensures
            evicts(items@, old(self)@.baked, final(self)@.baked),
            final(self)@ == (PluginView { baked: final(self)@.baked, ..old(self)@ }),
    {
        let mut keys: Vec<u64> = Vec::new();
        let every = self.baked.keys();
        let ghost found = vstd::std_specs::iter::IteratorSpec::remaining(&every);
        for key in iter: every
            invariant
                iter.seq() == found,
                keys@.len() == iter.index(),
                forall|i: int| 0 <= i < keys@.len() ==> #[trigger] keys@[i] == *iter.seq()[i],
        {
            keys.push(*key);
        }
        proof {
            assert forall|key: u64| self.baked@.contains_key(key) implies keys@.contains(key) by {
                assert(found.unref().to_set().contains(key));
                let at = choose|at: int| 0 <= at < found.len() && found.unref()[at] == key;
                assert(keys@[at] == key);
            }
        }
        let ghost all = self.baked@;
        let mut i: usize = 0;
        while i < keys.len()
            invariant
                i <= keys@.len(),
                forall|key: u64| all.contains_key(key) ==> #[trigger] keys@.contains(key),
                self@ == (PluginView { baked: self.baked@, ..old(self)@ }),
                all == old(self)@.baked,
                forall|key: u64| #[trigger]
                    self.baked@.contains_key(key) ==> all.contains_key(key) && self.baked@[key]
                        == all[key],
                forall|key: u64| #[trigger]
                    all.contains_key(key) && submitted(items@, key) ==> self.baked@.contains_key(
                        key,
                    ),
                forall|j: int|
                    0 <= j < i && !submitted(items@, #[trigger] keys@[j])
                        ==> !self.baked@.contains_key(keys@[j]),
            decreases keys@.len() - i,
        {
            let key: u64 = keys[i];
            let mut seen: bool = false;
            let mut j: usize = 0;
            while j < items.len()
                invariant
                    j <= items@.len(),
                    seen == (exists|l: int|
                        0 <= l < j && (#[trigger] items@[l]).settings.pick_id == key),
                decreases items@.len() - j,
            {
                if items[j].settings.pick_id == key {
                    seen = true;
                }
                j = j + 1;
            }
            assert(seen == submitted(items@, key));
            if !seen {
                self.baked.remove(&key);
            }
            i = i + 1;
        }
        assert forall|key: u64| #[trigger]
            self.baked@.contains_key(key) implies submitted(items@, key) by {
            assert(keys@.contains(key));
        }
    }

    /// Bring the baked terrains up to date with the submitted items, and drop
    /// those whose item was not submitted. Returns what each item uploads, in
    /// the order of the items.
    pub fn prepare<M: MeshMath>(&mut self, collection: &TerrainCollection, math: &M) -> (plans: Vec<
        ItemPlan,
    >)
        requires
            old(self)@.wf(),
            all_ready(old(self)@.baked, collection.items@, old(self)@.policy()),
        ensures
            final(self)@.wf(),
            final(self)@ == (PluginView { baked: final(self)@.baked, ..old(self)@ }),
            exists|stages: Seq<Map<u64, BakedTerrain>>|
                {
                    &&& #[trigger] prepares_all(
                        math,
                        old(self)@.policy(),
                        collection.items@,
                        stages,
                        plans@,
                    )
                    &&& stages[0] == old(self)@.baked
                    &&& evicts(collection.items@, stages.last(), final(self)@.baked)
                },            prepares_frame(math, old(self)@, collection.items@, plans@, final(self)@),
    {
        let policy = self.bake_policy();
        let mut plans: Vec<ItemPlan> = Vec::new();
        let ghost mut stages: Seq<Map<u64, BakedTerrain>> = seq![self.baked@];
        let mut i: usize = 0;
        while i < collection.items.len()
            invariant
                i <= collection.items@.len(),
                policy == old(self)@.policy(),
                self@.wf(),
                self@ == (PluginView { baked: self.baked@, ..old(self)@ }),
                all_ready(old(self)@.baked, collection.items@, policy),
                forall|key: u64|
                    interchangeable(
                        #[trigger] known(
                            old(self)@.baked,
                            collection.items@,
                            policy,
                            key,
                            i as int,
                        ),
                        baked_signatures(lookup(self.baked@, key)),
                    ),
                plans@.len() == i,
                stages.len() == i + 1,
                stages[0] == old(self)@.baked,
                stages.last() == self.baked@,
                forall|k: int|
                    0 <= k < i ==> prepares_next(
                        math,
                        policy,
                        &collection.items@[k],
                        stages[k],
                        stages[k + 1],
                        #[trigger] plans@[k],
                    ),
            decreases collection.items@.len() - i,
        {
            let item = &collection.items[i];
            let key: u64 = item.settings.pick_id;
            let ghost earlier = self.baked@;
            assert(self@.baked == earlier);
            let before = self.baked.remove(&key);
            assert(before == lookup(earlier, key));
            proof {
                let told = known(old(self)@.baked, collection.items@, policy, key, i as int);
                assert(ready(&collection.items@[i as int], policy, told));
                assert(interchangeable(told, baked_signatures(before)));
            }
            let (baked, plan) = prepare_item(before, item, policy, math);
            let ghost after = baked;
            self.baked.insert(key, baked);
            plans.push(plan);
            proof {
                assert(self.baked@ =~= earlier.insert(key, after));
                assert forall|k: u64| #[trigger]
                    self@.baked.contains_key(k) implies self@.baked[k].wf() by {
                    assert(k == key || earlier.contains_key(k));
                }
                assert forall|k: u64|
                    interchangeable(
                        #[trigger] known(
                            old(self)@.baked,
                            collection.items@,
                            policy,
                            k,
                            i + 1,
                        ),
                        baked_signatures(lookup(self.baked@, k)),
                    ) by {
                    if k == key {
                        lemma_prepared_terrain_is_known(math, policy, item, before, after, plan);
                    } else {
                        assert(interchangeable(
                            known(old(self)@.baked, collection.items@, policy, k, i as int),
                            baked_signatures(lookup(earlier, k)),
                        ));
                    }
                }
                stages = stages.push(self.baked@);
                assert(prepares_next(math, policy, item, earlier, self.baked@, plan));
            }
            i = i + 1;
        }
        assert(prepares_all(math, policy, collection.items@, stages, plans@));
        self.evict(&collection.items);
        plans
    }
}

/// Where a frame is looked at from: the frustum test and the distance
/// formula, on bit patterns.
///
/// Nothing is assumed of them: what is stated of culling holds whatever they
/// return.
pub trait Viewpoint {
    /// Whether a box lies outside the frustum.
    fn culled(&self, aabb_min: Vec3, aabb_max: Vec3) -> bool;

    /// The distance from the eye to the centre of a box, in units of
    /// `lod_distance`.
    fn lod_ratio(&self, aabb_min: Vec3, aabb_max: Vec3, lod_distance: Scalar) -> Scalar;
}

/// The level of detail at a distance: one per whole unit, up to the coarsest.
pub open spec fn lod_at(ratio: Scalar, max_lod: u32) -> int {
    let coarsest = if max_lod >= 1 { max_lod - 1 } else { 0 };
    if ratio.truncated() < coarsest {
        ratio.truncated()
    } else {
        coarsest
    }
}

/// Choose the level of detail at a distance.
pub fn choose_lod(ratio: Scalar, max_lod: u32) -> (lod: u32)
    ensures
        lod == lod_at(ratio, max_lod),
{
    let coarsest: u32 = if max_lod >= 1 { max_lod - 1 } else { 0 };
    let whole: u32 = ratio.to_u32();
    if whole < coarsest {
        whole
    } else {
        coarsest
    }
}

/// Whether culling turns the patch `before` into `after`.
pub open spec fn culls_patch<V: Viewpoint>(
    view: &V,
    lod_distance: Scalar,
    max_lod: u32,
    before: BakedPatch,
    after: BakedPatch,
) -> bool {
    exists|culled: bool| #[trigger]
        call_ensures(V::culled, (view, before.aabb_min, before.aabb_max), culled) && if culled {
            after == (BakedPatch { visible: false, ..before })
        } else {
            exists|ratio: Scalar| #[trigger]
                call_ensures(
                    V::lod_ratio,
                    (view, before.aabb_min, before.aabb_max, lod_distance),
                    ratio,
                ) && after == (BakedPatch {
                    visible: true,
                    chosen_lod: lod_at(ratio, max_lod) as u32,
                    ..before
                })
        }
}

/// Whether culling turns the terrain `before` into `after`.
pub open spec fn culls_terrain<V: Viewpoint>(
    view: &V,
    lod_distance: Scalar,
    max_lod: u32,
    before: BakedTerrain,
    after: BakedTerrain,
) -> bool {
    &&& after == (BakedTerrain { patches: after.patches, ..before })
    &&& after.patches@.len() == before.patches@.len()
    &&& forall|k: int|
        0 <= k < before.patches@.len() ==> culls_patch(
            view,
            lod_distance,
            max_lod,
            before.patches@[k],
            #[trigger] after.patches@[k],
        )
}

/// Cull the patches of a terrain and choose the levels of detail of those
/// that are left.
pub fn cull_terrain<V: Viewpoint>(
    baked: BakedTerrain,
    lod_distance: Scalar,
    max_lod: u32,
    view: &V,
) -> (culled: BakedTerrain)
    ensures
        culls_terrain(view, lod_distance, max_lod, baked, culled),
        baked.wf() ==> culled.wf(),
{
    let mut patches: Vec<BakedPatch> = baked.patches;
    let ghost before = patches@;
    let mut i: usize = 0;
    while i < patches.len()
        invariant
            i <= patches@.len(),
            patches@.len() == before.len(),
            forall|k: int| i <= k < before.len() ==> #[trigger] patches@[k] == before[k],
            forall|k: int|
                0 <= k < i ==> culls_patch(
                    view,
                    lod_distance,
                    max_lod,
                    before[k],
                    #[trigger] patches@[k],
                ),
        decreases patches@.len() - i,
    {
        let lower = patches[i].aabb_min;
        let upper = patches[i].aabb_max;
        let culled: bool = view.culled(lower, upper);
        assert(call_ensures(
            V::culled,
            (view, before[i as int].aabb_min, before[i as int].aabb_max),
            culled,
        ));
        if culled {
            let patch = &mut patches[i];
            patch.visible = false;
        } else {
            let ratio = view.lod_ratio(lower, upper, lod_distance);
            let lod: u32 = choose_lod(ratio, max_lod);
            let patch = &mut patches[i];
            patch.visible = true;
            patch.chosen_lod = lod;
        }
        assert(culls_patch(view, lod_distance, max_lod, before[i as int], patches@[i as int]));
        i = i + 1;
    }
    BakedTerrain {
        patches,
        patch_grid: baked.patch_grid,
        cpu: baked.cpu,
        sig: baked.sig,
        splat_sig: baked.splat_sig,
    }
}

/// Whether culling an item turns the baked terrains `before` into `after`:
/// its terrain is culled where it is baked.
pub open spec fn culls_next<V: Viewpoint>(
    view: &V,
    lod_distance: Scalar,
    max_lod: u32,
    key: u64,
    before: Map<u64, BakedTerrain>,
    after: Map<u64, BakedTerrain>,
) -> bool {
    if before.contains_key(key) {
        &&& after == before.insert(key, after[key])
        &&& culls_terrain(view, lod_distance, max_lod, before[key], after[key])
    } else {
        after == before
    }
}

/// Whether `stages` are the baked terrains before culling the first item,
/// after the first one and so on.
pub open spec fn culls_all<V: Viewpoint>(
    view: &V,
    lod_distance: Scalar,
    max_lod: u32,
    items: Seq<TerrainItem>,
    stages: Seq<Map<u64, BakedTerrain>>,
) -> bool {
    &&& stages.len() == items.len() + 1
    &&& forall|i: int|
        0 <= i < items.len() ==> culls_next(
            view,
            lod_distance,
            max_lod,
            (#[trigger] items[i]).settings.pick_id,
            stages[i],
            stages[i + 1],
        )
}

/// Whether culling a frame turns what the plugin holds from `before` into `after`: the
/// terrains of the submitted items are culled one after another.
pub open spec fn culls_frame<V: Viewpoint>(
    view: &V,
    before: PluginView,
    items: Seq<TerrainItem>,
    after: PluginView,
) -> bool {
    let lod_distance = before.lod_distance.larger(Scalar { bits: ONE });
    &&& after == (PluginView { baked: after.baked, ..before })
    &&& exists|stages: Seq<Map<u64, BakedTerrain>>|
        {
            &&& #[trigger] culls_all(view, lod_distance, before.max_lod, items, stages)
            &&& stages[0] == before.baked
            &&& stages.last() == after.baked
        }
}

impl TerrainPlugin {
    /// Cull the patches of the submitted items and choose the levels of detail
    /// of those that are left.
    pub fn cull<V: Viewpoint>(&mut self, collection: &TerrainCollection, view: &V)
        requires
            old(self)@.wf(),
        ensures
            final(self)@.wf(),
            final(self)@ == (PluginView { baked: final(self)@.baked, ..old(self)@ }),
            exists|stages: Seq<Map<u64, BakedTerrain>>|
                {
                    &&& #[trigger] culls_all(
                        view,
                        old(self)@.lod_distance.larger(Scalar { bits: ONE }),
                        old(self)@.max_lod,
                        collection.items@,
                        stages,
                    )
                    &&& stages[0] == old(self)@.baked
                    &&& stages.last() == final(self)@.baked
                },            culls_frame(view, old(self)@, collection.items@, final(self)@),
    {
        let lod_distance = self.lod_distance.max(Scalar { bits: ONE });
        let max_lod: u32 = self.max_lod;
        let ghost mut stages: Seq<Map<u64, BakedTerrain>> = seq![self.baked@];
        let mut i: usize = 0;
        while i < collection.items.len()
            invariant
                i <= collection.items@.len(),
                self@.wf(),
                self@ == (PluginView { baked: self.baked@, ..old(self)@ }),
                stages.len() == i + 1,
                stages[0] == old(self)@.baked,
                stages.last() == self.baked@,
                forall|k: int|
                    0 <= k < i ==> culls_next(
                        view,
                        lod_distance,
                        max_lod,
                        (#[trigger] collection.items@[k]).settings.pick_id,
                        stages[k],
                        stages[k + 1],
                    ),
            decreases collection.items@.len() - i,
        {
            let key: u64 = collection.items[i].settings.pick_id;
            let ghost earlier = self.baked@;
            assert(self@.baked == earlier);
            let before = self.baked.remove(&key);
            assert(before == lookup(earlier, key));
            match before {
                None => {
                    assert(self.baked@ =~= earlier);
                },
                Some(baked) => {
                    let culled = cull_terrain(baked, lod_distance, max_lod, view);
                    let ghost after = culled;
                    self.baked.insert(key, culled);
                    assert(self.baked@ =~= earlier.insert(key, after));
                },
            }
            proof {
                stages = stages.push(self.baked@);
                assert forall|k: u64| #[trigger]
                    self@.baked.contains_key(k) implies self@.baked[k].wf() by {
                    assert(k == key || earlier.contains_key(k));
                }
                assert(culls_next(view, lod_distance, max_lod, key, earlier, self.baked@));
            }
            i = i + 1;
        }
        assert(culls_all(view, lod_distance, max_lod, collection.items@, stages));
    }
}

/// A command of a render pass.
#[derive(Clone, Copy, PartialEq, Eq, Debug, Structural)]
pub enum DrawCommand {
    /// Set the pipeline of the pass.
    SetPipeline,
    /// Bind the uniform block and the splatmaps of a terrain.
    BindTerrain { key: u64 },
    /// Draw the indices of one patch of the terrain at one level of detail.
    DrawPatch { key: u64, patch: usize, lod: usize, index_count: u32 },
}

impl BakedPatch {
    /// The level of detail at which the patch is drawn: the chosen one, or the
    /// coarsest that was baked.
    pub open spec fn drawn_lod(&self) -> int {
        if self.chosen_lod < self.index_counts@.len() {
            self.chosen_lod as int
        } else {
            self.index_counts@.len() - 1
        }
    }
}

/// The commands that draw the first `count` patches of a terrain.
pub open spec fn patch_commands(key: u64, patches: Seq<BakedPatch>, count: int) -> Seq<DrawCommand>
    decreases count,
{
    if count <= 0 {
        Seq::empty()
    } else {
        let earlier = patch_commands(key, patches, count - 1);
        let patch = patches[count - 1];
        if patch.visible {
            earlier.push(
                DrawCommand::DrawPatch {
                    key,
                    patch: (count - 1) as usize,
                    lod: patch.drawn_lod() as usize,
                    index_count: patch.index_counts@[patch.drawn_lod()],
                },
            )
        } else {
            earlier
        }
    }
}

/// The commands that draw a terrain.
pub open spec fn terrain_commands(key: u64, baked: BakedTerrain) -> Seq<DrawCommand> {
    seq![DrawCommand::BindTerrain { key }] + patch_commands(
        key,
        baked.patches@,
        baked.patches@.len() as int,
    )
}

/// The commands of the scene pass for the first `count` items.
pub open spec fn paint_commands(
    baked: Map<u64, BakedTerrain>,
    items: Seq<TerrainItem>,
    count: int,
) -> Seq<DrawCommand>
    decreases count,
{
    if count <= 0 {
        seq![DrawCommand::SetPipeline]
    } else {
        let earlier = paint_commands(baked, items, count - 1);
        let settings = items[count - 1].settings;
        if !settings.hidden && baked.contains_key(settings.pick_id) {
            earlier + terrain_commands(settings.pick_id, baked[settings.pick_id])
        } else {
            earlier
        }
    }
}

/// The commands of the outline mask pass for the first `count` items; the
/// pipeline is set before the first terrain that is drawn.
pub open spec fn outline_commands(
    baked: Map<u64, BakedTerrain>,
    items: Seq<TerrainItem>,
    count: int,
) -> Seq<DrawCommand>
    decreases count,
{
    if count <= 0 {
        Seq::empty()
    } else {
        let earlier = outline_commands(baked, items, count - 1);
        let settings = items[count - 1].settings;
        if !settings.hidden && settings.selected && baked.contains_key(settings.pick_id) {
            (if earlier.len() == 0 {
                seq![DrawCommand::SetPipeline]
            } else {
                earlier
            }) + terrain_commands(settings.pick_id, baked[settings.pick_id])
        } else {
            earlier
        }
    }
}

/// Append the commands that draw a terrain.
fn draw_terrain(key: u64, baked: &BakedTerrain, commands: &mut Vec<DrawCommand>)
    requires
        baked.wf(),
    ensures
        final(commands)@ == old(commands)@ + terrain_commands(key, *baked),
{
    let ghost earlier = commands@;
    commands.push(DrawCommand::BindTerrain { key });
    let mut i: usize = 0;
    while i < baked.patches.len()
        invariant
            baked.wf(),
            i <= baked.patches@.len(),
            commands@ == earlier + (seq![DrawCommand::BindTerrain { key }] + patch_commands(
                key,
                baked.patches@,
                i as int,
            )),
        decreases baked.patches@.len() - i,
    {
        let patch = &baked.patches[i];
        let ghost before = commands@;
        if patch.visible {
            let last: usize = patch.index_counts.len() - 1;
            let chosen: usize = patch.chosen_lod as usize;
            let lod: usize = if chosen < last { chosen } else { last };
            commands.push(
                DrawCommand::DrawPatch { key, patch: i, lod, index_count: patch.index_counts[lod] },
            );
        }
        i = i + 1;
        assert(commands@ =~= earlier + (seq![DrawCommand::BindTerrain { key }] + patch_commands(
            key,
            baked.patches@,
            i as int,
        )));
    }
}

impl TerrainPlugin {
    /// The commands that draw the submitted items in the scene pass: every
    /// visible patch of every baked item that is not hidden.
    pub fn paint(&self, collection: &TerrainCollection) -> (commands: Vec<DrawCommand>)
        requires
            self@.wf(),
        ensures
            commands@ == paint_commands(
                self@.baked,
                collection.items@,
                collection.items@.len() as int,
            ),
    {
        let mut commands: Vec<DrawCommand> = Vec::new();
        commands.push(DrawCommand::SetPipeline);
        assert(commands@ =~= paint_commands(self@.baked, collection.items@, 0));
        let mut i: usize = 0;
        while i < collection.items.len()
            invariant
                self@.wf(),
                i <= collection.items@.len(),
                commands@ == paint_commands(self@.baked, collection.items@, i as int),
            decreases collection.items@.len() - i,
        {
            let settings = &collection.items[i].settings;
            if !settings.hidden {
                if let Some(baked) = self.baked.get(&settings.pick_id) {
                    assert(self@.baked.contains_key(settings.pick_id));
                    draw_terrain(settings.pick_id, baked, &mut commands);
                }
            }
            i = i + 1;
        }
        commands
    }

    /// The commands that draw the submitted items in the outline mask pass:
    /// every visible patch of every baked item that is selected and not
    /// hidden.
    pub fn outline_mask(&self, collection: &TerrainCollection) -> (commands: Vec<DrawCommand>)
        requires
            self@.wf(),
        ensures
            commands@ == outline_commands(
                self@.baked,
                collection.items@,
                collection.items@.len() as int,
            ),
    {
        let mut commands: Vec<DrawCommand> = Vec::new();
        let mut bound: bool = false;
        let mut i: usize = 0;
        while i < collection.items.len()
            invariant
                self@.wf(),
                i <= collection.items@.len(),
                commands@ == outline_commands(self@.baked, collection.items@, i as int),
                bound == (commands@.len() > 0),
            decreases collection.items@.len() - i,
        {
            let settings = &collection.items[i].settings;
            if !settings.hidden && settings.selected {
                if let Some(baked) = self.baked.get(&settings.pick_id) {
                    assert(self@.baked.contains_key(settings.pick_id));
                    if !bound {
                        commands.push(DrawCommand::SetPipeline);
                        bound = true;
                        assert(commands@ =~= seq![DrawCommand::SetPipeline]);
                    }
                    draw_terrain(settings.pick_id, baked, &mut commands);
                }
            }
            i = i + 1;
        }
        commands
    }
}

/// Whether `hit` is the nearest of a run of hits; none where there is none.
pub open spec fn nearest_of(hits: Seq<Option<HeightmapHit>>, hit: Option<HeightmapHit>) -> bool {
    match hit {
        None => forall|i: int| 0 <= i < hits.len() ==> #[trigger] hits[i] is None,
        Some(best) => {
            &&& exists|i: int| 0 <= i < hits.len() && #[trigger] hits[i] == Some(best)
            &&& forall|i: int|
                0 <= i < hits.len() ==> (#[trigger] hits[i] matches Some(other)
                    ==> !other.t.below(best.t))
        },
    }
}

/// Whether `hits` are what picking each of the terrains `keys` along a ray
/// gives.
pub open spec fn picks_each<M: RayMath>(
    math: &M,
    ray: PickRay,
    baked: Map<u64, BakedTerrain>,
    keys: Seq<u64>,
    hits: Seq<Option<HeightmapHit>>,
) -> bool {
    &&& keys.len() == hits.len()
    &&& forall|i: int|
        0 <= i < keys.len() ==> crate::pick::picks(
            math,
            ray,
            &baked[keys[i]].cpu,
            keys[i],
            #[trigger] hits[i],
        )
}

/// Whether `hit` is the nearest of what picking each of the baked terrains along a ray
/// gives.
pub open spec fn picks_nearest<M: RayMath>(
    math: &M,
    ray: PickRay,
    baked: Map<u64, BakedTerrain>,
    hit: Option<HeightmapHit>,
) -> bool {
    exists|keys: Seq<u64>, hits: Seq<Option<HeightmapHit>>|
        {
            &&& keys.to_set() == baked.dom()
            &&& #[trigger] picks_each(math, ray, baked, keys, hits)
            &&& nearest_of(hits, hit)
        }
}

impl TerrainPlugin {
    /// Pick the baked terrains along a ray: the nearest hit on any of them.
    pub fn pick<M: RayMath>(&self, ray: &PickRay, math: &M) -> (hit: Option<HeightmapHit>)
        requires
            self@.wf(),
        ensures
            exists|keys: Seq<u64>, hits: Seq<Option<HeightmapHit>>|
                {
                    &&& keys.to_set() == self@.baked.dom()
                    &&& #[trigger] picks_each(math, *ray, self@.baked, keys, hits)
                    &&& nearest_of(hits, hit)
                },            picks_nearest(math, *ray, self@.baked, hit),
    {
        let mut best: Option<HeightmapHit> = None;
        let ghost mut keys: Seq<u64> = Seq::empty();
        let ghost mut hits: Seq<Option<HeightmapHit>> = Seq::empty();
        let every = self.baked.iter();
        let ghost found = vstd::std_specs::iter::IteratorSpec::remaining(&every);
        for entry in iter: every
            invariant
                self@.wf(),
                iter.seq() == found,
                forall|i: int|
                    0 <= i < found.len() ==> #[trigger] self@.baked.contains_key(*found[i].0)
                        && self@.baked[*found[i].0] == *found[i].1,
                keys.len() == iter.index(),
                forall|i: int| 0 <= i < keys.len() ==> #[trigger] keys[i] == *found[i].0,
                picks_each(math, *ray, self@.baked, keys, hits),
                nearest_of(hits, best),
        {
            let key: u64 = *entry.0;
            let baked = entry.1;
            assert(self@.baked.contains_key(*found[keys.len() as int].0));
            assert(self@.baked[key] == *baked);
            let hit = pick_heightmap(ray, &baked.cpu, key, math);
            let ghost before = hits;
            if let Some(h) = hit {
                proof {
                    crate::pick::picked_hit_is_in_front(math, *ray, &baked.cpu, key, h);
                }
                let nearer: bool = match best {
                    None => true,
                    Some(b) => h.t.lt(b.t),
                };
                if nearer {
                    best = Some(h);
                }
            }
            proof {
                keys = keys.push(key);
                hits = hits.push(hit);
                assert(hits[before.len() as int] == hit);
                assert forall|i: int| 0 <= i < before.len() implies #[trigger] hits[i]
                    == before[i] by {}
                if best is Some {
                    if hit is Some && best == hit {
                        assert(hits[before.len() as int] == best);
                    } else {
                        let at = choose|at: int|
                            0 <= at < before.len() && #[trigger] before[at] == best;
                        assert(hits[at] == best);
                    }
                }
                assert(nearest_of(hits, best));
            }
        }
        proof {
            assert forall|key: u64| self@.baked.dom().contains(key) implies keys.contains(key) by {
                assert(self@.baked.contains_key(key));
                assert(found.contains((&key, &self@.baked[key])));
                let at = choose|at: int|
                    0 <= at < found.len() && found[at] == (&key, &self@.baked[key]);
                assert(keys[at] == key);
            }
            assert forall|key: u64| keys.contains(key) implies self@.baked.dom().contains(key) by {
                let at = choose|at: int| 0 <= at < keys.len() && keys[at] == key;
                assert(self@.baked.contains_key(*found[at].0));
            }
            assert(keys.to_set() =~= self@.baked.dom());
        }
        best
    }
}

/// The shader: the shared parts and the terrain's own, one below the other.
pub open spec fn shader_source(
    bindings: Seq<char>,
    pbr: Seq<char>,
    mask: Seq<char>,
    terrain: Seq<char>,
) -> Seq<char> {
    bindings + seq!['\n'] + pbr + seq!['\n'] + mask + seq!['\n'] + terrain
}

/// Put the shader together from the shared parts and the terrain's own.
pub fn build_shader_source(bindings: &str, pbr: &str, mask: &str, terrain: &str) -> (source: String)
    ensures
        source@ == shader_source(bindings@, pbr@, mask@, terrain@),
{
    proof {
        reveal_strlit("\n");
    }
    let mut source = String::new();
    source.append(bindings);
    source.append("\n");
    source.append(pbr);
    source.append("\n");
    source.append(mask);
    source.append("\n");
    source.append(terrain);
    assert("\n"@ =~= seq!['\n']);
    assert(source@ =~= shader_source(bindings@, pbr@, mask@, terrain@));
    source
}

/// Preparing an item once more changes nothing and uploads nothing but the
/// uniform block. The numbers that place the item must not be NaN: a NaN
/// agrees with nothing, so that such an item is baked every time.
pub proof fn prepared_item_is_kept<M: MeshMath>(
    math: &M,
    policy: BakePolicy,
    item: &TerrainItem,
    before: Option<BakedTerrain>,
    after: BakedTerrain,
    plan: ItemPlan,
    again: BakedTerrain,
    next_plan: ItemPlan,
)
    requires
        prepares(math, policy, item, before, after, plan),
        prepares(math, policy, item, Some(after), again, next_plan),
        crate::bake::bake_signature(item, policy).agrees(
            crate::bake::bake_signature(item, policy),
        ),
    ensures
        next_plan.upload is Keep,
        again == after,
{
}

/// A new version of the heightmap, or a change of the size, the placement, the
/// height range or the policy, makes a baked terrain out of date.
pub proof fn changed_item_is_baked_again<M: MeshMath>(
    math: &M,
    policy: BakePolicy,
    item: &TerrainItem,
    before: BakedTerrain,
    after: BakedTerrain,
    plan: ItemPlan,
)
    requires
        prepares(math, policy, item, Some(before), after, plan),
        !before.sig.agrees(crate::bake::bake_signature(item, policy)),
    ensures
        plan.upload is Rebake,
        after.sig == crate::bake::bake_signature(item, policy),
        crate::bake::is_picking_map(math, item, &after.cpu),
{
}

/// A new version of a splatmap is uploaded, and so is one of another size.
pub proof fn changed_splatmap_is_uploaded<M: MeshMath>(
    math: &M,
    policy: BakePolicy,
    item: &TerrainItem,
    before: BakedTerrain,
    after: BakedTerrain,
    plan: ItemPlan,
)
    requires
        prepares(math, policy, item, Some(before), after, plan),
        !before.splat_sig.agrees(crate::bake::splat_signature(item)),
    ensures
        !(plan.upload is Keep),
        after.splat_sig == crate::bake::splat_signature(item),
{
}

/// Replacing the heightmap of a baked item makes the next frame bake it again,
/// and replacing one of its splatmaps makes the next frame upload them again:
/// both move on to the version that follows.
pub proof fn edits_reach_the_next_frame<M: MeshMath>(
    math: &M,
    policy: BakePolicy,
    item: &TerrainItem,
    before: BakedTerrain,
    after: BakedTerrain,
    plan: ItemPlan,
)
    requires
        prepares(math, policy, item, Some(before), after, plan),
    ensures
        item.heightmap_version == crate::item::next_version(before.sig.heightmap_version)
            ==> plan.upload is Rebake,
        item.splatmaps@[0]@.version == crate::item::next_version(before.splat_sig.version_a)
            ==> !(plan.upload is Keep),
        item.splatmaps@[1]@.version == crate::item::next_version(before.splat_sig.version_b)
            ==> !(plan.upload is Keep),
{
}

/// After preparing, exactly the submitted items are baked.
pub proof fn submitted_items_are_baked<M: MeshMath>(
    math: &M,
    policy: BakePolicy,
    items: Seq<TerrainItem>,
    stages: Seq<Map<u64, BakedTerrain>>,
    plans: Seq<ItemPlan>,
    rest: Map<u64, BakedTerrain>,
)
    requires
        prepares_all(math, policy, items, stages, plans),
        evicts(items, stages.last(), rest),
    ensures
        forall|key: u64| #[trigger] rest.contains_key(key) <==> submitted(items, key),
{
    assert forall|key: u64| submitted(items, key) implies #[trigger] rest.contains_key(key) by {
        let i = choose|i: int|
            0 <= i < items.len() && (#[trigger] items[i]).settings.pick_id == key;
        lemma_baked_items_stay(math, policy, items, stages, plans, i, items.len() as int);
    }
}

proof fn lemma_baked_items_stay<M: MeshMath>(
    math: &M,
    policy: BakePolicy,
    items: Seq<TerrainItem>,
    stages: Seq<Map<u64, BakedTerrain>>,
    plans: Seq<ItemPlan>,
    i: int,
    j: int,
)
    requires
        prepares_all(math, policy, items, stages, plans),
        0 <= i < j <= items.len(),
    ensures
        stages[j].contains_key(items[i].settings.pick_id),
    decreases j,
{
    assert(prepares_next(math, policy, &items[j - 1], stages[j - 1], stages[j], plans[j - 1]));
    if i < j - 1 {
        lemma_baked_items_stay(math, policy, items, stages, plans, i, j - 1);
    }
}

/// Whether a command draws a visible patch of a baked terrain, at the level of
/// detail that was chosen for it or at the coarsest one.
pub open spec fn draws_visible(baked: Map<u64, BakedTerrain>, command: DrawCommand) -> bool {
    command matches DrawCommand::DrawPatch { key, patch, lod, index_count } ==> {
        &&& baked.contains_key(key)
        &&& patch < baked[key].patches@.len()
        &&& baked[key].patches@[patch as int].visible
        &&& lod == baked[key].patches@[patch as int].drawn_lod()
        &&& index_count == baked[key].patches@[patch as int].index_counts@[lod as int]
    }
}

/// Whether an item that is not hidden has a pick identifier.
pub open spec fn shown(items: Seq<TerrainItem>, key: u64) -> bool {
    exists|i: int|
        0 <= i < items.len() && (#[trigger] items[i]).settings.pick_id == key
            && !items[i].settings.hidden
}

/// Whether an item that is selected and not hidden has a pick identifier.
pub open spec fn outlined(items: Seq<TerrainItem>, key: u64) -> bool {
    exists|i: int|
        0 <= i < items.len() && (#[trigger] items[i]).settings.pick_id == key
            && !items[i].settings.hidden && items[i].settings.selected
}

/// The commands of a terrain draw its visible patches, each once and in order.
proof fn lemma_patch_commands(key: u64, baked: Map<u64, BakedTerrain>, count: int)
    requires
        baked.contains_key(key),
        baked[key].wf(),
        0 <= count <= baked[key].patches@.len() <= usize::MAX,
    ensures
        forall|i: int|
            0 <= i < patch_commands(key, baked[key].patches@, count).len() ==> {
                let command = #[trigger] patch_commands(key, baked[key].patches@, count)[i];
                draws_visible(baked, command) && command is DrawPatch && command->DrawPatch_key == key
            },
    decreases count,
{
    if count > 0 {
        lemma_patch_commands(key, baked, count - 1);
        let patch = baked[key].patches@[count - 1];
        assert(patch.index_counts@.len() >= 1);
        let earlier = patch_commands(key, baked[key].patches@, count - 1);
        assert forall|i: int|
            0 <= i < patch_commands(key, baked[key].patches@, count).len() implies ({
            let command = #[trigger] patch_commands(key, baked[key].patches@, count)[i];
            draws_visible(baked, command) && command is DrawPatch && command->DrawPatch_key == key
        }) by {
            if i < earlier.len() {
                assert(draws_visible(baked, earlier[i]));
            }
        }
    }
}

/// Whether every baked terrain is well-formed.
pub open spec fn all_wf(baked: Map<u64, BakedTerrain>) -> bool {
    forall|key: u64| #[trigger] baked.contains_key(key) ==> baked[key].wf()
}

/// Nothing is drawn in the scene pass but visible patches of baked items that
/// are not hidden: patches outside the frustum are skipped.
pub proof fn only_visible_patches_are_painted(
    baked: Map<u64, BakedTerrain>,
    items: Seq<TerrainItem>,
    count: int,
    i: int,
)
    requires
        all_wf(baked),
        0 <= count <= items.len(),
        0 <= i < paint_commands(baked, items, count).len(),
    ensures
        draws_visible(baked, paint_commands(baked, items, count)[i]),
        paint_commands(baked, items, count)[i] is DrawPatch ==> shown(
            items,
            paint_commands(baked, items, count)[i]->DrawPatch_key,
        ),
    decreases count,
{
    if count > 0 {
        let earlier = paint_commands(baked, items, count - 1);
        let settings = items[count - 1].settings;
        if i < earlier.len() {
            only_visible_patches_are_painted(baked, items, count - 1, i);
        } else {
            let key = settings.pick_id;
            let own = patch_commands(key, baked[key].patches@, baked[key].patches@.len() as int);
            assert(baked[key].patches@.len() == baked[key].patches.len());
            lemma_patch_commands(key, baked, baked[key].patches@.len() as int);
            if i > earlier.len() {
                let command = own[i - earlier.len() - 1];
                assert(command == paint_commands(baked, items, count)[i]);
                assert(draws_visible(baked, command));
                assert(items[count - 1].settings.pick_id == key);
            }
        }
    }
}

/// Nothing is drawn in the outline mask pass but visible patches of baked
/// items that are selected and not hidden.
pub proof fn only_selected_items_are_outlined(
    baked: Map<u64, BakedTerrain>,
    items: Seq<TerrainItem>,
    count: int,
    i: int,
)
    requires
        all_wf(baked),
        0 <= count <= items.len(),
        0 <= i < outline_commands(baked, items, count).len(),
    ensures
        draws_visible(baked, outline_commands(baked, items, count)[i]),
        outline_commands(baked, items, count)[i] is DrawPatch ==> outlined(
            items,
            outline_commands(baked, items, count)[i]->DrawPatch_key,
        ),
        i == 0 <==> outline_commands(baked, items, count)[i] is SetPipeline,
    decreases count,
{
    if count > 0 {
        let earlier = outline_commands(baked, items, count - 1);
        let settings = items[count - 1].settings;
        let start = if earlier.len() == 0 {
            seq![DrawCommand::SetPipeline]
        } else {
            earlier
        };
        if i < earlier.len() {
            only_selected_items_are_outlined(baked, items, count - 1, i);
        } else {
            let key = settings.pick_id;
            let own = patch_commands(key, baked[key].patches@, baked[key].patches@.len() as int);
            assert(baked[key].patches@.len() == baked[key].patches.len());
            lemma_patch_commands(key, baked, baked[key].patches@.len() as int);
            if i > start.len() {
                let command = own[i - start.len() - 1];
                assert(command == outline_commands(baked, items, count)[i]);
                assert(draws_visible(baked, command));
                assert(items[count - 1].settings.pick_id == key);
            }
        }
    }
}

/// The command that draws a patch.
pub open spec fn draw_of(key: u64, patches: Seq<BakedPatch>, patch: int) -> DrawCommand {
    DrawCommand::DrawPatch {
        key,
        patch: patch as usize,
        lod: patches[patch].drawn_lod() as usize,
        index_count: patches[patch].index_counts@[patches[patch].drawn_lod()],
    }
}

proof fn lemma_visible_patch_has_its_command(
    key: u64,
    patches: Seq<BakedPatch>,
    count: int,
    patch: int,
)
    requires
        0 <= patch < count <= patches.len(),
        patches[patch].visible,
    ensures
        patch_commands(key, patches, count).contains(draw_of(key, patches, patch)),
    decreases count,
{
    let all = patch_commands(key, patches, count);
    let earlier = patch_commands(key, patches, count - 1);
    if patch == count - 1 {
        assert(all[all.len() - 1] == draw_of(key, patches, patch));
    } else {
        lemma_visible_patch_has_its_command(key, patches, count - 1, patch);
        let at = choose|at: int|
            0 <= at < earlier.len() && earlier[at] == draw_of(key, patches, patch);
        assert(all[at] == draw_of(key, patches, patch));
    }
}

/// Every visible patch of every baked item that is not hidden is drawn in the
/// scene pass.
pub proof fn every_visible_patch_is_painted(
    baked: Map<u64, BakedTerrain>,
    items: Seq<TerrainItem>,
    count: int,
    i: int,
    patch: int,
)
    requires
        0 <= i < count <= items.len(),
        !items[i].settings.hidden,
        baked.contains_key(items[i].settings.pick_id),
        0 <= patch < baked[items[i].settings.pick_id].patches@.len(),
        baked[items[i].settings.pick_id].patches@[patch].visible,
    ensures
        paint_commands(baked, items, count).contains(
            draw_of(
                items[i].settings.pick_id,
                baked[items[i].settings.pick_id].patches@,
                patch,
            ),
        ),
    decreases count,
{
    let key = items[i].settings.pick_id;
    let patches = baked[key].patches@;
    let command = draw_of(key, patches, patch);
    let all = paint_commands(baked, items, count);
    let earlier = paint_commands(baked, items, count - 1);
    if i == count - 1 {
        lemma_visible_patch_has_its_command(key, patches, patches.len() as int, patch);
        let own = patch_commands(key, patches, patches.len() as int);
        let at = choose|at: int| 0 <= at < own.len() && own[at] == command;
        assert(all[earlier.len() + 1 + at] == command);
    } else {
        every_visible_patch_is_painted(baked, items, count - 1, i, patch);
        let at = choose|at: int| 0 <= at < earlier.len() && earlier[at] == command;
        assert(all[at] == command);
    }
}

/// Culling chooses a level of detail that exists, and none for a patch that is
/// not seen.
pub proof fn culled_patch_has_a_level<V: Viewpoint>(
    view: &V,
    lod_distance: Scalar,
    max_lod: u32,
    before: BakedPatch,
    after: BakedPatch,
)
    requires
        max_lod >= 1,
        culls_patch(view, lod_distance, max_lod, before, after),
    ensures
        after.visible ==> after.chosen_lod < max_lod,
        !after.visible ==> after.chosen_lod == before.chosen_lod,
        after.index_counts == before.index_counts,
        after.aabb_min == before.aabb_min,
        after.aabb_max == before.aabb_max,
{
    assert forall|ratio: Scalar| 0 <= #[trigger] lod_at(ratio, max_lod) < max_lod by {
        if !ratio.nan() {
            crate::scalar::truncation_keeps_the_order(ratio, ratio);
        }
    }
}

/// Patches further away never get a finer level of detail.
pub proof fn further_patches_are_no_finer(near: Scalar, far: Scalar, max_lod: u32)
    requires
        !far.nan(),
        !far.below(near),
    ensures
        lod_at(near, max_lod) <= lod_at(far, max_lod),
{
    crate::scalar::truncation_keeps_the_order(near, far);
}

} // verus!
