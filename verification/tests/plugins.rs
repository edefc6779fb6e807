use terrain::bake::{
    bake_patches, can_bake, can_stage, decode_heights, layer_uniform, splatmap_extent,
    stage_splatmap, uniform_bytes, BakePolicy, BakeSig, SplatSig,
};
use terrain::item::{GridFrame, ItemSettings};
use terrain::mesh::{Cell, MeshMath, VertexSite};
use terrain::pick::{GroundAxis, PickRay, RayMath, TriangleFit};
use terrain::plugin::{build_shader_source, choose_lod, DrawCommand, Upload, Viewpoint};
use terrain::scalar::{Scalar, Vec2, Vec3};
use terrain::{SplatmapData, TerrainCollection, TerrainItem, TerrainLayer, TerrainPlugin};

struct FloatMath;

fn s(x: f32) -> Scalar {
    Scalar::from_bits(x.to_bits())
}

fn f(x: Scalar) -> f32 {
    f32::from_bits(x.bits)
}

fn sample_height(frame: &GridFrame, sample: u16) -> f32 {
    let (lo, hi) = (f(frame.height_range[0]), f(frame.height_range[1]));
    lo + sample as f32 / u16::MAX as f32 * (hi - lo)
}

fn cell_size(frame: &GridFrame) -> (f32, f32) {
    (
        f(frame.world_size[0]) / (frame.dims[0] - 1) as f32,
        f(frame.world_size[1]) / (frame.dims[1] - 1) as f32,
    )
}

impl MeshMath for FloatMath {
    fn corner(&self, frame: GridFrame, cell: Cell) -> Vec2 {
        let (dx, dy) = cell_size(&frame);
        Vec2 {
            x: s(f(frame.origin.x) + cell.x as f32 * dx),
            y: s(f(frame.origin.y) + cell.y as f32 * dy),
        }
    }

    fn elevation(&self, frame: GridFrame, sample: u16) -> Scalar {
        s(f(frame.origin.z) + sample_height(&frame, sample))
    }

    fn texture(&self, frame: GridFrame, corner: Vec2) -> Vec2 {
        Vec2 {
            x: s((f(corner.x) - f(frame.origin.x)) / f(frame.world_size[0])),
            y: s((f(corner.y) - f(frame.origin.y)) / f(frame.world_size[1])),
        }
    }

    fn normal(&self, frame: GridFrame, site: VertexSite) -> Vec3 {
        let (dx, dy) = cell_size(&frame);
        let dzdx = (sample_height(&frame, site.east) - sample_height(&frame, site.west))
            / (2.0 * site.step as f32 * dx);
        let dzdy = (sample_height(&frame, site.north) - sample_height(&frame, site.south))
            / (2.0 * site.step as f32 * dy);
        let n = glam::Vec3::new(-dzdx, -dzdy, 1.0).normalize();
        Vec3 { x: s(n.x), y: s(n.y), z: s(n.z) }
    }

    fn lower(&self, height: Scalar, depth: Scalar) -> Scalar {
        s(f(height) - f(depth))
    }

    fn height(&self, frame: GridFrame, sample: u16) -> Scalar {
        let (lo, hi) = (f(frame.height_range[0]), f(frame.height_range[1]));
        s(f(frame.origin.z) + lo + (sample as f32 / u16::MAX as f32) * (hi - lo))
    }
}

fn vec(v: Vec3) -> glam::Vec3 {
    glam::Vec3::new(f(v.x), f(v.y), f(v.z))
}

fn bits(v: glam::Vec3) -> Vec3 {
    Vec3 { x: s(v.x), y: s(v.y), z: s(v.z) }
}

fn spacing(axis: &GroundAxis) -> f32 {
    f(axis.extent) / (axis.samples - 1) as f32
}

impl RayMath for FloatMath {
    fn unit(&self, direction: Vec3) -> Vec3 {
        bits(vec(direction).normalize())
    }

    fn sum(&self, a: Scalar, b: Scalar) -> Scalar {
        s(f(a) + f(b))
    }

    fn crossing(&self, edge: Scalar, origin: Scalar, direction: Scalar) -> Scalar {
        s((f(edge) - f(origin)) * (1.0 / f(direction)))
    }

    fn point(&self, origin: Vec3, direction: Vec3, t: Scalar) -> Vec3 {
        bits(vec(origin) + vec(direction) * f(t))
    }

    fn in_cells(&self, axis: GroundAxis, position: Scalar) -> Scalar {
        s((f(position) - f(axis.start)) / spacing(&axis))
    }

    fn line_crossing(
        &self,
        axis: GroundAxis,
        line: i32,
        origin: Scalar,
        direction: Scalar,
    ) -> Scalar {
        s((f(axis.start) + line as f32 * spacing(&axis) - f(origin)) / f(direction))
    }

    fn line_spacing(&self, axis: GroundAxis, direction: Scalar) -> Scalar {
        s(spacing(&axis) / f(direction).abs())
    }

    fn near_edge(&self, axis: GroundAxis, line: i32) -> Scalar {
        s(f(axis.start) + line as f32 * spacing(&axis))
    }

    fn far_edge(&self, axis: GroundAxis, near: Scalar) -> Scalar {
        s(f(near) + spacing(&axis))
    }

    fn fit(&self, origin: Vec3, direction: Vec3, a: Vec3, b: Vec3, c: Vec3) -> TriangleFit {
        let (e1, e2) = (vec(b) - vec(a), vec(c) - vec(a));
        let h = vec(direction).cross(e2);
        let det = e1.dot(h);
        let inv = 1.0 / det;
        let from = vec(origin) - vec(a);
        let u = inv * from.dot(h);
        let q = from.cross(e1);
        let v = inv * vec(direction).dot(q);
        let t = inv * e2.dot(q);
        TriangleFit { det: s(det), u: s(u), v: s(v), sum: s(u + v), t: s(t) }
    }

    fn face_normal(&self, a: Vec3, b: Vec3, c: Vec3) -> Vec3 {
        bits((vec(b) - vec(a)).cross(vec(c) - vec(a)).normalize_or_zero())
    }
}

/// A terrain of `n` samples per side with cells of one unit.
fn terrain(pick_id: u64, n: u32, level: u16) -> TerrainItem {
    let mut item = TerrainItem::new(vec![level; (n * n) as usize], [n, n]);
    item.world_size = [s((n - 1) as f32), s((n - 1) as f32)];
    item.height_range = [s(0.0), s(65535.0)];
    item.settings = ItemSettings { hidden: false, selected: false, pick_id };
    item
}

fn collection(items: Vec<TerrainItem>) -> TerrainCollection {
    TerrainCollection { items }
}

/// Sees the patches that lie to the left of a line.
struct LeftOf(f32, f32);

impl Viewpoint for LeftOf {
    fn culled(&self, aabb_min: Vec3, _aabb_max: Vec3) -> bool {
        f(aabb_min.x) >= self.0
    }

    fn lod_ratio(&self, aabb_min: Vec3, _aabb_max: Vec3, lod_distance: Scalar) -> Scalar {
        s((f(aabb_min.x) + self.1) / f(lod_distance))
    }
}

fn upload_kind(upload: &Upload) -> &'static str {
    match upload {
        Upload::Rebake { .. } => "rebake",
        Upload::Splatmaps { .. } => "splatmaps",
        Upload::Keep => "keep",
    }
}

#[test]
fn patches_cover_the_heightmap() {
    let item = terrain(1, 10, 5);
    let policy = BakePolicy { patch_cells: 4, max_lod: 3, skirt_depth: s(1.0) };
    let bake = bake_patches(&item, policy, &FloatMath);
    assert_eq!(bake.patch_grid, [3, 3]);
    assert_eq!(bake.patches.len(), 9);
    assert_eq!(bake.meshes.len(), 9);
    for (patch, meshes) in bake.patches.iter().zip(&bake.meshes) {
        assert_eq!(meshes.len(), 3);
        assert_eq!(patch.index_counts, vec![96 + 96, 24 + 48, 6 + 24]);
        assert!(patch.visible);
        assert_eq!(patch.chosen_lod, 0);
        assert_eq!((f(patch.aabb_min.z), f(patch.aabb_max.z)), (4.0, 5.0));
    }
    assert_eq!((f(bake.patches[1].aabb_min.x), f(bake.patches[1].aabb_max.x)), (4.0, 8.0));
    assert_eq!((f(bake.patches[2].aabb_min.x), f(bake.patches[2].aabb_max.x)), (8.0, 9.0));
    assert_eq!((f(bake.patches[5].aabb_min.y), f(bake.patches[5].aabb_max.y)), (4.0, 8.0));
}

#[test]
fn a_line_of_samples_has_no_patches() {
    let item = TerrainItem::new(vec![0; 5], [5, 1]);
    let policy = BakePolicy { patch_cells: 4, max_lod: 3, skirt_depth: s(1.0) };
    let bake = bake_patches(&item, policy, &FloatMath);
    assert_eq!(bake.patches.len(), 0);
    assert_eq!(bake.patch_grid, [1, 0]);
    let none = TerrainItem::new(vec![], [0, 0]);
    assert_eq!(bake_patches(&none, policy, &FloatMath).patch_grid, [0, 0]);
}

#[test]
fn heights_are_decoded_to_the_world() {
    let mut item = TerrainItem::new(vec![0, 65535, 32768, 1], [2, 2]);
    item.height_range = [s(-10.0), s(30.0)];
    item.origin.z = s(100.0);
    let heights: Vec<f32> = decode_heights(&item, &FloatMath).into_iter().map(f).collect();
    assert_eq!(heights[0], 90.0);
    assert_eq!(heights[1], 130.0);
    assert_eq!(heights[2], 100.0f32 - 10.0 + (32768.0f32 / 65535.0) * 40.0);
    assert_eq!(heights.len(), 4);
}

#[test]
fn splatmaps_are_staged_to_the_size_of_their_texture() {
    let whole = stage_splatmap(&[1, 2, 3, 4, 5, 6, 7, 8], [2, 1]);
    assert_eq!(whole.bytes, vec![1, 2, 3, 4, 5, 6, 7, 8]);
    assert_eq!((whole.width, whole.height, whole.bytes_per_row), (2, 1, 8));
    assert_eq!(stage_splatmap(&[1, 2], [1, 1]).bytes, vec![1, 2, 0, 0]);
    assert_eq!(stage_splatmap(&[9; 9], [1, 1]).bytes, vec![9; 4]);
    let none = stage_splatmap(&[], [0, 3]);
    assert_eq!((none.width, none.height, none.bytes.len()), (1, 3, 12));
    assert_eq!(splatmap_extent([0, 0]), [1, 1]);
    assert_eq!(splatmap_extent([7, 2]), [7, 2]);
}

#[test]
fn the_uniform_block_is_laid_out_for_the_shader() {
    let mut item = terrain(1, 2, 0);
    item.set_layers_from_descriptors(&[TerrainLayer {
        albedo: [s(0.1), s(0.2), s(0.3)],
        metallic: s(0.4),
        roughness: s(0.5),
        height_bias: s(0.6),
    }]);
    item.height_blend_strength = s(0.7);
    item.height_blend_noise_scale = s(0.8);
    let bytes = uniform_bytes(&item);
    assert_eq!(bytes.len(), 336);
    let words: Vec<f32> =
        bytes.chunks(4).map(|b| f32::from_ne_bytes([b[0], b[1], b[2], b[3]])).collect();
    assert_eq!(&words[..16], &glam::Mat4::IDENTITY.to_cols_array());
    assert_eq!(&words[16..24], &[0.1, 0.2, 0.3, 0.4, 0.5, 0.6, 0.0, 0.0]);
    assert_eq!(&words[24..32], &[0.5, 0.5, 0.5, 0.0, 0.9, 0.0, 0.0, 0.0]);
    assert_eq!(&words[80..], &[0.7, 0.8, 0.0, 0.0]);
    let block = layer_uniform(&item.surface_layers[0]);
    assert_eq!(block[4], 0.5f32.to_bits());
}

#[test]
fn signatures_compare_numbers_by_value() {
    let policy = BakePolicy { patch_cells: 4, max_lod: 3, skirt_depth: s(1.0) };
    let mut item = terrain(1, 3, 0);
    let sig = BakeSig::of(&item, policy);
    item.origin.x = s(-0.0);
    assert!(sig.same(&BakeSig::of(&item, policy)));
    item.origin.x = s(f32::NAN);
    let unplaced = BakeSig::of(&item, policy);
    assert!(!unplaced.same(&unplaced));
    let wobble = BakePolicy { skirt_depth: s(1.0001), ..policy };
    item.origin.x = s(0.0);
    assert!(sig.same(&BakeSig::of(&item, wobble)));
    let deeper = BakePolicy { skirt_depth: s(1.01), ..policy };
    assert!(!sig.same(&BakeSig::of(&item, deeper)));
    assert!(!sig.same(&BakeSig::of(&item, BakePolicy { max_lod: 2, ..policy })));
    let splat = SplatSig::of(&item);
    assert!(splat.same(&SplatSig::of(&item)));
    item.splatmaps[1].replace(vec![0; 4], [1, 1]);
    assert!(!splat.same(&SplatSig::of(&item)));
}

#[test]
fn preparing_twice_keeps_what_is_baked() {
    let mut plugin = TerrainPlugin::new();
    let items = collection(vec![terrain(1, 5, 0), terrain(2, 9, 3)]);
    let plans = plugin.prepare(&items, &FloatMath);
    let kinds: Vec<_> = plans.iter().map(|p| (p.key, upload_kind(&p.upload))).collect();
    assert_eq!(kinds, vec![(1, "rebake"), (2, "rebake")]);
    assert!(plugin.is_baked(1) && plugin.is_baked(2));
    let again = plugin.prepare(&items, &FloatMath);
    let kinds: Vec<_> = again.iter().map(|p| upload_kind(&p.upload)).collect();
    assert_eq!(kinds, vec!["keep", "keep"]);
    assert_eq!(again[0].uniform, uniform_bytes(&items.items[0]));
}

#[test]
fn edits_are_baked_or_uploaded_again() {
    let mut plugin = TerrainPlugin::new();
    let mut items = collection(vec![terrain(1, 5, 0)]);
    plugin.prepare(&items, &FloatMath);
    items.items[0].replace_heightmap(vec![7; 25], [5, 5]);
    assert_eq!(upload_kind(&plugin.prepare(&items, &FloatMath)[0].upload), "rebake");
    items.items[0].splatmaps[1].replace(vec![4; 16], [2, 2]);
    match &plugin.prepare(&items, &FloatMath)[0].upload {
        Upload::Splatmaps { splatmap_a, splatmap_b, a_resized, b_resized } => {
            assert!(!*a_resized && *b_resized);
            assert_eq!(splatmap_a.bytes.as_slice(), items.items[0].splatmaps[0].rgba());
            assert_eq!(splatmap_b.bytes, vec![4; 16]);
        }
        other => panic!("{}", upload_kind(other)),
    }
    assert_eq!(upload_kind(&plugin.prepare(&items, &FloatMath)[0].upload), "keep");
    let plugin = plugin.with_patch_cells(16);
    let mut plugin = plugin;
    assert_eq!(upload_kind(&plugin.prepare(&items, &FloatMath)[0].upload), "rebake");
}

#[test]
fn a_nan_is_baked_every_time() {
    let mut plugin = TerrainPlugin::new();
    let mut item = terrain(1, 5, 0);
    item.origin.x = s(f32::NAN);
    let items = collection(vec![item]);
    plugin.prepare(&items, &FloatMath);
    assert_eq!(upload_kind(&plugin.prepare(&items, &FloatMath)[0].upload), "rebake");
}

#[test]
fn what_is_not_submitted_is_dropped() {
    let mut plugin = TerrainPlugin::new();
    plugin.prepare(&collection(vec![terrain(1, 5, 0), terrain(2, 5, 0)]), &FloatMath);
    plugin.prepare(&collection(vec![terrain(2, 5, 0), terrain(3, 5, 0)]), &FloatMath);
    assert_eq!([1, 2, 3].map(|k| plugin.is_baked(k)), [false, true, true]);
    plugin.prepare(&collection(vec![]), &FloatMath);
    assert!(!plugin.is_baked(2) && !plugin.is_baked(3));
}

#[test]
fn only_seen_patches_are_drawn() {
    let mut plugin =
        TerrainPlugin::new().with_patch_cells(4).with_max_lod(3).with_lod_distance(s(4.0));
    let items = collection(vec![terrain(7, 9, 0)]);
    plugin.prepare(&items, &FloatMath);
    let draws = |plugin: &TerrainPlugin| -> Vec<(usize, usize, u32)> {
        plugin
            .paint(&items)
            .into_iter()
            .filter_map(|c| match c {
                DrawCommand::DrawPatch { key: 7, patch, lod, index_count } => {
                    Some((patch, lod, index_count))
                }
                _ => None,
            })
            .collect()
    };
    assert_eq!(draws(&plugin), vec![(0, 0, 192), (1, 0, 192), (2, 0, 192), (3, 0, 192)]);
    plugin.cull(&items, &LeftOf(4.0, 0.0));
    assert_eq!(draws(&plugin), vec![(0, 0, 192), (2, 0, 192)]);
    plugin.cull(&items, &LeftOf(100.0, 0.0));
    assert_eq!(draws(&plugin), vec![(0, 0, 192), (1, 1, 72), (2, 0, 192), (3, 1, 72)]);
    plugin.cull(&items, &LeftOf(100.0, 1000.0));
    assert_eq!(draws(&plugin), vec![(0, 2, 30), (1, 2, 30), (2, 2, 30), (3, 2, 30)]);
}

#[test]
fn the_level_of_detail_grows_with_distance() {
    assert_eq!(choose_lod(s(0.0), 4), 0);
    assert_eq!(choose_lod(s(0.99), 4), 0);
    assert_eq!(choose_lod(s(1.0), 4), 1);
    assert_eq!(choose_lod(s(2.5), 4), 2);
    assert_eq!(choose_lod(s(1e9), 4), 3);
    assert_eq!(choose_lod(s(f32::INFINITY), 4), 3);
    assert_eq!(choose_lod(s(f32::NAN), 4), 0);
    assert_eq!(choose_lod(s(5.0), 1), 0);
    assert_eq!(choose_lod(s(5.0), 0), 0);
}

#[test]
fn passes_bind_each_terrain_once() {
    let mut plugin = TerrainPlugin::new();
    let mut hidden = terrain(2, 3, 0);
    hidden.settings.hidden = true;
    let mut selected = terrain(3, 3, 0);
    selected.settings.selected = true;
    let items = collection(vec![terrain(1, 3, 0), hidden, selected]);
    plugin.prepare(&items, &FloatMath);
    let count = plugin.paint(&collection(vec![])).len();
    assert_eq!(count, 1);
    let index_count = 6 * 32 * 32 + 6 * 4 * 32;
    let draw = |key| DrawCommand::DrawPatch { key, patch: 0, lod: 0, index_count };
    assert_eq!(
        plugin.paint(&items),
        vec![
            DrawCommand::SetPipeline,
            DrawCommand::BindTerrain { key: 1 },
            draw(1),
            DrawCommand::BindTerrain { key: 3 },
            draw(3),
        ]
    );
    assert_eq!(
        plugin.outline_mask(&items),
        vec![DrawCommand::SetPipeline, DrawCommand::BindTerrain { key: 3 }, draw(3)]
    );
    assert_eq!(plugin.outline_mask(&collection(vec![terrain(1, 3, 0)])), vec![]);
    assert_eq!(plugin.paint(&collection(vec![terrain(9, 3, 0)])), vec![DrawCommand::SetPipeline]);
}

#[test]
fn the_nearest_terrain_is_picked() {
    let mut plugin = TerrainPlugin::new();
    let items = collection(vec![terrain(1, 5, 10), terrain(2, 5, 30), terrain(3, 5, 20)]);
    let down = PickRay {
        origin: Vec3 { x: s(1.5), y: s(1.5), z: s(100.0) },
        direction: Vec3 { x: s(0.0), y: s(0.0), z: s(-1.0) },
    };
    assert!(plugin.pick(&down, &FloatMath).is_none());
    plugin.prepare(&items, &FloatMath);
    let hit = plugin.pick(&down, &FloatMath).unwrap();
    assert_eq!(hit.id, 2);
    assert_eq!(f(hit.t), 70.0);
    assert_eq!(bits(glam::Vec3::new(1.5, 1.5, 30.0)), hit.world_pos);
}

#[test]
fn settings_keep_within_their_limits() {
    let plugin = TerrainPlugin::default().with_sample_count(4);
    assert_eq!(plugin.sample_count(), 4);
    // A patch size of two, nine levels and no skirt, whatever was asked for.
    let mut plugin = plugin
        .with_patch_cells(0)
        .with_max_lod(99)
        .with_skirt_depth(s(-3.0))
        .with_lod_distance(s(0.001));
    let items = collection(vec![terrain(1, 3, 0)]);
    match &plugin.prepare(&items, &FloatMath)[0].upload {
        Upload::Rebake { meshes, .. } => {
            assert_eq!(meshes.len(), 1);
            assert_eq!(meshes[0].len(), 9);
            assert_eq!(meshes[0][0].vertices.len(), 9);
        }
        other => panic!("{}", upload_kind(other)),
    }
    plugin.cull(&items, &LeftOf(100.0, 3.0));
    let lod = plugin.paint(&items).into_iter().find_map(|c| match c {
        DrawCommand::DrawPatch { lod, .. } => Some(lod),
        _ => None,
    });
    assert_eq!(lod, Some(3));
    let mut least = TerrainPlugin::new().with_max_lod(0);
    match &least.prepare(&items, &FloatMath)[0].upload {
        Upload::Rebake { meshes, .. } => assert_eq!(meshes[0].len(), 1),
        other => panic!("{}", upload_kind(other)),
    }
}

#[test]
fn what_cannot_be_prepared_is_known() {
    let alone = |item: TerrainItem| collection(vec![item]);
    let plugin = TerrainPlugin::new();
    assert!(plugin.can_prepare(&alone(terrain(1, 5, 0))));
    assert!(!plugin.can_prepare(&alone(TerrainItem::new(vec![0; 24], [5, 5]))));
    assert!(plugin.can_prepare(&alone(TerrainItem::new(vec![], [1, 9]))));
    let mut vast = terrain(1, 5, 0);
    vast.splatmaps[0] = SplatmapData::new(vec![], [40_000, 40_000]);
    assert!(!plugin.can_prepare(&alone(vast)));
    let coarse = plugin.with_patch_cells(70_000);
    assert!(!coarse.can_prepare(&alone(terrain(1, 5, 0))));
    assert!(can_stage([32_768, 32_767]) && !can_stage([32_768, 32_768]));
    let policy = BakePolicy { patch_cells: 0, max_lod: 1, skirt_depth: s(0.0) };
    assert!(!can_bake(&terrain(1, 5, 0), policy));
}

#[test]
fn an_unchanged_item_is_not_looked_into() {
    let mut plugin = TerrainPlugin::new();
    plugin.prepare(&collection(vec![terrain(1, 5, 0)]), &FloatMath);
    let mut short = terrain(1, 5, 0);
    short.heightmap = vec![0; 3].into();
    let items = collection(vec![short.clone(), short.clone()]);
    assert!(plugin.can_prepare(&items));
    let plans = plugin.prepare(&items, &FloatMath);
    assert_eq!(upload_kind(&plans[1].upload), "keep");
    short.heightmap_version = 1;
    assert!(!plugin.can_prepare(&collection(vec![terrain(1, 5, 0), short])));
}

#[test]
fn the_shader_is_put_together_line_by_line() {
    assert_eq!(build_shader_source("a", "b", "c", "d"), "a\nb\nc\nd");
    assert_eq!(build_shader_source("", "", "", ""), "\n\n\n");
}

#[test]
fn a_blank_splatmap_is_staged_whole() {
    let blank = SplatmapData::solid_layer0();
    assert_eq!(stage_splatmap(blank.rgba(), blank.resolution()).bytes, vec![255, 0, 0, 0]);
}
