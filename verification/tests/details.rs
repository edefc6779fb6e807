use terrain::detail::{
    accept, add_batches, can_scatter, corner_samples, halton, hash01, sample_heightmap,
    sample_splat_weight, sample_target, spot_count, texel_weight, CornerSamples, Instance,
    LayerInstances, ScatterMath, Transform,
};
use terrain::item::GridFrame;
use terrain::scalar::{Scalar, Vec2, Vec3};
use terrain::{
    scatter_terrain_details, DetailKind, DetailLayer, DetailScatterOutput, DetailScatterParams,
    SplatmapData, TerrainItem,
};

struct FloatMath;

fn s(x: f32) -> Scalar {
    Scalar::from_bits(x.to_bits())
}

fn f(x: Scalar) -> f32 {
    f32::from_bits(x.bits)
}

impl ScatterMath for FloatMath {
    fn sum(&self, a: Scalar, b: Scalar) -> Scalar {
        s(f(a) + f(b))
    }

    fn difference(&self, a: Scalar, b: Scalar) -> Scalar {
        s(f(a) - f(b))
    }

    fn quotient(&self, a: Scalar, b: Scalar) -> Scalar {
        s(f(a) / f(b))
    }

    fn square(&self, a: Scalar) -> Scalar {
        s(f(a) * f(a))
    }

    fn shrink(&self, fraction: Scalar, base: u32) -> Scalar {
        s(f(fraction) / base as f32)
    }

    fn accumulate(&self, total: Scalar, fraction: Scalar, digit: u32) -> Scalar {
        s(f(total) + f(fraction) * digit as f32)
    }

    fn footprint(&self, density: Scalar, max_distance: Scalar) -> Scalar {
        let radius = f(max_distance);
        s(f(density) * (std::f32::consts::PI * radius * radius))
    }

    fn amount(&self, density: Scalar, width: Scalar, depth: Scalar) -> Scalar {
        s(f(density) * (f(width) * f(depth)))
    }

    fn spot(&self, frame: GridFrame, u: Scalar, v: Scalar) -> Vec2 {
        Vec2 {
            x: s(f(frame.origin.x) + f(u) * f(frame.world_size[0])),
            y: s(f(frame.origin.y) + f(v) * f(frame.world_size[1])),
        }
    }

    fn ground_distance_squared(&self, a: Vec2, b: Vec2) -> Scalar {
        let (dx, dy) = (f(a.x) - f(b.x), f(a.y) - f(b.y));
        s(dx * dx + dy * dy)
    }

    fn stretch(&self, ratio: Scalar, count: u32) -> Scalar {
        s(f(ratio) * (count as f32 - 1.0))
    }

    fn inner_limit(&self, count: u32) -> Scalar {
        s(count as f32 - 1.0001)
    }

    fn ground(
        &self,
        frame: GridFrame,
        column: u32,
        row: u32,
        samples: CornerSamples,
        fx: Scalar,
        fy: Scalar,
    ) -> Scalar {
        let tx = f(fx) - column as f32;
        let ty = f(fy) - row as f32;
        let height = |sample: u16| sample as f32 * (1.0 / 65535.0);
        let hx0 = height(samples.s00) * (1.0 - tx) + height(samples.s10) * tx;
        let hx1 = height(samples.s01) * (1.0 - tx) + height(samples.s11) * tx;
        let n = hx0 * (1.0 - ty) + hx1 * ty;
        let (lo, hi) = (f(frame.height_range[0]), f(frame.height_range[1]));
        s(lo + n * (hi - lo))
    }

    fn vary(&self, size: Scalar, jitter: Scalar, random: Scalar) -> Scalar {
        s(f(size) * (1.0 + (f(random) * 2.0 - 1.0) * f(jitter)))
    }

    fn lift(&self, height: Scalar, size: Scalar) -> Scalar {
        s(f(height) + f(size) * 0.5)
    }

    fn distance_squared(&self, a: Vec3, b: Vec3) -> Scalar {
        let (dx, dy, dz) = (f(a.x) - f(b.x), f(a.y) - f(b.y), f(a.z) - f(b.z));
        s(dx * dx + dy * dy + dz * dz)
    }

    fn placed(&self, position: Vec3, scale: Scalar, random: Scalar) -> Transform {
        let yaw = f(random) * std::f32::consts::TAU;
        let m = glam::Mat4::from_scale_rotation_translation(
            glam::Vec3::splat(f(scale)),
            glam::Quat::from_rotation_z(yaw),
            glam::Vec3::new(f(position.x), f(position.y), f(position.z)),
        );
        Transform { cells: m.to_cols_array().map(s) }
    }
}

const WHITE: [f32; 4] = [1.0; 4];

/// A terrain of 11 by 11 samples over 20 by 20 units around the origin.
fn terrain(weight: u8) -> TerrainItem {
    let samples: Vec<u16> = (0..121u32).map(|k| (500 * (k % 11)) as u16).collect();
    let mut item = TerrainItem::new(samples, [11, 11]);
    item.world_size = [s(20.0), s(20.0)];
    item.height_range = [s(0.0), s(65535.0)];
    item.origin = Vec3 { x: s(-10.0), y: s(-10.0), z: s(100.0) };
    item.splatmaps[0] = SplatmapData::new(vec![weight, 0, 0, 0], [1, 1]);
    item
}

fn layer(kind: DetailKind) -> DetailLayer {
    DetailLayer {
        kind,
        surface_layer: 0,
        weight_threshold: s(0.0),
        size: s(2.0),
        size_jitter: s(0.5),
        max_distance: s(100.0),
        density: s(1.0),
    }
}

fn billboard() -> DetailKind {
    DetailKind::Billboard { texture_id: Some(4), colour: WHITE.map(s) }
}

fn tree(switch_distance: f32) -> DetailKind {
    DetailKind::TreeLod {
        mesh_id: 5,
        mesh_texture_id: None,
        impostor_texture_id: Some(6),
        colour: WHITE.map(s),
        switch_distance: s(switch_distance),
    }
}

fn params(x: f32, y: f32, z: f32) -> DetailScatterParams {
    DetailScatterParams { camera_xy: Vec2 { x: s(x), y: s(y) }, camera_z: s(z) }
}

fn scatter(
    item: &TerrainItem,
    layers: &[DetailLayer],
    params: &DetailScatterParams,
) -> DetailScatterOutput {
    let mut out = DetailScatterOutput::default();
    scatter_terrain_details(item, layers, params, &mut out, &FloatMath);
    out
}

#[test]
fn halton_mirrors_the_digits() {
    let h = |i, b| f(halton(i, b, &FloatMath));
    assert_eq!([h(0, 2), h(1, 2), h(2, 2), h(3, 2), h(4, 2), h(6, 2)], [
        0.0, 0.5, 0.25, 0.75, 0.125, 0.375
    ]);
    assert!((h(1, 3) - 1.0 / 3.0).abs() < 1e-6);
    assert!((h(5, 3) - 7.0 / 9.0).abs() < 1e-6);
}

#[test]
fn halton_puts_each_digit_in_front() {
    let h = |i| f(halton(i, 2, &FloatMath));
    for i in (0..500).chain(0x7F_FF00..0x80_0000) {
        for d in 0..2 {
            assert_eq!(2.0 * h(2 * i + d), d as f32 + h(i));
        }
        assert!((0.0..1.0).contains(&h(i)));
        assert_ne!(h(i), h(i + 1));
    }
}

#[test]
fn hashes_are_fixed_and_lie_from_zero_to_one() {
    let expected = |x: i32, y: i32, seed: u32| {
        let mut h = (x as u32).wrapping_mul(0x9E3779B1);
        h ^= (y as u32).wrapping_mul(0x85EBCA77);
        h ^= seed.wrapping_mul(0xC2B2AE3D);
        h ^= h >> 16;
        h = h.wrapping_mul(0x7FEB352D);
        h ^= h >> 15;
        h = h.wrapping_mul(0x846CA68B);
        h ^= h >> 16;
        (h & 0xFFFFFF) as f32 / (1 << 24) as f32
    };
    for x in -20..20 {
        for y in [0, 1, -7, i32::MAX, i32::MIN] {
            for seed in [0, 1, 0xA341316C, u32::MAX] {
                let random = f(hash01(x, y, seed));
                assert_eq!(random, expected(x, y, seed));
                assert!((0.0..1.0).contains(&random));
                assert_eq!(hash01(x, y, seed), hash01(x, y, seed));
            }
        }
    }
    assert_eq!(f(hash01(0, 0, 0)), 0.0);
}

#[test]
fn weights_are_read_from_their_channel() {
    let per_layer: Vec<Vec<u8>> =
        (0..7u8).map(|l| (0..6u8).map(|t| 20 * l + t).collect()).collect();
    let mut item = terrain(0);
    item.splatmaps = SplatmapData::pack_layers(&per_layer, [3, 2]).unwrap();
    let weight = |u: f32, v: f32, l: usize| {
        f(sample_splat_weight(&item, s(u), s(v), l, &FloatMath))
    };
    for l in 0..7usize {
        assert_eq!(weight(0.0, 0.0, l), per_layer[l][0] as f32 / 255.0);
        assert_eq!(weight(0.5, 0.0, l), per_layer[l][1] as f32 / 255.0);
        assert_eq!(weight(1.0, 1.0, l), per_layer[l][5] as f32 / 255.0);
        assert_eq!(weight(9.0, -4.0, l), per_layer[l][2] as f32 / 255.0);
        assert_eq!(weight(f32::NAN, 0.0, l), per_layer[l][0] as f32 / 255.0);
    }
    assert_eq!(weight(1.0, 1.0, 7), 0.0);
    assert_eq!(weight(1.0, 1.0, 8), 0.0);
}

#[test]
fn missing_weights_are_zero() {
    let short = SplatmapData::new(vec![255; 4], [2, 2]);
    assert_eq!(f(texel_weight(&short, 3, s(0.0), s(0.0))), 1.0);
    assert_eq!(f(texel_weight(&short, 0, s(1.0), s(0.0))), 0.0);
    assert_eq!(f(texel_weight(&short, 0, s(1e9), s(1e9))), 0.0);
    let mut item = terrain(255);
    item.splatmaps[0] = SplatmapData::new(vec![255; 4], [0, 1]);
    assert_eq!(f(sample_splat_weight(&item, s(0.0), s(0.0), 0, &FloatMath)), 0.0);
}

#[test]
fn heights_are_interpolated() {
    let item = terrain(255);
    let height = |u: f32, v: f32| f(sample_heightmap(&item, s(u), s(v), &FloatMath));
    assert_eq!(height(0.0, 0.3), 0.0);
    assert!((height(0.5, 0.5) - 2500.0).abs() < 0.1);
    assert!((height(0.25, 0.9) - 1250.0).abs() < 0.1);
    assert!((height(1.0, 1.0) - 5000.0).abs() < 0.1);
    assert_eq!(height(7.0, -3.0), height(1.0, 0.0));
    assert_eq!(height(-7.0, 0.4), height(0.0, 0.4));
    let corners = corner_samples(&item, 3, 4);
    assert_eq!(corners, CornerSamples { s00: 1500, s10: 2000, s01: 1500, s11: 2000 });
    let last = corner_samples(&item, 10, 10);
    assert_eq!(last, CornerSamples { s00: 5000, s10: 5000, s01: 5000, s11: 5000 });
    let beyond = corner_samples(&item, u32::MAX, u32::MAX);
    assert_eq!(beyond, last);
}

#[test]
fn heights_stay_within_the_range() {
    let samples: Vec<u16> = (0..121u32).map(|k| (k * 7919 + 40000) as u16).collect();
    let mut item = TerrainItem::new(samples, [11, 11]);
    item.height_range = [s(-16.0), s(48.0)];
    let height = |u: f32, v: f32| f(sample_heightmap(&item, s(u), s(v), &FloatMath));
    assert_eq!(height(0.0, 0.0), -16.0 + 40000.0 * (1.0 / 65535.0) * 64.0);
    for y in -3..=23 {
        for x in -3..=23 {
            let h = height(x as f32 / 20.0, y as f32 / 20.0);
            assert!((-16.0..=48.0).contains(&h));
        }
    }
}

#[test]
fn short_heightmaps_cannot_be_scattered_over() {
    assert!(can_scatter(&terrain(255)));
    assert!(!can_scatter(&TerrainItem::new(vec![0; 120], [11, 11])));
    assert!(!can_scatter(&TerrainItem::new(vec![0; 120], [0, 11])));
}

#[test]
fn layers_take_a_limited_number_of_samples() {
    assert_eq!(sample_target(s(12.9)), 12);
    assert_eq!(sample_target(s(0.9)), 0);
    assert_eq!(sample_target(s(-5.0)), 0);
    assert_eq!(sample_target(s(f32::NAN)), 0);
    assert_eq!(sample_target(s(1e12)), 200_000);
    assert_eq!(sample_target(s(f32::INFINITY)), 200_000);
}

#[test]
fn spots_cover_the_whole_terrain() {
    let count = |w: f32, d: f32, footprint: f32, amount: f32| {
        spot_count([s(w), s(d)], s(footprint), s(amount))
    };
    assert_eq!(count(10.0, 20.0, 50.0, 200.9), 200);
    assert_eq!(count(10.0, 20.0, 50.0, 4e6), 4_000_000);
    assert_eq!(count(0.5, 0.5, 50.0, 0.25), 1);
    assert_eq!(count(10.0, 20.0, 0.9, 200.0), 0);
    assert_eq!(count(10.0, 20.0, -1.0, 200.0), 0);
    assert_eq!(count(-10.0, 20.0, 50.0, 200.0), 0);
    assert_eq!(count(10.0, -20.0, 50.0, 200.0), 0);
}

#[test]
fn large_terrains_keep_their_density() {
    let mut item = terrain(255);
    item.world_size = [s(1000.0), s(1000.0)];
    item.origin = Vec3 { x: s(-500.0), y: s(-500.0), z: s(0.0) };
    let near = DetailLayer { max_distance: s(20.0), ..layer(billboard()) };
    let out = scatter(&item, &[near], &params(37.0, -81.0, 0.0));
    // One sample per unit of area over a disc with a radius of 20.
    let taken = out.sprites[0].positions.len();
    assert!((1200..1320).contains(&taken), "{taken}");
}

#[test]
fn only_so_many_samples_lie_within_reach() {
    let dense = DetailLayer { density: s(1000.0), ..layer(billboard()) };
    let out = scatter(&terrain(255), &[dense], &params(0.0, 0.0, 0.0));
    assert_eq!(out.sprites[0].positions.len(), 200_000);
    let sparse = DetailLayer { density: s(0.01), max_distance: s(5.0), ..layer(billboard()) };
    assert_eq!(scatter(&terrain(255), &[sparse], &params(0.0, 0.0, 0.0)).sprites.len(), 0);
}

#[test]
fn acceptance_grows_with_the_weight() {
    let accepted = |threshold: f32, weight: f32, random: f32| {
        accept(s(threshold), s(weight), s(random), &FloatMath)
    };
    assert!(accepted(0.5, 1.0, 0.999));
    assert!(accepted(0.5, 0.75, 0.5));
    assert!(!accepted(0.5, 0.75, 0.51));
    assert!(!accepted(0.5, 0.5, 0.01));
    assert!(accepted(0.5, 0.5, 0.0));
    assert!(accepted(1.0, 1.0, 0.0));
    assert!(!accepted(1.0, 1.00001, 0.2));
    assert!(accepted(f32::NAN, 0.5, 0.9));
}

#[test]
fn a_full_weight_takes_every_sample() {
    let item = terrain(255);
    let out = scatter(&item, &[layer(billboard())], &params(0.0, 0.0, 0.0));
    assert_eq!(out.mesh_instances.len(), 0);
    assert_eq!(out.sprites.len(), 1);
    let batch = &out.sprites[0];
    // A terrain of 20 by 20, one sample per unit of area.
    assert_eq!(batch.positions.len(), 400);
    assert_eq!(batch.sizes.len(), 400);
    assert_eq!(batch.texture_id, Some(4));
    assert_eq!(batch.default_colour, WHITE.map(s));
    assert_eq!(batch.default_size, s(2.0));
    assert!(batch.world_space && batch.depth_write && batch.alpha_blend);
    for (position, size) in batch.positions.iter().zip(&batch.sizes) {
        let (x, y, z) = (f(position.x), f(position.y), f(position.z));
        assert!((-10.0..=10.0).contains(&x) && (-10.0..=10.0).contains(&y));
        assert!((1.0..3.0).contains(&f(*size)));
        let ground = 100.0 + (x + 10.0) * 250.0;
        assert!((z - f(*size) * 0.5 - ground).abs() < 0.5);
    }
    // The first sample: half of the width, a third of the depth.
    assert_eq!(f(batch.positions[0].x), 0.0);
    assert!((f(batch.positions[0].y) - (20.0 / 3.0 - 10.0)).abs() < 1e-4);
}

#[test]
fn samples_beyond_the_footprint_are_left_out() {
    let item = terrain(255);
    let near = DetailLayer { max_distance: s(8.0), ..layer(billboard()) };
    let all = scatter(&item, &[layer(billboard())], &params(3.0, -2.0, 0.0));
    let out = scatter(&item, &[near], &params(3.0, -2.0, 0.0));
    let away = |p: &Vec3| ((f(p.x) - 3.0).powi(2) + (f(p.y) + 2.0).powi(2)).sqrt();
    let expected: Vec<Vec3> =
        all.sprites[0].positions.iter().filter(|p| away(p) <= 8.0).copied().collect();
    assert_eq!(out.sprites[0].positions, expected);
    assert!(expected.len() > 100 && expected.len() < 250);
    let apart = scatter(&item, &[near], &params(100.0, 0.0, 0.0));
    assert_eq!(apart.sprites.len(), 0);
}

#[test]
fn sprites_do_not_follow_the_camera() {
    let item = terrain(180);
    let near = DetailLayer { max_distance: s(7.0), ..layer(billboard()) };
    let here = scatter(&item, &[near], &params(0.0, 0.0, 0.0));
    let there = scatter(&item, &[near], &params(2.0, 1.0, 50.0));
    let mut kept = 0;
    for position in &here.sprites[0].positions {
        let away = ((f(position.x) - 2.0).powi(2) + (f(position.y) - 1.0).powi(2)).sqrt();
        if away < 7.0 {
            assert!(there.sprites[0].positions.contains(position));
            kept += 1;
        }
    }
    assert!(kept > 30);
}

#[test]
fn trees_stand_where_billboards_would() {
    let item = terrain(180);
    let camera = params(0.0, 0.0, 2600.0);
    let trees = scatter(&item, &[layer(tree(1500.0))], &camera);
    let sprites = scatter(&item, &[layer(billboard())], &camera);
    let meshes = trees.mesh_instances[0].transforms.len();
    assert_eq!(meshes + trees.sprites[0].positions.len(), sprites.sprites[0].positions.len());
    for position in &trees.sprites[0].positions {
        assert!(sprites.sprites[0].positions.contains(position));
    }
}

#[test]
fn the_height_of_the_camera_only_splits_trees() {
    let item = terrain(180);
    let layers = [layer(billboard()), layer(tree(1500.0))];
    let low = scatter(&item, &layers, &params(0.0, 0.0, 0.0));
    let high = scatter(&item, &layers, &params(0.0, 0.0, 3000.0));
    assert_eq!(low.sprites[0].positions, high.sprites[0].positions);
    assert_eq!(low.sprites[0].sizes, high.sprites[0].sizes);
    let total = |out: &DetailScatterOutput| {
        out.mesh_instances[0].transforms.len() + out.sprites[1].positions.len()
    };
    assert_eq!(total(&low), total(&high));
    assert_ne!(low.sprites[1].positions, high.sprites[1].positions);
}

#[test]
fn weights_thin_the_scatter_out() {
    let open = params(0.0, 0.0, 0.0);
    let all = scatter(&terrain(255), &[layer(billboard())], &open).sprites[0].positions.len();
    let half = scatter(&terrain(128), &[layer(billboard())], &open).sprites[0].positions.len();
    assert!(all / 3 < half && half < 2 * all / 3);
    let strict = DetailLayer { weight_threshold: s(0.6), ..layer(billboard()) };
    assert_eq!(scatter(&terrain(128), &[strict], &open).sprites.len(), 0);
    let unpainted =
        DetailLayer { surface_layer: 3, weight_threshold: s(0.1), ..layer(billboard()) };
    assert_eq!(scatter(&terrain(255), &[unpainted], &open).sprites.len(), 0);
}

#[test]
fn trees_switch_to_impostors_with_distance() {
    let item = terrain(255);
    let near = scatter(&item, &[layer(tree(1e6))], &params(0.0, 0.0, 0.0));
    assert_eq!((near.mesh_instances.len(), near.sprites.len()), (1, 0));
    let far = scatter(&item, &[layer(tree(0.5))], &params(0.0, 0.0, 0.0));
    assert_eq!((far.mesh_instances.len(), far.sprites.len()), (0, 1));
    assert_eq!(far.sprites[0].texture_id, Some(6));
    let both = scatter(&item, &[layer(tree(1500.0))], &params(0.0, 0.0, 2600.0));
    let (meshes, sprites) = (&both.mesh_instances[0], &both.sprites[0]);
    assert_eq!(meshes.transforms.len() + sprites.positions.len(), 400);
    assert!(!meshes.transforms.is_empty() && !sprites.positions.is_empty());
    for transform in &meshes.transforms {
        assert!((f(transform.cells[14]) - 2600.0).abs() < 1500.0);
    }
    assert_eq!(meshes.mesh_id, 5);
    assert_eq!(meshes.texture_id, None);
    assert_eq!(meshes.colours.len(), meshes.transforms.len());
    assert!(meshes.colours.iter().all(|c| *c == WHITE.map(s)));
}

#[test]
fn mesh_layers_emit_mesh_batches() {
    let kind = DetailKind::Mesh { mesh_id: 8, texture_id: Some(9), colour: WHITE.map(s) };
    let out = scatter(&terrain(255), &[layer(kind)], &params(0.0, 0.0, 0.0));
    assert_eq!((out.mesh_instances.len(), out.sprites.len()), (1, 0));
    let batch = &out.mesh_instances[0];
    assert_eq!((batch.mesh_id, batch.texture_id, batch.alpha_blend), (8, Some(9), true));
    assert_eq!(batch.transforms.len(), 400);
    let cells = batch.transforms[0].cells;
    let scale = (f(cells[0]).powi(2) + f(cells[1]).powi(2)).sqrt();
    assert!((1.0..3.0).contains(&scale));
    assert_eq!(f(cells[15]), 1.0);
}

#[test]
fn placement_is_stable_and_the_output_is_reused() {
    let item = terrain(200);
    let layers = [layer(billboard()), layer(tree(1500.0)), layer(billboard())];
    let camera = params(1.0, 2.0, 2000.0);
    let mut out = scatter(&item, &layers, &camera);
    let positions: Vec<Vec<Vec3>> = out.sprites.iter().map(|b| b.positions.clone()).collect();
    assert_eq!(out.sprites.len(), 3);
    assert_eq!(out.mesh_instances.len(), 1);
    scatter_terrain_details(&item, &layers, &camera, &mut out, &FloatMath);
    let again: Vec<Vec<Vec3>> = out.sprites.iter().map(|b| b.positions.clone()).collect();
    assert_eq!(positions, again);
    // Layers are seeded by their place.
    assert_ne!(positions[0], positions[2]);
    scatter_terrain_details(&item, &[], &camera, &mut out, &FloatMath);
    assert_eq!((out.sprites.len(), out.mesh_instances.len()), (0, 0));
}

#[test]
fn clearing_drops_every_batch() {
    let mut out = scatter(&terrain(255), &[layer(tree(2000.0))], &params(0.0, 0.0, 2000.0));
    assert!(!out.sprites.is_empty() && !out.mesh_instances.is_empty());
    out.clear();
    assert!(out.sprites.is_empty() && out.mesh_instances.is_empty());
}

#[test]
fn batches_gather_instances_in_order() {
    let at = |x: f32| Vec3 { x: s(x), y: s(0.0), z: s(0.0) };
    let mut instances =
        LayerInstances { transforms: vec![], positions: vec![], sizes: vec![] };
    instances.gather(None);
    instances.gather(Some(Instance::Sprite { position: at(1.0), size: s(3.0) }));
    instances.gather(Some(Instance::Mesh { transform: Transform { cells: [s(7.0); 16] } }));
    instances.gather(Some(Instance::Sprite { position: at(2.0), size: s(4.0) }));
    let mut out = DetailScatterOutput::default();
    add_batches(&layer(tree(1.0)), instances, &mut out);
    assert_eq!(out.sprites[0].positions, vec![at(1.0), at(2.0)]);
    assert_eq!(out.sprites[0].sizes, vec![s(3.0), s(4.0)]);
    assert_eq!(out.mesh_instances[0].transforms.len(), 1);
    let none = LayerInstances { transforms: vec![], positions: vec![], sizes: vec![] };
    add_batches(&layer(tree(1.0)), none, &mut out);
    assert_eq!((out.sprites.len(), out.mesh_instances.len()), (1, 1));
}
