use terrain::item::{ItemSettings, NOT_PICKABLE};
use terrain::scalar::{Scalar, Vec3};
use terrain::{SplatmapData, TerrainCollection, TerrainItem, TerrainLayer, LAYER_COUNT, TYPE_NAME};

fn s(x: f32) -> Scalar {
    Scalar::from_bits(x.to_bits())
}

fn v3(x: f32, y: f32, z: f32) -> Vec3 {
    Vec3 { x: s(x), y: s(y), z: s(z) }
}

#[test]
fn from_u16_le_bytes_round_trips_a_ramp() {
    let dims = [4u32, 3u32];
    let heights: Vec<u16> = (0u16..12u16).map(|i| i * 1000).collect();
    let mut bytes = Vec::with_capacity(heights.len() * 2);
    for h in &heights {
        bytes.extend_from_slice(&h.to_le_bytes());
    }
    let item = TerrainItem::from_u16_le_bytes(
        &bytes,
        dims,
        [s(10.0), s(20.0)],
        [s(-5.0), s(100.0)],
        v3(1.0, 2.0, 3.0),
    )
    .expect("decode succeeds");
    assert_eq!(item.dims, dims);
    assert_eq!(item.world_size, [s(10.0), s(20.0)]);
    assert_eq!(item.height_range, [s(-5.0), s(100.0)]);
    assert_eq!(item.origin, v3(1.0, 2.0, 3.0));
    assert_eq!(item.heightmap.as_ref(), heights.as_slice());
}

#[test]
fn from_u16_le_bytes_rejects_wrong_length() {
    let bytes = vec![0u8; 7];
    assert!(TerrainItem::from_u16_le_bytes(
        &bytes,
        [2, 2],
        [s(1.0), s(1.0)],
        [s(0.0), s(1.0)],
        v3(0.0, 0.0, 0.0),
    )
    .is_none());
}

#[test]
fn pack_layers_routes_channels_correctly() {
    let dims = [2u32, 2u32];
    let pixel_count = 4;
    let mut per_layer = Vec::new();
    for layer in 0..6 {
        per_layer.push(vec![(layer * 10) as u8; pixel_count]);
    }
    let [a, b] = SplatmapData::pack_layers(&per_layer, dims).expect("pack");
    for px in 0..pixel_count {
        assert_eq!(a.rgba()[px * 4], 0);
        assert_eq!(a.rgba()[px * 4 + 1], 10);
        assert_eq!(a.rgba()[px * 4 + 2], 20);
        assert_eq!(a.rgba()[px * 4 + 3], 30);
        assert_eq!(b.rgba()[px * 4], 40);
        assert_eq!(b.rgba()[px * 4 + 1], 50);
        assert_eq!(b.rgba()[px * 4 + 2], 0);
        assert_eq!(b.rgba()[px * 4 + 3], 0);
    }
}

#[test]
fn pack_layers_rejects_short_buffers() {
    let dims = [2u32, 2u32];
    let per_layer = vec![vec![0u8; 3]];
    assert!(SplatmapData::pack_layers(&per_layer, dims).is_none());
}

#[test]
fn set_layers_from_descriptors_pads_with_default() {
    let mut item = TerrainItem::new(vec![0; 1], [1, 1]);
    let custom = TerrainLayer {
        albedo: [s(0.1), s(0.2), s(0.3)],
        metallic: s(0.5),
        roughness: s(0.4),
        height_bias: s(0.7),
    };
    item.set_layers_from_descriptors(&[custom]);
    assert_eq!(item.surface_layers[0].albedo, [s(0.1), s(0.2), s(0.3)]);
    let default = TerrainLayer::default();
    assert_eq!(item.surface_layers[1].albedo, default.albedo);
    assert_eq!(item.surface_layers[7].albedo, default.albedo);
}

#[test]
fn more_descriptors_than_slots_are_cut_off() {
    let mut item = TerrainItem::new(vec![0; 1], [1, 1]);
    let layers: Vec<TerrainLayer> = (0..10)
        .map(|i| TerrainLayer { metallic: s(i as f32), ..TerrainLayer::default() })
        .collect();
    item.set_layers_from_descriptors(&layers);
    for slot in 0..LAYER_COUNT {
        assert_eq!(item.surface_layers[slot].metallic, s(slot as f32));
    }
}

#[test]
fn default_layer_is_neutral_grey() {
    let layer = TerrainLayer::default();
    assert_eq!(layer.albedo, [s(0.5), s(0.5), s(0.5)]);
    assert_eq!(layer.metallic, s(0.0));
    assert_eq!(layer.roughness, s(0.9));
    assert_eq!(layer.height_bias, s(0.0));
}

#[test]
fn pack_layers_rejects_no_layers_and_mixed_lengths() {
    assert!(SplatmapData::pack_layers(&[], [2, 2]).is_none());
    let mixed = vec![vec![0u8; 4], vec![0u8; 5]];
    assert!(SplatmapData::pack_layers(&mixed, [2, 2]).is_none());
    let ninth_short = (0..9).map(|i| vec![0u8; if i == 8 { 3 } else { 4 }]).collect::<Vec<_>>();
    assert!(SplatmapData::pack_layers(&ninth_short, [2, 2]).is_none());
}

#[test]
fn packed_weights_read_back_texel_by_texel() {
    let per_layer: Vec<Vec<u8>> =
        (0..8u8).map(|l| (0..6u8).map(|t| l * 10 + t).collect()).collect();
    let maps = SplatmapData::pack_layers(&per_layer, [3, 2]).unwrap();
    for layer in 0..8usize {
        for texel in 0..6usize {
            assert_eq!(maps[layer / 4].rgba()[4 * texel + layer % 4], per_layer[layer][texel]);
        }
    }
    assert_eq!(maps[0].resolution(), [3, 2]);
    assert_eq!(maps[1].edit(), 0);
}

#[test]
fn replacing_a_splatmap_bumps_its_version() {
    let mut map = SplatmapData::new(vec![1, 2, 3, 4], [1, 1]);
    assert_eq!(map.version, 0);
    let shared = map.clone();
    map.replace(vec![5; 8], [2, 1]);
    assert_eq!(map.version, 1);
    assert_eq!(map.dims, [2, 1]);
    assert_eq!(map.rgba(), &[5u8; 8]);
    assert_eq!(shared.rgba(), &[1u8, 2, 3, 4]);
    map.version = u64::MAX;
    map.replace(vec![], [0, 0]);
    assert_eq!(map.version, 0);
}

#[test]
fn blank_splatmaps_are_one_texel() {
    assert_eq!(SplatmapData::empty().rgba(), &[0u8, 0, 0, 0]);
    assert_eq!(SplatmapData::solid_layer0().rgba(), &[255u8, 0, 0, 0]);
    assert_eq!(SplatmapData::empty().dims, [1, 1]);
}

#[test]
fn replacing_a_heightmap_bumps_its_version() {
    let mut item = TerrainItem::new(vec![1, 2, 3, 4], [2, 2]);
    assert_eq!(item.heightmap_version, 0);
    item.replace_heightmap(vec![9; 6], [3, 2]);
    assert_eq!(item.heightmap_version, 1);
    assert_eq!(item.dims, [3, 2]);
    assert_eq!(item.heightmap.as_ref(), &[9u16; 6]);
}

#[test]
fn encoded_heights_decode_to_themselves() {
    let heights: Vec<u16> = vec![0, 1, 255, 256, 0x1234, 65535];
    let bytes: Vec<u8> = heights.iter().flat_map(|h| h.to_le_bytes()).collect();
    let item = TerrainItem::from_u16_le_bytes(
        &bytes,
        [3, 2],
        [s(1.0), s(1.0)],
        [s(0.0), s(1.0)],
        v3(0.0, 0.0, 0.0),
    )
    .unwrap();
    assert_eq!(item.heightmap.as_ref(), heights.as_slice());
    let back: Vec<u8> = item.heightmap.iter().flat_map(|h| h.to_le_bytes()).collect();
    assert_eq!(back, bytes);
}

#[test]
fn a_collection_hands_out_settings() {
    let mut a = TerrainItem::new(vec![0; 4], [2, 2]);
    a.settings = ItemSettings { hidden: true, selected: false, pick_id: 7 };
    let b = TerrainItem::new(vec![0; 4], [2, 2]);
    let collection = TerrainCollection { items: vec![a, b.clone()] };
    assert_eq!(collection.len(), 2);
    assert_eq!(collection.pick_id(0), 7);
    assert!(collection.item_settings(0).hidden);
    assert_eq!(collection.pick_id(1), NOT_PICKABLE);
    assert_eq!(b.settings, ItemSettings::default());
    assert_eq!(TYPE_NAME, "viewport-lib-terrain");
}
