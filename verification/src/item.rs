//! Terrain items: the heightmap, the splatmaps and the surface layers that a
//! host submits for one frame.
use crate::scalar::{Scalar, Vec3, ONE, ZERO};
use crate::trusted::share;
use std::sync::Arc;
use vstd::prelude::*;

verus! {

/// Number of surface layers in a [`TerrainItem`]. Two splatmaps carry four
/// channels each; channels map to layers in order.
pub const LAYER_COUNT: usize = 8;

/// The pick identifier of an item that cannot be picked.
pub const NOT_PICKABLE: u64 = 0;

/// The bit pattern of 0.5, the neutral albedo.
pub const NEUTRAL_ALBEDO: u32 = 0x3F00_0000;

/// The bit pattern of 0.9, the neutral roughness.
pub const NEUTRAL_ROUGHNESS: u32 = 0x3F66_6666;

/// The bit pattern of 64.0, the scale of the height-blend noise of a new item.
pub const NEUTRAL_NOISE_SCALE: u32 = 0x4280_0000;

/// One surface layer in a splatmap-blended terrain.
#[derive(Clone, Copy, Debug)]
pub struct TerrainLayer {
    pub albedo: [Scalar; 3],
    pub metallic: Scalar,
    pub roughness: Scalar,
    pub height_bias: Scalar,
}

impl TerrainLayer {
    /// Whether this is the layer that an unassigned slot holds.
    pub open spec fn neutral(self) -> bool {
        &&& self.albedo@ == seq![
            Scalar { bits: NEUTRAL_ALBEDO },
            Scalar { bits: NEUTRAL_ALBEDO },
            Scalar { bits: NEUTRAL_ALBEDO },
        ]
        &&& self.metallic.bits == ZERO
        &&& self.roughness.bits == NEUTRAL_ROUGHNESS
        &&& self.height_bias.bits == ZERO
    }
}

impl Default for TerrainLayer {
    fn default() -> (layer: Self)
        ensures
            layer.neutral(),
    {
        let grey = Scalar { bits: NEUTRAL_ALBEDO };
        TerrainLayer {
            albedo: [grey, grey, grey],
            metallic: Scalar { bits: ZERO },
            roughness: Scalar { bits: NEUTRAL_ROUGHNESS },
            height_bias: Scalar { bits: ZERO },
        }
    }
}

/// Per-channel layer weights painted across the terrain.
///
/// The bytes are held behind an [`Arc`] so consumers can clone the
/// `SplatmapData` per frame without copying them. Edit by building a new
/// `Vec<u8>` and calling [`SplatmapData::replace`], which bumps
/// [`version`](Self::version) so the renderer detects the change and uploads
/// the texture again.
pub struct SplatmapData {
    rgba: Arc<[u8]>,
    /// Splatmap resolution (width, height).
    pub dims: [u32; 2],
    /// Bumped when the bytes change. The renderer compares it against the
    /// last upload to decide whether to push new texture data.
    pub version: u64,
}

/// What a [`SplatmapData`] holds.
#[verifier::ext_equal]
pub struct SplatmapView {
    pub rgba: Seq<u8>,
    pub dims: [u32; 2],
    pub version: u64,
}

impl View for SplatmapData {
    type V = SplatmapView;

    closed spec fn view(&self) -> SplatmapView {
        SplatmapView { rgba: (*self.rgba)@, dims: self.dims, version: self.version }
    }
}

/// The version that follows `version`.
pub open spec fn next_version(version: u64) -> u64 {
    if version == u64::MAX {
        0
    } else {
        (version + 1) as u64
    }
}

/// Whether replacing the bytes of a splatmap turns it from `before` into `after`.
pub open spec fn repainted(
    before: SplatmapView,
    rgba: Seq<u8>,
    dims: [u32; 2],
    after: SplatmapView,
) -> bool {
    after == (SplatmapView { rgba, dims, version: next_version(before.version) })
}

/// The number of texels of a map.
pub open spec fn texel_count(dims: [u32; 2]) -> nat {
    (dims@[0] * dims@[1]) as nat
}

/// Four consecutive layers, interleaved texel by texel: byte `4 * t + c` is
/// the weight of layer `first + c` at texel `t`, and zero where there is no
/// such layer.
pub open spec fn interleaved(per_layer: Seq<Vec<u8>>, first: int, texels: nat) -> Seq<u8> {
    Seq::new(
        4 * texels,
        |k: int|
            if first + k % 4 < per_layer.len() {
                per_layer[first + k % 4]@[k / 4]
            } else {
                0u8
            },
    )
}

/// Whether every buffer holds one weight per texel.
pub open spec fn one_weight_per_texel(per_layer: Seq<Vec<u8>>, dims: [u32; 2]) -> bool {
    forall|layer: int|
        0 <= layer < per_layer.len() ==> (#[trigger] per_layer[layer])@.len() == texel_count(dims)
}

/// Whether packing the weights of layers into splatmaps gives `maps`: two of them where
/// there are weights and each layer has one per texel, and none otherwise.
pub open spec fn packs(
    per_layer: Seq<Vec<u8>>,
    dims: [u32; 2],
    maps: Option<[SplatmapData; 2]>,
) -> bool {
    &&& maps is Some <==> per_layer.len() > 0 && one_weight_per_texel(per_layer, dims)
    &&& maps matches Some(packed) ==> {
        &&& packed@[0]@ == SplatmapView {
            rgba: interleaved(per_layer, 0, texel_count(dims)),
            dims,
            version: 0,
        }
        &&& packed@[1]@ == SplatmapView {
            rgba: interleaved(per_layer, 4, texel_count(dims)),
            dims,
            version: 0,
        }
    }
}

impl Clone for SplatmapData {
    /// A second handle on the same bytes.
    fn clone(&self) -> (copy: Self)
        ensures
            copy@ == self@,
    {
        SplatmapData { rgba: Arc::clone(&self.rgba), dims: self.dims, version: self.version }
    }
}

impl SplatmapData {
    /// Construct from an owned byte vector.
    pub fn new(rgba: Vec<u8>, dims: [u32; 2]) -> (map: Self)
        ensures
            map@ == (SplatmapView { rgba: rgba@, dims, version: 0 }),
    {
        SplatmapData { rgba: share(rgba), dims, version: 0 }
    }

    /// Borrow the RGBA bytes.
    pub fn rgba(&self) -> (bytes: &[u8])
        ensures
            bytes@ == self@.rgba,
    {
        &self.rgba
    }

    /// The resolution (width, height).
    pub fn resolution(&self) -> (dims: [u32; 2])
        ensures
            dims == self@.dims,
    {
        self.dims
    }

    /// The number of the last edit.
    pub fn edit(&self) -> (version: u64)
        ensures
            version == self@.version,
    {
        self.version
    }

    /// Replace the bytes with a new buffer. Bumps `version` so the renderer
    /// uploads again on the next frame.
    pub fn replace(&mut self, rgba: Vec<u8>, dims: [u32; 2])
        ensures
            final(self)@ == (SplatmapView {
                rgba: rgba@,
                dims,
                version: next_version(old(self)@.version),
            }),            repainted(old(self)@, rgba@, dims, final(self)@),
    {
        self.rgba = share(rgba);
        self.dims = dims;
        self.version = self.version.wrapping_add(1);
    }

    /// A 1x1 splatmap with all-zero channels. Use this for the second
    /// splatmap when a terrain only uses layers 0..4.
    pub fn empty() -> (map: Self)
        ensures
            map@ == (SplatmapView { rgba: seq![0u8, 0, 0, 0], dims: [1, 1], version: 0 }),
    {
        let rgba: Vec<u8> = vec![0u8, 0, 0, 0];
        assert(rgba@ =~= seq![0u8, 0, 0, 0]);
        Self::new(rgba, [1, 1])
    }

    /// A 1x1 splatmap that selects layer 0 (channel R) everywhere.
    pub fn solid_layer0() -> (map: Self)
        ensures
            map@ == (SplatmapView { rgba: seq![255u8, 0, 0, 0], dims: [1, 1], version: 0 }),
    {
        let rgba: Vec<u8> = vec![255u8, 0, 0, 0];
        assert(rgba@ =~= seq![255u8, 0, 0, 0]);
        Self::new(rgba, [1, 1])
    }

    /// Interleave the four layers that start at `first`.
    fn interleave(per_layer: &[Vec<u8>], first: usize, texels: usize) -> (rgba: Vec<u8>)
        requires
            first <= 4,
            4 * texels <= usize::MAX,
            forall|layer: int|
                0 <= layer < per_layer@.len() ==> (#[trigger] per_layer@[layer])@.len() == texels,
        ensures
            rgba@ == interleaved(per_layer@, first as int, texels as nat),
    {
        let mut out: Vec<u8> = Vec::with_capacity(texels * 4);
        let mut texel: usize = 0;
        while texel < texels
            invariant
                first <= 4,
                texel <= texels,
                4 * texels <= usize::MAX,
                out@.len() == 4 * texel,
                forall|layer: int|
                    0 <= layer < per_layer@.len() ==> (#[trigger] per_layer@[layer])@.len()
                        == texels,
                forall|k: int|
                    0 <= k < 4 * texel ==> out@[k] == #[trigger] interleaved(
                        per_layer@,
                        first as int,
                        texels as nat,
                    )[k],
            decreases texels - texel,
        {
            let mut slot: usize = 0;
            while slot < 4
                invariant
                    first <= 4,
                    slot <= 4,
                    texel < texels,
                    4 * texels <= usize::MAX,
                    out@.len() == 4 * texel + slot,
                    forall|layer: int|
                        0 <= layer < per_layer@.len() ==> (#[trigger] per_layer@[layer])@.len()
                            == texels,
                    forall|k: int|
                        0 <= k < 4 * texel + slot ==> out@[k] == #[trigger] interleaved(
                            per_layer@,
                            first as int,
                            texels as nat,
                        )[k],
                decreases 4 - slot,
            {
                let layer: usize = first + slot;
                let weight: u8 = if layer < per_layer.len() { per_layer[layer][texel] } else { 0 };
                assert((4 * texel + slot) % 4 == slot && (4 * texel + slot) / 4 == texel as int);
                out.push(weight);
                slot = slot + 1;
            }
            texel = texel + 1;
        }
        assert(out@ =~= interleaved(per_layer@, first as int, texels as nat));
        out
    }

    /// Pack per-layer single-channel weight maps into two splatmaps.
    ///
    /// `per_layer` is one byte buffer per layer, each of length
    /// `dims[0] * dims[1]`, holding weights in `0 ..= 255`. Up to the first
    /// eight layers are packed: layers 0..4 land in the first splatmap
    /// (channels R, G, B, A in that order); layers 4..8 land in the second.
    /// Missing trailing layers are zero-filled.
    ///
    /// Returns `None` if any provided buffer has the wrong length or
    /// `per_layer` is empty.
    pub fn pack_layers(per_layer: &[Vec<u8>], dims: [u32; 2]) -> (maps: Option<[Self; 2]>)
        requires
            per_layer@.len() > 0 && one_weight_per_texel(per_layer@, dims) ==> 4 * texel_count(dims)
                <= usize::MAX,
        ensures
            maps is Some <==> per_layer@.len() > 0 && one_weight_per_texel(per_layer@, dims),
            maps matches Some(packed) ==> {
                &&& packed@[0]@ == SplatmapView {
                    rgba: interleaved(per_layer@, 0, texel_count(dims)),
                    dims,
                    version: 0,
                }
                &&& packed@[1]@ == SplatmapView {
                    rgba: interleaved(per_layer@, 4, texel_count(dims)),
                    dims,
                    version: 0,
                }
            },            packs(per_layer@, dims, maps),
    {
        let width: u64 = dims[0] as u64;
        let height: u64 = dims[1] as u64;
        proof {
            assert(width * height <= 0xFFFF_FFFF * 0xFFFF_FFFF) by (nonlinear_arith)
                requires
                    width <= 0xFFFF_FFFF,
                    height <= 0xFFFF_FFFF,
            ;
        }
        let texels: u64 = width * height;
        if per_layer.len() == 0 {
            return None;
        }
        let mut layer: usize = 0;
        while layer < per_layer.len()
            invariant
                layer <= per_layer@.len(),
                texels == texel_count(dims),
                forall|l: int| 0 <= l < layer ==> (#[trigger] per_layer@[l])@.len() == texels,
            decreases per_layer@.len() - layer,
        {
            if per_layer[layer].len() as u64 != texels {
                assert(per_layer@[layer as int]@.len() != texel_count(dims));
                return None;
            }
            layer = layer + 1;
        }
        assert(per_layer@[0]@.len() == texels);
        let texels: usize = per_layer[0].len();
        let first = Self::new(Self::interleave(per_layer, 0, texels), dims);
        let second = Self::new(Self::interleave(per_layer, 4, texels), dims);
        Some([first, second])
    }
}

/// What a channel of a packed splatmap reads back: the weight that was
/// packed for its layer, at every texel and for every layer up to the eighth.
pub proof fn packed_channel_reads_back(per_layer: Seq<Vec<u8>>, texels: nat, layer: int, texel: int)
    requires
        0 <= layer < LAYER_COUNT,
        0 <= texel < texels,
    ensures
        interleaved(per_layer, 4 * (layer / 4), texels)[4 * texel + layer % 4] == if layer
            < per_layer.len() {
            per_layer[layer]@[texel]
        } else {
            0u8
        },
{
    let k = 4 * texel + layer % 4;
    assert(k % 4 == layer % 4 && k / 4 == texel);
}

/// Visibility, selection and identity of a submitted item.
#[derive(Clone, Copy, PartialEq, Eq, Debug, Structural)]
pub struct ItemSettings {
    /// Hide the item entirely.
    pub hidden: bool,
    /// Whether the item is currently selected.
    pub selected: bool,
    /// Identity of the item, [`NOT_PICKABLE`] when it has none.
    pub pick_id: u64,
}

impl Default for ItemSettings {
    fn default() -> (settings: Self)
        ensures
            !settings.hidden,
            !settings.selected,
            settings.pick_id == NOT_PICKABLE,
    {
        ItemSettings { hidden: false, selected: false, pick_id: NOT_PICKABLE }
    }
}

/// Where the grid of a heightmap lies in the world.
#[derive(Clone, Copy, Debug)]
pub struct GridFrame {
    /// Grid resolution (width, height).
    pub dims: [u32; 2],
    /// World-space extents along X and Y.
    pub world_size: [Scalar; 2],
    /// World-space heights of the lowest and the highest sample.
    pub height_range: [Scalar; 2],
    /// World-space origin (lower-left corner in XY).
    pub origin: Vec3,
}

/// One terrain submission for the current frame.
///
/// `heightmap` is held behind an [`Arc`] so per-frame submissions clone
/// cheaply. Bump [`heightmap_version`](Self::heightmap_version) whenever you
/// replace the heightmap so the renderer bakes the patch meshes again.
pub struct TerrainItem {
    /// 16-bit heightmap samples in row-major order, shared via `Arc`.
    pub heightmap: Arc<[u16]>,
    /// Bumped when the samples of [`heightmap`](Self::heightmap) change.
    pub heightmap_version: u64,
    /// Grid resolution (width, height).
    pub dims: [u32; 2],
    /// World-space extents along X and Y. Z-up.
    pub world_size: [Scalar; 2],
    /// World-space height range; samples are remapped from `u16` to
    /// `height_range[0] ..= height_range[1]`.
    pub height_range: [Scalar; 2],
    /// World-space origin (lower-left corner in XY).
    pub origin: Vec3,
    /// Eight surface layers.
    pub surface_layers: [TerrainLayer; LAYER_COUNT],
    /// Two splatmaps. Channels: A.r -> 0, A.g -> 1, ..., B.a -> 7.
    pub splatmaps: [SplatmapData; 2],
    /// Sharpness of the height-blend pass. 0 = pure weight blend.
    pub height_blend_strength: Scalar,
    /// Scale of the procedural noise feeding the height-blend.
    pub height_blend_noise_scale: Scalar,
    pub settings: ItemSettings,
}

/// The samples of a little-endian 16-bit blob.
pub open spec fn decoded(bytes: Seq<u8>) -> Seq<u16> {
    Seq::new(bytes.len() / 2, |i: int| (bytes[2 * i] + 256 * bytes[2 * i + 1]) as u16)
}

/// The little-endian blob of a run of samples.
pub open spec fn encoded(samples: Seq<u16>) -> Seq<u8> {
    Seq::new(
        2 * samples.len(),
        |k: int|
            if k % 2 == 0 {
                (samples[k / 2] % 256) as u8
            } else {
                (samples[k / 2] / 256) as u8
            },
    )
}

/// Decoding gives back the samples that were encoded.
pub proof fn decoding_undoes_encoding(samples: Seq<u16>)
    ensures
        decoded(encoded(samples)) == samples,
{
    let bytes = encoded(samples);
    assert forall|i: int| 0 <= i < samples.len() implies decoded(bytes)[i] == samples[i] by {
        assert((2 * i) % 2 == 0 && (2 * i) / 2 == i);
        assert((2 * i + 1) % 2 == 1 && (2 * i + 1) / 2 == i);
        assert(bytes[2 * i] == (samples[i] % 256) as u8);
        assert(bytes[2 * i + 1] == (samples[i] / 256) as u8);
    }
    assert(decoded(bytes) =~= samples);
}

/// Encoding gives back the bytes that were decoded, for a blob of an even
/// number of bytes.
pub proof fn encoding_undoes_decoding(bytes: Seq<u8>)
    requires
        bytes.len() % 2 == 0,
    ensures
        encoded(decoded(bytes)) == bytes,
{
    let samples = decoded(bytes);
    assert forall|k: int| 0 <= k < bytes.len() implies encoded(samples)[k] == bytes[k] by {
        let i = k / 2;
        assert(samples[i] == (bytes[2 * i] + 256 * bytes[2 * i + 1]) as u16);
        if k % 2 == 0 {
            assert(k == 2 * i);
        } else {
            assert(k == 2 * i + 1);
        }
    }
    assert(encoded(samples) =~= bytes);
}

/// Whether replacing the samples of an item turns it from `before` into `after`.
pub open spec fn resampled(
    before: TerrainItem,
    samples: Seq<u16>,
    dims: [u32; 2],
    after: TerrainItem,
) -> bool {
    &&& after.samples() == samples
    &&& after.dims == dims
    &&& after.heightmap_version == next_version(before.heightmap_version)
    &&& after == (TerrainItem {
        heightmap: after.heightmap,
        dims: after.dims,
        heightmap_version: after.heightmap_version,
        ..before
    })
}

/// Whether a blob loads as `item`, placed as `frame` says: where it has the right length,
/// and not at all otherwise.
pub open spec fn loads(bytes: Seq<u8>, frame: GridFrame, item: Option<TerrainItem>) -> bool {
    &&& item is Some <==> bytes.len() == 2 * texel_count(frame.dims)
    &&& item matches Some(loaded) ==> {
        &&& loaded.samples() == decoded(bytes)
        &&& loaded.heightmap_version == 0
        &&& loaded.placement() == frame
        &&& loaded.neutral_surface()
    }
}

/// Whether replacing the surface layers of an item by descriptors turns it from `before`
/// into `after`.
pub open spec fn surfaced(
    before: TerrainItem,
    descriptors: Seq<TerrainLayer>,
    after: TerrainItem,
) -> bool {
    &&& forall|slot: int|
        0 <= slot < LAYER_COUNT && slot < descriptors.len()
            ==> #[trigger] after.surface_layers@[slot] == descriptors[slot]
    &&& forall|slot: int|
        descriptors.len() <= slot < LAYER_COUNT
            ==> (#[trigger] after.surface_layers@[slot]).neutral()
    &&& after == (TerrainItem { surface_layers: after.surface_layers, ..before })
}

impl TerrainItem {
    /// The height samples in row-major order.
    pub open spec fn samples(&self) -> Seq<u16> {
        (*self.heightmap)@
    }

    /// Where the grid lies in the world.
    pub open spec fn placement(&self) -> GridFrame {
        GridFrame {
            dims: self.dims,
            world_size: self.world_size,
            height_range: self.height_range,
            origin: self.origin,
        }
    }

    /// Whether everything but the samples, their number, their version and
    /// their placement is what a new item holds.
    pub open spec fn neutral_surface(&self) -> bool {
        &&& forall|slot: int|
            0 <= slot < LAYER_COUNT ==> (#[trigger] self.surface_layers@[slot]).neutral()
        &&& self.splatmaps@[0]@ == SplatmapView {
            rgba: seq![255u8, 0, 0, 0],
            dims: [1, 1],
            version: 0,
        }
        &&& self.splatmaps@[1]@ == SplatmapView { rgba: seq![0u8, 0, 0, 0], dims: [1, 1], version: 0 }
        &&& self.height_blend_strength.bits == ZERO
        &&& self.height_blend_noise_scale.bits == NEUTRAL_NOISE_SCALE
        &&& !self.settings.hidden
        &&& !self.settings.selected
        &&& self.settings.pick_id == NOT_PICKABLE
    }

    /// Where the grid lies in the world.
    pub fn frame(&self) -> (frame: GridFrame)
        ensures
            frame == self.placement(),
    {
        GridFrame {
            dims: self.dims,
            world_size: self.world_size,
            height_range: self.height_range,
            origin: self.origin,
        }
    }

    /// Construct with `heightmap_version` set to 0. Subsequent edits to the
    /// heightmap should call [`replace_heightmap`](Self::replace_heightmap).
    pub fn new(heightmap: Vec<u16>, dims: [u32; 2]) -> (item: Self)
        ensures
            item.samples() == heightmap@,
            item.heightmap_version == 0,
            item.dims == dims,
            item.world_size@ == seq![Scalar { bits: ONE }, Scalar { bits: ONE }],
            item.height_range@ == seq![Scalar { bits: ZERO }, Scalar { bits: ONE }],
            item.origin == (Vec3 {
                x: Scalar { bits: ZERO },
                y: Scalar { bits: ZERO },
                z: Scalar { bits: ZERO },
            }),
            item.neutral_surface(),
    {
        let zero = Scalar { bits: ZERO };
        let one = Scalar { bits: ONE };
        let layer = TerrainLayer::default();
        TerrainItem {
            heightmap: share(heightmap),
            heightmap_version: 0,
            dims,
            world_size: [one, one],
            height_range: [zero, one],
            origin: Vec3 { x: zero, y: zero, z: zero },
            surface_layers: [layer; LAYER_COUNT],
            splatmaps: [SplatmapData::solid_layer0(), SplatmapData::empty()],
            height_blend_strength: zero,
            height_blend_noise_scale: Scalar { bits: NEUTRAL_NOISE_SCALE },
            settings: ItemSettings::default(),
        }
    }

    /// Replace the heightmap and bump `heightmap_version`.
    pub fn replace_heightmap(&mut self, heightmap: Vec<u16>, dims: [u32; 2])
        ensures
            final(self).samples() == heightmap@,
            final(self).dims == dims,
            final(self).heightmap_version == next_version(old(self).heightmap_version),
            *final(self) == (TerrainItem {
                heightmap: final(self).heightmap,
                dims: final(self).dims,
                heightmap_version: final(self).heightmap_version,
                ..*old(self)
            }),            resampled(*old(self), heightmap@, dims, *final(self)),
    {
        self.heightmap = share(heightmap);
        self.dims = dims;
        self.heightmap_version = self.heightmap_version.wrapping_add(1);
    }

    /// Construct a fully-specified `TerrainItem` from a raw little-endian
    /// `u16` heightmap blob (raw `.r16` files and the like).
    ///
    /// `bytes.len()` must equal `dims[0] * dims[1] * 2`; otherwise this
    /// returns `None`.
    pub fn from_u16_le_bytes(
        bytes: &[u8],
        dims: [u32; 2],
        world_size: [Scalar; 2],
        height_range: [Scalar; 2],
        origin: Vec3,
    ) -> (item: Option<Self>)
        ensures
            item is Some <==> bytes@.len() == 2 * texel_count(dims),
            item matches Some(decoded_item) ==> {
                &&& decoded_item.samples() == decoded(bytes@)
                &&& decoded_item.heightmap_version == 0
                &&& decoded_item.placement() == GridFrame { dims, world_size, height_range, origin }
                &&& decoded_item.neutral_surface()
            },            loads(
                bytes@,
                (GridFrame { dims, world_size, height_range, origin }),
                item,
            ),
    {
        let width: u128 = dims[0] as u128;
        let height: u128 = dims[1] as u128;
        proof {
            assert(0 <= width * height <= 0xFFFF_FFFF * 0xFFFF_FFFF) by (nonlinear_arith)
                requires
                    0 <= width <= 0xFFFF_FFFF,
                    0 <= height <= 0xFFFF_FFFF,
            ;
        }
        let expected: u128 = width * height * 2;
        if bytes.len() as u128 != expected {
            return None;
        }
        let count: usize = bytes.len() / 2;
        let mut heights: Vec<u16> = Vec::with_capacity(count);
        let mut i: usize = 0;
        while i < count
            invariant
                i <= count,
                2 * count == bytes@.len(),
                bytes@.len() <= usize::MAX,
                heights@ == decoded(bytes@).take(i as int),
            decreases count - i,
        {
            let low: u16 = bytes[2 * i] as u16;
            let high: u16 = bytes[2 * i + 1] as u16;
            heights.push(low + 256 * high);
            proof {
                assert(decoded(bytes@).take(i + 1) =~= decoded(bytes@).take(i as int).push(
                    decoded(bytes@)[i as int],
                ));
            }
            i = i + 1;
        }
        assert(decoded(bytes@).take(count as int) =~= decoded(bytes@));
        let mut item = Self::new(heights, dims);
        item.world_size = world_size;
        item.height_range = height_range;
        item.origin = origin;
        Some(item)
    }

    /// Replace the eight surface layers from a normalised descriptor list.
    ///
    /// The first `descriptors.len()` slots, up to all of them, are
    /// overwritten; the remainder fall back to [`TerrainLayer::default`].
    pub fn set_layers_from_descriptors(&mut self, descriptors: &[TerrainLayer])
        ensures
            forall|slot: int|
                0 <= slot < LAYER_COUNT && slot < descriptors@.len()
                    ==> #[trigger] final(self).surface_layers@[slot] == descriptors@[slot],
            forall|slot: int|
                descriptors@.len() <= slot < LAYER_COUNT
                    ==> (#[trigger] final(self).surface_layers@[slot]).neutral(),
            *final(self) == (TerrainItem {
                surface_layers: final(self).surface_layers,
                ..*old(self)
            }),            surfaced(*old(self), descriptors@, *final(self)),
    {
        let neutral = TerrainLayer::default();
        let mut layers: [TerrainLayer; LAYER_COUNT] = [neutral; LAYER_COUNT];
        let mut slot: usize = 0;
        while slot < LAYER_COUNT && slot < descriptors.len()
            invariant
                slot <= LAYER_COUNT,
                slot <= descriptors@.len(),
                forall|i: int| 0 <= i < slot ==> #[trigger] layers@[i] == descriptors@[i],
                forall|i: int| slot <= i < LAYER_COUNT ==> (#[trigger] layers@[i]).neutral(),
            decreases LAYER_COUNT - slot,
        {
            layers[slot] = descriptors[slot];
            slot = slot + 1;
        }
        self.surface_layers = layers;
    }
}

impl Clone for TerrainItem {
    /// A second handle on the same samples and splatmap bytes.
    fn clone(&self) -> (copy: Self)
        ensures
            copy.samples() == self.samples(),
            copy.heightmap_version == self.heightmap_version,
            copy.placement() == self.placement(),
            copy.surface_layers == self.surface_layers,
            copy.splatmaps@[0]@ == self.splatmaps@[0]@,
            copy.splatmaps@[1]@ == self.splatmaps@[1]@,
            copy.height_blend_strength == self.height_blend_strength,
            copy.height_blend_noise_scale == self.height_blend_noise_scale,
            copy.settings == self.settings,
    {
        TerrainItem {
            heightmap: Arc::clone(&self.heightmap),
            heightmap_version: self.heightmap_version,
            dims: self.dims,
            world_size: self.world_size,
            height_range: self.height_range,
            origin: self.origin,
            surface_layers: self.surface_layers,
            splatmaps: [self.splatmaps[0].clone(), self.splatmaps[1].clone()],
            height_blend_strength: self.height_blend_strength,
            height_blend_noise_scale: self.height_blend_noise_scale,
            settings: self.settings,
        }
    }
}

/// Per-frame collection of terrains.
pub struct TerrainCollection {
    pub items: Vec<TerrainItem>,
}

impl TerrainCollection {
    /// Number of terrains.
    pub fn len(&self) -> (count: usize)
        ensures
            count == self.items@.len(),
    {
        self.items.len()
    }

    /// Settings of the terrain at `index`.
    pub fn item_settings(&self, index: usize) -> (settings: &ItemSettings)
        requires
            index < self.items@.len(),
        ensures
            *settings == self.items@[index as int].settings,
    {
        &self.items[index].settings
    }

    /// Identity of the terrain at `index`.
    pub fn pick_id(&self, index: usize) -> (id: u64)
        requires
            index < self.items@.len(),
        ensures
            id == self.items@[index as int].settings.pick_id,
    {
        self.items[index].settings.pick_id
    }
}

} // verus!
