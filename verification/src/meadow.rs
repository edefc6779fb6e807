//! What scattering means on the ground: where instances stand, what they stand on,
//! and which of them are taken.
//!
//! The laws speak of what the formulas stand for through relations that the
//! formulas respect. A relation may leave room for rounding.
use crate::detail::{
    CornerSamples, DetailKind, DetailLayer, DetailScatterOutput, DetailScatterParams, Instance,
    ScatterMath, Transform,
};
use crate::item::TerrainItem;
use crate::scalar::{Scalar, Vec2, Vec3, ONE, ZERO};
use vstd::prelude::*;

verus! {

/// Whether `foot` tells where a transformation puts a mesh and `girth` how large it
/// makes it.
pub open spec fn puts<M: ScatterMath>(
    math: &M,
    foot: spec_fn(Transform) -> Vec3,
    girth: spec_fn(Transform) -> Scalar,
) -> bool {
    forall|position: Vec3, scale: Scalar, random: Scalar, transform: Transform| #[trigger]
        call_ensures(M::placed, (math, position, scale, random), transform) ==> foot(transform)
            == position && girth(transform) == scale
}

/// Where an instance stands: the centre of a sprite, the foot of a mesh.
pub open spec fn stand(foot: spec_fn(Transform) -> Vec3, instance: Instance) -> Vec3 {
    match instance {
        Instance::Sprite { position, .. } => position,
        Instance::Mesh { transform } => foot(transform),
    }
}

/// How large an instance is.
pub open spec fn size_of(girth: spec_fn(Transform) -> Scalar, instance: Instance) -> Scalar {
    match instance {
        Instance::Sprite { size, .. } => size,
        Instance::Mesh { transform } => girth(transform),
    }
}

/// What a sample that yields an instance went by.
struct Grounds {
    pub at: Vec2,
    pub spot: Vec2,
    pub weight: Scalar,
    pub luck: Scalar,
    pub height: Scalar,
    pub z: Scalar,
    pub random: Scalar,
    pub size: Scalar,
}

proof fn lemma_grounds<M: ScatterMath>(
    math: &M,
    item: &TerrainItem,
    layer: DetailLayer,
    layer_idx: usize,
    params: DetailScatterParams,
    i: u32,
    instance: Instance,
) -> (g: Grounds)
    requires
        crate::detail::yields(math, item, layer, layer_idx, params, i, Some(instance)),
    ensures
        crate::detail::is_halton(math, (i + 1) as u32, 2, g.at.x),
        crate::detail::is_halton(math, (i + 1) as u32, 3, g.at.y),
        call_ensures(M::spot, (math, item.placement(), g.at.x, g.at.y), g.spot),
        crate::detail::reaches(math, layer, params, g.spot, true),
        crate::detail::is_splat_weight(
            math,
            item,
            g.at.x,
            g.at.y,
            layer.surface_layer,
            g.weight,
        ),
        !g.weight.below(layer.weight_threshold),
        crate::detail::is_random(layer_idx, i, crate::detail::ACCEPT_SALT, g.luck),
        crate::detail::accepts(math, layer.weight_threshold, g.weight, g.luck, true),
        crate::detail::is_ground(math, item, g.at.x, g.at.y, g.height),
        call_ensures(M::sum, (math, item.origin.z, g.height), g.z),
        crate::detail::is_random(layer_idx, i, crate::detail::SIZE_SALT, g.random),
        call_ensures(M::vary, (math, layer.size, layer.size_jitter, g.random), g.size),
        crate::detail::emits(
            math,
            layer,
            layer_idx,
            params,
            i,
            Vec3 { x: g.spot.x, y: g.spot.y, z: g.z },
            g.size,
            instance,
        ),
{
    let found = Some(instance);
    let reached = choose|reached: bool| #[trigger]
        crate::detail::takes(math, item, layer, layer_idx, params, i, reached, found);
    let (at, spot) = choose|at: Vec2, spot: Vec2|
        {
            &&& #[trigger] crate::detail::is_spot(math, item, i, at, spot)
            &&& crate::detail::reaches(math, layer, params, spot, reached)
            &&& reached
            &&& crate::detail::yields_on(
                math,
                item,
                layer,
                layer_idx,
                params,
                i,
                spot,
                at,
                found,
            )
        };
    let weight = choose|weight: Scalar|
        {
            &&& #[trigger] crate::detail::is_splat_weight(
                math,
                item,
                at.x,
                at.y,
                layer.surface_layer,
                weight,
            )
            &&& !weight.below(layer.weight_threshold)
            &&& exists|random: Scalar, accepted: bool|
                {
                    &&& #[trigger] crate::detail::is_random(
                        layer_idx,
                        i,
                        crate::detail::ACCEPT_SALT,
                        random,
                    )
                    &&& #[trigger] crate::detail::accepts(
                        math,
                        layer.weight_threshold,
                        weight,
                        random,
                        accepted,
                    )
                    &&& accepted
                    &&& crate::detail::yields_instance(
                        math,
                        item,
                        layer,
                        layer_idx,
                        params,
                        i,
                        spot,
                        at,
                        instance,
                    )
                }
        };
    let luck = choose|luck: Scalar|
        {
            &&& #[trigger] crate::detail::is_random(
                layer_idx,
                i,
                crate::detail::ACCEPT_SALT,
                luck,
            )
            &&& crate::detail::accepts(math, layer.weight_threshold, weight, luck, true)
        };
    let (height, z, random, size) = choose|
        height: Scalar,
        z: Scalar,
        random: Scalar,
        size: Scalar,
    |
        {
            &&& #[trigger] crate::detail::is_ground(math, item, at.x, at.y, height)
            &&& #[trigger] call_ensures(M::sum, (math, item.origin.z, height), z)
            &&& #[trigger] crate::detail::is_random(
                layer_idx,
                i,
                crate::detail::SIZE_SALT,
                random,
            )
            &&& #[trigger] call_ensures(
                M::vary,
                (math, layer.size, layer.size_jitter, random),
                size,
            )
            &&& crate::detail::emits(
                math,
                layer,
                layer_idx,
                params,
                i,
                (Vec3 { x: spot.x, y: spot.y, z }),
                size,
                instance,
            )
        };
    Grounds { at, spot, weight, luck, height, z, random, size }
}

/// An instance stands above its own spot.
proof fn lemma_stand<M: ScatterMath>(
    math: &M,
    foot: spec_fn(Transform) -> Vec3,
    girth: spec_fn(Transform) -> Scalar,
    layer: DetailLayer,
    layer_idx: usize,
    params: DetailScatterParams,
    i: u32,
    position: Vec3,
    size: Scalar,
    instance: Instance,
)
    requires
        puts(math, foot, girth),
        crate::detail::emits(math, layer, layer_idx, params, i, position, size, instance),
    ensures
        stand(foot, instance).x == position.x,
        stand(foot, instance).y == position.y,
        instance is Mesh ==> stand(foot, instance).z == position.z,
        instance is Sprite ==> call_ensures(
            M::lift,
            (math, position.z, size),
            stand(foot, instance).z,
        ),
        size_of(girth, instance) == size,
{
}

/// Whether the columns before `first` of a channel of a splatmap are unpainted.
pub open spec fn columns_unpainted(
    map: crate::item::SplatmapView,
    channel: int,
    first: int,
) -> bool {
    forall|x: int, y: int|
        0 <= x < first && x < map.dims@[0] && 0 <= y < map.dims@[1] && 0 <= #[trigger] ((y
            * map.dims@[0] + x) * 4 + channel) < map.rgba.len() ==> map.rgba[(y * map.dims@[0] + x)
            * 4 + channel] == 0
}

/// Whether the rows before `first` of a channel of a splatmap are unpainted.
pub open spec fn rows_unpainted(map: crate::item::SplatmapView, channel: int, first: int) -> bool {
    forall|x: int, y: int|
        0 <= y < first && y < map.dims@[1] && 0 <= x < map.dims@[0] && 0 <= #[trigger] ((y
            * map.dims@[0] + x) * 4 + channel) < map.rgba.len() ==> map.rgba[(y * map.dims@[0] + x)
            * 4 + channel] == 0
}

proof fn lemma_texel(position: Scalar, count: u32)
    requires
        count >= 1,
    ensures
        ({
            let texel = crate::detail::texel_at(
                position.larger(Scalar { bits: ZERO }),
                count,
            );
            &&& 0 <= texel < count
            &&& texel <= position.truncated()
            &&& texel == if position.truncated() < count {
                position.truncated()
            } else {
                count - 1
            }
        }),
{
    crate::sampling::lemma_kept_above_zero(position);
    if !position.nan() {
        crate::scalar::truncation_keeps_the_order(position, position);
    }
}

/// Nothing grows on unpainted ground along X: where the columns of a splatmap before
/// `first` are unpainted for the surface layer of a detail layer, and points before
/// `edge` lie in those columns, no instance stands before `edge`.
pub proof fn unpainted_columns_stay_empty<M: ScatterMath>(
    math: &M,
    item: &TerrainItem,
    foot: spec_fn(Transform) -> Vec3,
    girth: spec_fn(Transform) -> Scalar,
    layer: DetailLayer,
    layer_idx: usize,
    params: DetailScatterParams,
    i: u32,
    instance: Instance,
    first: int,
    edge: Scalar,
)
    requires
        puts(math, foot, girth),
        crate::detail::yields(math, item, layer, layer_idx, params, i, Some(instance)),
        (Scalar { bits: ZERO }).below(layer.weight_threshold),
        layer.surface_layer < 8,
        columns_unpainted(
            item.splatmaps@[(layer.surface_layer / 4) as int]@,
            (layer.surface_layer % 4) as int,
            first,
        ),
        forall|u: Scalar, v: Scalar, p: Vec2, across: Scalar| #[trigger]
            call_ensures(M::spot, (math, item.placement(), u, v), p) && #[trigger] call_ensures(
                M::stretch,
                (
                    math,
                    u.limited(Scalar { bits: ZERO }, Scalar { bits: ONE }),
                    item.splatmaps@[(layer.surface_layer / 4) as int]@.dims@[0],
                ),
                across,
            ) && p.x.below(edge) ==> across.truncated() < first,
    ensures
        !stand(foot, instance).x.below(edge),
{
    let g = lemma_grounds(math, item, layer, layer_idx, params, i, instance);
    lemma_stand(
        math,
        foot,
        girth,
        layer,
        layer_idx,
        params,
        i,
        Vec3 { x: g.spot.x, y: g.spot.y, z: g.z },
        g.size,
        instance,
    );
    let zero = Scalar { bits: ZERO };
    let map = item.splatmaps@[(layer.surface_layer / 4) as int]@;
    if map.dims@[0] != 0 && map.dims@[1] != 0 && g.spot.x.below(edge) {
        let (gx, gy) = lemma_weight_is_a_byte(
            math,
            item,
            g.at.x,
            g.at.y,
            layer.surface_layer,
            g.weight,
        );
        let (x, y) = (
            crate::detail::texel_at(gx.larger(zero), map.dims@[0]),
            crate::detail::texel_at(gy.larger(zero), map.dims@[1]),
        );
        lemma_texel(gx, map.dims@[0]);
        lemma_texel(gy, map.dims@[1]);
        assert(x < first);
        let at = (y * map.dims@[0] + x) * 4 + (layer.surface_layer % 4) as int;
        if at < map.rgba.len() {
            assert(map.rgba[at] == 0);
        }
        lemma_no_weight();
    }
}

/// Nothing grows on unpainted ground along Y: where the rows of a splatmap before
/// `first` are unpainted for the surface layer of a detail layer, and points before
/// `edge` lie in those rows, no instance stands before `edge`.
pub proof fn unpainted_rows_stay_empty<M: ScatterMath>(
    math: &M,
    item: &TerrainItem,
    foot: spec_fn(Transform) -> Vec3,
    girth: spec_fn(Transform) -> Scalar,
    layer: DetailLayer,
    layer_idx: usize,
    params: DetailScatterParams,
    i: u32,
    instance: Instance,
    first: int,
    edge: Scalar,
)
    requires
        puts(math, foot, girth),
        crate::detail::yields(math, item, layer, layer_idx, params, i, Some(instance)),
        (Scalar { bits: ZERO }).below(layer.weight_threshold),
        layer.surface_layer < 8,
        rows_unpainted(
            item.splatmaps@[(layer.surface_layer / 4) as int]@,
            (layer.surface_layer % 4) as int,
            first,
        ),
        forall|u: Scalar, v: Scalar, p: Vec2, across: Scalar| #[trigger]
            call_ensures(M::spot, (math, item.placement(), u, v), p) && #[trigger] call_ensures(
                M::stretch,
                (
                    math,
                    v.limited(Scalar { bits: ZERO }, Scalar { bits: ONE }),
                    item.splatmaps@[(layer.surface_layer / 4) as int]@.dims@[1],
                ),
                across,
            ) && p.y.below(edge) ==> across.truncated() < first,
    ensures
        !stand(foot, instance).y.below(edge),
{
    let g = lemma_grounds(math, item, layer, layer_idx, params, i, instance);
    lemma_stand(
        math,
        foot,
        girth,
        layer,
        layer_idx,
        params,
        i,
        Vec3 { x: g.spot.x, y: g.spot.y, z: g.z },
        g.size,
        instance,
    );
    let zero = Scalar { bits: ZERO };
    let map = item.splatmaps@[(layer.surface_layer / 4) as int]@;
    if map.dims@[0] != 0 && map.dims@[1] != 0 && g.spot.y.below(edge) {
        let (gx, gy) = lemma_weight_is_a_byte(
            math,
            item,
            g.at.x,
            g.at.y,
            layer.surface_layer,
            g.weight,
        );
        let (x, y) = (
            crate::detail::texel_at(gx.larger(zero), map.dims@[0]),
            crate::detail::texel_at(gy.larger(zero), map.dims@[1]),
        );
        lemma_texel(gx, map.dims@[0]);
        lemma_texel(gy, map.dims@[1]);
        assert(y < first);
        let at = (y * map.dims@[0] + x) * 4 + (layer.surface_layer % 4) as int;
        if at < map.rgba.len() {
            assert(map.rgba[at] == 0);
        }
        lemma_no_weight();
    }
}

proof fn lemma_no_weight()
    ensures
        crate::scalar::over_255(0) == (Scalar { bits: ZERO }),
{
}

proof fn lemma_weight_is_a_byte<M: ScatterMath>(
    math: &M,
    item: &TerrainItem,
    u: Scalar,
    v: Scalar,
    layer: usize,
    weight: Scalar,
) -> (across: (Scalar, Scalar))
    requires
        crate::detail::is_splat_weight(math, item, u, v, layer, weight),
        layer < 8,
        item.splatmaps@[(layer / 4) as int]@.dims@[0] >= 1,
        item.splatmaps@[(layer / 4) as int]@.dims@[1] >= 1,
    ensures
        ({
            let zero = Scalar { bits: ZERO };
            let one = Scalar { bits: ONE };
            let map = item.splatmaps@[(layer / 4) as int]@;
            let x = crate::detail::texel_at(across.0.larger(zero), map.dims@[0]);
            let y = crate::detail::texel_at(across.1.larger(zero), map.dims@[1]);
            let at = (y * map.dims@[0] + x) * 4 + (layer % 4) as int;
            &&& call_ensures(M::stretch, (math, u.limited(zero, one), map.dims@[0]), across.0)
            &&& call_ensures(M::stretch, (math, v.limited(zero, one), map.dims@[1]), across.1)
            &&& 0 <= at
            &&& weight == if at < map.rgba.len() {
                crate::scalar::over_255(map.rgba[at])
            } else {
                zero
            }
        }),
{
    let zero = Scalar { bits: ZERO };
    let one = Scalar { bits: ONE };
    let map = item.splatmaps@[(layer / 4) as int]@;
    let (gx, gy) = choose|gx: Scalar, gy: Scalar|
        {
            &&& #[trigger] call_ensures(
                M::stretch,
                (math, u.limited(zero, one), map.dims@[0]),
                gx,
            )
            &&& #[trigger] call_ensures(
                M::stretch,
                (math, v.limited(zero, one), map.dims@[1]),
                gy,
            )
            &&& crate::detail::is_texel_weight(
                map,
                (layer % 4) as int,
                gx.larger(zero),
                gy.larger(zero),
                weight,
            )
        };
    lemma_texel(gx, map.dims@[0]);
    lemma_texel(gy, map.dims@[1]);
    let x = crate::detail::texel_at(gx.larger(zero), map.dims@[0]);
    let y = crate::detail::texel_at(gy.larger(zero), map.dims@[1]);
    assert(0 <= y * map.dims@[0]) by (nonlinear_arith)
        requires
            0 <= y,
    ;
    (gx, gy)
}

/// Whether `over_x` and `over_y` tell above which parts of a terrain, from 0 to 1 along
/// either axis, points of the world lie.
pub open spec fn lies_over<M: ScatterMath>(
    math: &M,
    item: &TerrainItem,
    over_x: spec_fn(Scalar, Scalar) -> bool,
    over_y: spec_fn(Scalar, Scalar) -> bool,
) -> bool {
    forall|u: Scalar, v: Scalar, p: Vec2| #[trigger]
        call_ensures(M::spot, (math, item.placement(), u, v), p) ==> over_x(u, p.x) && over_y(
            v,
            p.y,
        )
}

/// An instance stands only where its surface layer is painted: at the texel of the
/// splatmap below the very point, in the column below its position along X and the
/// row below its position along Y, the weight of the layer is not below the threshold.
/// The results are the parts of the terrain below the instance, and the positions
/// there across the texels.
pub proof fn instances_stand_on_their_own_layer<M: ScatterMath>(
    math: &M,
    item: &TerrainItem,
    foot: spec_fn(Transform) -> Vec3,
    girth: spec_fn(Transform) -> Scalar,
    over_x: spec_fn(Scalar, Scalar) -> bool,
    over_y: spec_fn(Scalar, Scalar) -> bool,
    layer: DetailLayer,
    layer_idx: usize,
    params: DetailScatterParams,
    i: u32,
    instance: Instance,
) -> (below: (Scalar, Scalar, Scalar, Scalar))
    requires
        puts(math, foot, girth),
        lies_over(math, item, over_x, over_y),
        crate::detail::yields(math, item, layer, layer_idx, params, i, Some(instance)),
        layer.surface_layer < 8,
        item.splatmaps@[(layer.surface_layer / 4) as int]@.dims@[0] >= 1,
        item.splatmaps@[(layer.surface_layer / 4) as int]@.dims@[1] >= 1,
    ensures
        over_x(below.0, stand(foot, instance).x),
        over_y(below.1, stand(foot, instance).y),
        ({
            let zero = Scalar { bits: ZERO };
            let one = Scalar { bits: ONE };
            let map = item.splatmaps@[(layer.surface_layer / 4) as int]@;
            let (w, h) = (map.dims@[0] as int, map.dims@[1] as int);
            let x = if below.2.truncated() < w {
                below.2.truncated()
            } else {
                w - 1
            };
            let y = if below.3.truncated() < h {
                below.3.truncated()
            } else {
                h - 1
            };
            let at = (y * w + x) * 4 + layer.surface_layer % 4;
            &&& call_ensures(
                M::stretch,
                (math, below.0.limited(zero, one), map.dims@[0]),
                below.2,
            )
            &&& call_ensures(
                M::stretch,
                (math, below.1.limited(zero, one), map.dims@[1]),
                below.3,
            )
            &&& !(if at < map.rgba.len() {
                crate::scalar::over_255(map.rgba[at])
            } else {
                zero
            }).below(layer.weight_threshold)
        }),
{
    let g = lemma_grounds(math, item, layer, layer_idx, params, i, instance);
    let position = Vec3 { x: g.spot.x, y: g.spot.y, z: g.z };
    lemma_stand(
        math,
        foot,
        girth,
        layer,
        layer_idx,
        params,
        i,
        position,
        g.size,
        instance,
    );
    let map = item.splatmaps@[(layer.surface_layer / 4) as int]@;
    let (gx, gy) = lemma_weight_is_a_byte(
        math,
        item,
        g.at.x,
        g.at.y,
        layer.surface_layer,
        g.weight,
    );
    lemma_texel(gx, map.dims@[0]);
    lemma_texel(gy, map.dims@[1]);
    (g.at.x, g.at.y, gx, gy)
}

/// Nothing is scattered beyond the footprint: an instance stands within the maximum
/// distance of its layer from the camera. `within` tells which points do.
pub proof fn instances_stand_within_the_footprint<M: ScatterMath>(
    math: &M,
    item: &TerrainItem,
    foot: spec_fn(Transform) -> Vec3,
    girth: spec_fn(Transform) -> Scalar,
    within: spec_fn(Scalar, Scalar) -> bool,
    layer: DetailLayer,
    layer_idx: usize,
    params: DetailScatterParams,
    i: u32,
    instance: Instance,
)
    requires
        puts(math, foot, girth),
        crate::detail::yields(math, item, layer, layer_idx, params, i, Some(instance)),
        forall|p: Vec2, away: Scalar, limit: Scalar| #[trigger]
            call_ensures(M::ground_distance_squared, (math, p, params.camera_xy), away)
                && #[trigger] call_ensures(M::square, (math, layer.max_distance), limit)
                && !limit.below(away) ==> within(p.x, p.y),
    ensures
        within(stand(foot, instance).x, stand(foot, instance).y),
{
    let g = lemma_grounds(math, item, layer, layer_idx, params, i, instance);
    let position = Vec3 { x: g.spot.x, y: g.spot.y, z: g.z };
    lemma_stand(
        math,
        foot,
        girth,
        layer,
        layer_idx,
        params,
        i,
        position,
        g.size,
        instance,
    );
}

/// What an instance stands on: the point of the terrain below it as parts from 0 to 1,
/// the same point counted in samples, the height of the surface there and its height
/// in the world.
pub struct Footing {
    pub u: Scalar,
    pub v: Scalar,
    pub fx: Scalar,
    pub fy: Scalar,
    pub height: Scalar,
    pub z: Scalar,
}

/// Whether `inner` tells, for either axis, how many samples along a part of a terrain
/// is.
pub open spec fn counts_samples<M: ScatterMath>(
    math: &M,
    count: u32,
    inner: spec_fn(Scalar, Scalar) -> bool,
) -> bool {
    let zero = Scalar { bits: ZERO };
    let one = Scalar { bits: ONE };
    forall|u: Scalar, across: Scalar, limit: Scalar| #[trigger]
        call_ensures(M::stretch, (math, u.limited(zero, one), count), across)
            && #[trigger] call_ensures(M::inner_limit, (math, count), limit) ==> inner(
            u,
            across.limited(zero, limit),
        )
}

/// An instance stands on the surface: its height in the world is the origin of the
/// terrain plus the height of the surface below its own point, between the four samples
/// around that point. A mesh stands there with its foot, a sprite with its base.
pub proof fn instances_stand_on_the_surface<M: ScatterMath>(
    math: &M,
    item: &TerrainItem,
    foot: spec_fn(Transform) -> Vec3,
    girth: spec_fn(Transform) -> Scalar,
    over_x: spec_fn(Scalar, Scalar) -> bool,
    over_y: spec_fn(Scalar, Scalar) -> bool,
    inner_x: spec_fn(Scalar, Scalar) -> bool,
    inner_y: spec_fn(Scalar, Scalar) -> bool,
    between: spec_fn(CornerSamples, u32, u32, Scalar, Scalar, Scalar) -> bool,
    raised: spec_fn(Scalar, Scalar) -> bool,
    lifted: spec_fn(Scalar, Scalar, Scalar) -> bool,
    layer: DetailLayer,
    layer_idx: usize,
    params: DetailScatterParams,
    i: u32,
    instance: Instance,
) -> (on: Footing)
    requires
        puts(math, foot, girth),
        lies_over(math, item, over_x, over_y),
        counts_samples(math, item.dims@[0], inner_x),
        counts_samples(math, item.dims@[1], inner_y),
        forall|column: u32, row: u32, s: CornerSamples, fx: Scalar, fy: Scalar, h: Scalar|
            #[trigger] call_ensures(
                M::ground,
                (math, item.placement(), column, row, s, fx, fy),
                h,
            ) ==> between(s, column, row, fx, fy, h),
        forall|h: Scalar, z: Scalar| #[trigger]
            call_ensures(M::sum, (math, item.origin.z, h), z) ==> raised(h, z),
        forall|z: Scalar, size: Scalar, centre: Scalar| #[trigger]
            call_ensures(M::lift, (math, z, size), centre) ==> lifted(z, size, centre),
        item.dims@[0] >= 1,
        item.dims@[1] >= 1,
        crate::detail::yields(math, item, layer, layer_idx, params, i, Some(instance)),
    ensures
        over_x(on.u, stand(foot, instance).x),
        over_y(on.v, stand(foot, instance).y),
        inner_x(on.u, on.fx),
        inner_y(on.v, on.fy),
        ({
            let (w, h) = (item.dims@[0] as int, item.dims@[1] as int);
            let (x, y) = (on.fx.truncated(), on.fy.truncated());
            let column = if x < w {
                x
            } else {
                w - 1
            };
            let next_column = if x + 1 < w {
                x + 1
            } else {
                w - 1
            };
            let row = if y < h {
                y
            } else {
                h - 1
            };
            let next_row = if y + 1 < h {
                y + 1
            } else {
                h - 1
            };
            between(
                CornerSamples {
                    s00: item.samples()[row * w + column],
                    s10: item.samples()[row * w + next_column],
                    s01: item.samples()[next_row * w + column],
                    s11: item.samples()[next_row * w + next_column],
                },
                x as u32,
                y as u32,
                on.fx,
                on.fy,
                on.height,
            )
        }),
        raised(on.height, on.z),
        instance is Mesh ==> stand(foot, instance).z == on.z,
        instance is Sprite ==> lifted(
            on.z,
            size_of(girth, instance),
            stand(foot, instance).z,
        ),
{
    let g = lemma_grounds(math, item, layer, layer_idx, params, i, instance);
    let position = Vec3 { x: g.spot.x, y: g.spot.y, z: g.z };
    lemma_stand(
        math,
        foot,
        girth,
        layer,
        layer_idx,
        params,
        i,
        position,
        g.size,
        instance,
    );
    let (fx, fy) = choose|fx: Scalar, fy: Scalar|
        {
            &&& #[trigger] crate::detail::is_inner(math, g.at.x, item.dims@[0], fx)
            &&& #[trigger] crate::detail::is_inner(math, g.at.y, item.dims@[1], fy)
            &&& crate::detail::reads_at(math, item, fx, fy, g.height)
        };
    if !fx.nan() {
        crate::scalar::truncation_keeps_the_order(fx, fx);
    }
    if !fy.nan() {
        crate::scalar::truncation_keeps_the_order(fy, fy);
    }
    Footing { u: g.at.x, v: g.at.y, fx, fy, height: g.height, z: g.z }
}

/// Trees near the camera are meshes and the others sprites, billboards are sprites and
/// meshes are meshes: `close` tells which points are nearer to the camera than the
/// switch distance. The result is the point on which a tree stands.
pub proof fn near_trees_are_meshes<M: ScatterMath>(
    math: &M,
    item: &TerrainItem,
    foot: spec_fn(Transform) -> Vec3,
    girth: spec_fn(Transform) -> Scalar,
    close: spec_fn(Vec3) -> bool,
    lifted: spec_fn(Scalar, Scalar, Scalar) -> bool,
    layer: DetailLayer,
    layer_idx: usize,
    params: DetailScatterParams,
    i: u32,
    instance: Instance,
) -> (base: Vec3)
    requires
        puts(math, foot, girth),
        crate::detail::yields(math, item, layer, layer_idx, params, i, Some(instance)),
        layer.kind matches DetailKind::TreeLod { switch_distance, .. } ==> forall|
            p: Vec3,
            camera: Vec3,
            near: Scalar,
            limit: Scalar,
        |
            #[trigger] call_ensures(M::distance_squared, (math, p, camera), near)
                && #[trigger] call_ensures(M::square, (math, switch_distance), limit)
                && camera.x == params.camera_xy.x && camera.y == params.camera_xy.y && camera.z
                == params.camera_z ==> near.below(limit) == close(p),
        forall|z: Scalar, size: Scalar, centre: Scalar| #[trigger]
            call_ensures(M::lift, (math, z, size), centre) ==> lifted(z, size, centre),
    ensures
        layer.kind is Billboard ==> instance is Sprite,
        layer.kind is Mesh ==> instance is Mesh,
        layer.kind is TreeLod ==> (instance is Mesh <==> close(base)),
        stand(foot, instance).x == base.x,
        stand(foot, instance).y == base.y,
        instance is Mesh ==> stand(foot, instance).z == base.z,
        instance is Sprite ==> lifted(
            base.z,
            size_of(girth, instance),
            stand(foot, instance).z,
        ),
{
    let g = lemma_grounds(math, item, layer, layer_idx, params, i, instance);
    let position = Vec3 { x: g.spot.x, y: g.spot.y, z: g.z };
    lemma_stand(
        math,
        foot,
        girth,
        layer,
        layer_idx,
        params,
        i,
        position,
        g.size,
        instance,
    );
    position
}

/// The size of an instance is that of its layer, varied by a random number that is at
/// least 0 and below 1 as far as the jitter of the layer goes. `sized` tells which sizes
/// come of that.
pub proof fn instances_are_sized_by_their_layer<M: ScatterMath>(
    math: &M,
    item: &TerrainItem,
    foot: spec_fn(Transform) -> Vec3,
    girth: spec_fn(Transform) -> Scalar,
    sized: spec_fn(Scalar) -> bool,
    layer: DetailLayer,
    layer_idx: usize,
    params: DetailScatterParams,
    i: u32,
    instance: Instance,
)
    requires
        puts(math, foot, girth),
        crate::detail::yields(math, item, layer, layer_idx, params, i, Some(instance)),
        forall|random: Scalar, size: Scalar| #[trigger]
            call_ensures(M::vary, (math, layer.size, layer.size_jitter, random), size)
                && !random.nan() && 0 <= random.scaled() < (Scalar { bits: ONE }).scaled()
                ==> sized(size),
    ensures
        sized(size_of(girth, instance)),
{
    let g = lemma_grounds(math, item, layer, layer_idx, params, i, instance);
    lemma_stand(
        math,
        foot,
        girth,
        layer,
        layer_idx,
        params,
        i,
        Vec3 { x: g.spot.x, y: g.spot.y, z: g.z },
        g.size,
        instance,
    );
    crate::scalar::zero_is_below_one();
    assert((Scalar { bits: ZERO }).scaled() == 0);
    crate::detail::hash_lies_from_zero_to_one(
        i as i32,
        layer_idx as i32,
        crate::detail::layer_seed(layer_idx) ^ crate::detail::SIZE_SALT,
        g.random,
    );
}

/// Fully painted ground within reach is covered: where every texel of the surface layer
/// is painted in full, every spot is within reach and the share of such a weight above
/// the threshold is no less than one, every sample yields an instance.
pub proof fn painted_ground_is_covered<M: ScatterMath>(
    math: &M,
    item: &TerrainItem,
    layer: DetailLayer,
    layer_idx: usize,
    params: DetailScatterParams,
    i: u32,
    found: Option<Instance>,
)
    requires
        crate::detail::yields(math, item, layer, layer_idx, params, i, found),
        layer.surface_layer < 8,
        ({
            let map = item.splatmaps@[(layer.surface_layer / 4) as int]@;
            &&& map.dims@[0] >= 1 && map.dims@[1] >= 1
            &&& map.rgba.len() == 4 * (map.dims@[0] * map.dims@[1])
            &&& forall|k: int|
                0 <= k < map.rgba.len() && k % 4 == layer.surface_layer % 4
                    ==> #[trigger] map.rgba[k] == 255
        }),
        !crate::scalar::over_255(255).below(layer.weight_threshold),
        forall|p: Vec2, away: Scalar, limit: Scalar| #[trigger]
            call_ensures(M::ground_distance_squared, (math, p, params.camera_xy), away)
                && #[trigger] call_ensures(M::square, (math, layer.max_distance), limit)
                ==> !limit.below(away),
        forall|headroom: Scalar, above: Scalar, share: Scalar, least: Scalar| #[trigger]
            call_ensures(
                M::difference,
                (math, Scalar { bits: ONE }, layer.weight_threshold),
                headroom,
            ) && #[trigger] call_ensures(
                M::difference,
                (math, crate::scalar::over_255(255), layer.weight_threshold),
                above,
            ) && #[trigger] call_ensures(M::quotient, (math, above, least), share) && least
                == headroom.larger(Scalar { bits: 0x38D1_B717 }) ==> !share.below(
                Scalar { bits: ONE },
            ),
    ensures
        found is Some,
{
    let reached = choose|reached: bool| #[trigger]
        crate::detail::takes(math, item, layer, layer_idx, params, i, reached, found);
    let (at, spot) = choose|at: Vec2, spot: Vec2|
        {
            &&& #[trigger] crate::detail::is_spot(math, item, i, at, spot)
            &&& crate::detail::reaches(math, layer, params, spot, reached)
            &&& if reached {
                crate::detail::yields_on(
                    math,
                    item,
                    layer,
                    layer_idx,
                    params,
                    i,
                    spot,
                    at,
                    found,
                )
            } else {
                found is None
            }
        };
    assert(reached);
    let weight = choose|weight: Scalar|
        {
            &&& #[trigger] crate::detail::is_splat_weight(
                math,
                item,
                at.x,
                at.y,
                layer.surface_layer,
                weight,
            )
            &&& if weight.below(layer.weight_threshold) {
                found is None
            } else {
                exists|random: Scalar, accepted: bool|
                    {
                        &&& #[trigger] crate::detail::is_random(
                            layer_idx,
                            i,
                            crate::detail::ACCEPT_SALT,
                            random,
                        )
                        &&& #[trigger] crate::detail::accepts(
                            math,
                            layer.weight_threshold,
                            weight,
                            random,
                            accepted,
                        )
                        &&& accepted ==> found is Some
                    }
            }
        };
    lemma_full_weight(math, item, at.x, at.y, layer.surface_layer, weight);
    let (random, accepted) = choose|random: Scalar, accepted: bool|
        {
            &&& #[trigger] crate::detail::is_random(
                layer_idx,
                i,
                crate::detail::ACCEPT_SALT,
                random,
            )
            &&& #[trigger] crate::detail::accepts(
                math,
                layer.weight_threshold,
                weight,
                random,
                accepted,
            )
            &&& accepted ==> found is Some
        };
    crate::detail::hash_lies_from_zero_to_one(
        i as i32,
        layer_idx as i32,
        crate::detail::layer_seed(layer_idx) ^ crate::detail::ACCEPT_SALT,
        random,
    );
    lemma_full_share(math, layer.weight_threshold, weight, random, accepted);
}

proof fn lemma_full_weight<M: ScatterMath>(
    math: &M,
    item: &TerrainItem,
    u: Scalar,
    v: Scalar,
    layer: usize,
    weight: Scalar,
)
    requires
        crate::detail::is_splat_weight(math, item, u, v, layer, weight),
        layer < 8,
        ({
            let map = item.splatmaps@[(layer / 4) as int]@;
            &&& map.dims@[0] >= 1 && map.dims@[1] >= 1
            &&& map.rgba.len() == 4 * (map.dims@[0] * map.dims@[1])
            &&& forall|k: int|
                0 <= k < map.rgba.len() && k % 4 == layer % 4 ==> #[trigger] map.rgba[k] == 255
        }),
    ensures
        weight == crate::scalar::over_255(255),
{
    let zero = Scalar { bits: ZERO };
    let map = item.splatmaps@[(layer / 4) as int]@;
    let (gx, gy) = lemma_weight_is_a_byte(math, item, u, v, layer, weight);
    lemma_texel(gx, map.dims@[0]);
    lemma_texel(gy, map.dims@[1]);
    let (w, h) = (map.dims@[0] as int, map.dims@[1] as int);
    let x = crate::detail::texel_at(gx.larger(zero), map.dims@[0]);
    let y = crate::detail::texel_at(gy.larger(zero), map.dims@[1]);
    assert(0 <= y * w + x < w * h) by (nonlinear_arith)
        requires
            0 <= x < w,
            0 <= y < h,
    ;
    let at = (y * w + x) * 4 + (layer % 4) as int;
    assert(at % 4 == layer % 4);
    assert(map.rgba[at] == 255);
}

proof fn lemma_full_share<M: ScatterMath>(
    math: &M,
    threshold: Scalar,
    weight: Scalar,
    random: Scalar,
    accepted: bool,
)
    requires
        crate::detail::accepts(math, threshold, weight, random, accepted),
        random.below(Scalar { bits: ONE }),
        forall|headroom: Scalar, above: Scalar, share: Scalar, least: Scalar| #[trigger]
            call_ensures(
                M::difference,
                (math, Scalar { bits: ONE }, threshold),
                headroom,
            ) && #[trigger] call_ensures(M::difference, (math, weight, threshold), above)
                && #[trigger] call_ensures(M::quotient, (math, above, least), share) && least
                == headroom.larger(Scalar { bits: 0x38D1_B717 }) ==> !share.below(
                Scalar { bits: ONE },
            ),
    ensures
        accepted,
{
    let zero = Scalar { bits: ZERO };
    let one = Scalar { bits: ONE };
    crate::scalar::zero_is_below_one();
    let least = Scalar { bits: crate::detail::LEAST_HEADROOM };
    let (headroom, above, share) = choose|headroom: Scalar, above: Scalar, share: Scalar|
        {
            &&& #[trigger] call_ensures(M::difference, (math, one, threshold), headroom)
            &&& #[trigger] call_ensures(M::difference, (math, weight, threshold), above)
            &&& #[trigger] call_ensures(
                M::quotient,
                (math, above, headroom.larger(least)),
                share,
            )
            &&& accepted == !share.limited(zero, one).below(random)
        };
    assert(!share.below(one));
}

/// The chance that a sample is taken is the share of its weight above the threshold:
/// with the random number `random` it is taken exactly where that is no more than the
/// share.
pub proof fn the_chance_is_the_share_above_the_threshold<M: ScatterMath>(
    math: &M,
    threshold: Scalar,
    weight: Scalar,
    random: Scalar,
    share: Scalar,
    accepted: bool,
)
    requires
        crate::detail::accepts(math, threshold, weight, random, accepted),
        !random.nan(),
        !share.nan(),
        0 <= share.scaled() <= (Scalar { bits: ONE }).scaled(),
        forall|headroom: Scalar, above: Scalar, part: Scalar, least: Scalar| #[trigger]
            call_ensures(
                M::difference,
                (math, Scalar { bits: ONE }, threshold),
                headroom,
            ) && #[trigger] call_ensures(M::difference, (math, weight, threshold), above)
                && #[trigger] call_ensures(M::quotient, (math, above, least), part) && least
                == headroom.larger(Scalar { bits: 0x38D1_B717 }) ==> part == share,
    ensures
        accepted == (random.scaled() <= share.scaled()),
{
    let zero = Scalar { bits: ZERO };
    let one = Scalar { bits: ONE };
    crate::scalar::zero_is_below_one();
    assert(zero.scaled() == 0);
    let least = Scalar { bits: crate::detail::LEAST_HEADROOM };
    let (headroom, above, part) = choose|headroom: Scalar, above: Scalar, part: Scalar|
        {
            &&& #[trigger] call_ensures(M::difference, (math, one, threshold), headroom)
            &&& #[trigger] call_ensures(M::difference, (math, weight, threshold), above)
            &&& #[trigger] call_ensures(
                M::quotient,
                (math, above, headroom.larger(least)),
                part,
            )
            &&& accepted == !part.limited(zero, one).below(random)
        };
    assert(part == share);
    assert(share.limited(zero, one) == share);
}

proof fn lemma_sprite_has_its_sample(samples: Seq<Option<Instance>>, count: int, k: int) -> (i: int)
    requires
        0 <= count <= samples.len(),
        0 <= k < crate::detail::sprite_positions(samples, count).len(),
    ensures
        0 <= i < count,
        crate::detail::sprite_sizes(samples, count).len() == crate::detail::sprite_positions(
            samples,
            count,
        ).len(),
        samples[i] == Some(
            Instance::Sprite {
                position: crate::detail::sprite_positions(samples, count)[k],
                size: crate::detail::sprite_sizes(samples, count)[k],
            },
        ),
    decreases count,
{
    crate::detail::every_instance_is_in_one_batch(samples, count);
    crate::detail::every_instance_is_in_one_batch(samples, count - 1);
    let earlier = crate::detail::sprite_positions(samples, count - 1);
    if k < earlier.len() {
        lemma_sprite_has_its_sample(samples, count - 1, k)
    } else {
        count - 1
    }
}

/// The instances of a layer are in the order of its samples: of two sprites the one further
/// on comes from a later sample. The results are the two samples.
pub proof fn sprites_are_in_the_order_of_their_samples(
    instances: crate::detail::LayerInstances,
    samples: Seq<Option<Instance>>,
    j: int,
    k: int,
) -> (from: (int, int))
    requires
        instances.gathers(samples),
        0 <= j < k < instances.positions@.len(),
    ensures
        0 <= from.0 < from.1 < samples.len(),
        instances.sizes@.len() == instances.positions@.len(),
        samples[from.0] == Some(
            Instance::Sprite {
                position: instances.positions@[j],
                size: instances.sizes@[j],
            },
        ),
        samples[from.1] == Some(
            Instance::Sprite {
                position: instances.positions@[k],
                size: instances.sizes@[k],
            },
        ),
{
    crate::detail::every_instance_is_in_one_batch(samples, samples.len() as int);
    lemma_two_sprites(samples, samples.len() as int, j, k)
}

proof fn lemma_two_sprites(
    samples: Seq<Option<Instance>>,
    count: int,
    j: int,
    k: int,
) -> (from: (int, int))
    requires
        0 <= count <= samples.len(),
        0 <= j < k < crate::detail::sprite_positions(samples, count).len(),
    ensures
        0 <= from.0 < from.1 < count,
        samples[from.0] == Some(
            Instance::Sprite {
                position: crate::detail::sprite_positions(samples, count)[j],
                size: crate::detail::sprite_sizes(samples, count)[j],
            },
        ),
        samples[from.1] == Some(
            Instance::Sprite {
                position: crate::detail::sprite_positions(samples, count)[k],
                size: crate::detail::sprite_sizes(samples, count)[k],
            },
        ),
    decreases count,
{
    crate::detail::every_instance_is_in_one_batch(samples, count);
    crate::detail::every_instance_is_in_one_batch(samples, count - 1);
    let earlier = crate::detail::sprite_positions(samples, count - 1);
    if k < earlier.len() {
        lemma_two_sprites(samples, count - 1, j, k)
    } else {
        let i = lemma_sprite_has_its_sample(samples, count - 1, j);
        (i, count - 1)
    }
}

proof fn lemma_mesh_has_its_sample(samples: Seq<Option<Instance>>, count: int, k: int) -> (i: int)
    requires
        0 <= count <= samples.len(),
        0 <= k < crate::detail::mesh_transforms(samples, count).len(),
    ensures
        0 <= i < count,
        samples[i] == Some(
            Instance::Mesh { transform: crate::detail::mesh_transforms(samples, count)[k] },
        ),
    decreases count,
{
    let earlier = crate::detail::mesh_transforms(samples, count - 1);
    if k < earlier.len() {
        lemma_mesh_has_its_sample(samples, count - 1, k)
    } else {
        count - 1
    }
}

proof fn lemma_sample_yields<M: ScatterMath>(
    math: &M,
    item: &TerrainItem,
    layer: DetailLayer,
    layer_idx: usize,
    params: DetailScatterParams,
    samples: Seq<Option<Instance>>,
    i: int,
)
    requires
        crate::detail::samples_layer(math, item, layer, layer_idx, params, samples),
        0 <= i < samples.len(),
    ensures
        crate::detail::yields(math, item, layer, layer_idx, params, i as u32, samples[i]),
{
    let (total, reached) = choose|total: int, reached: Seq<bool>|
        {
            &&& #[trigger] crate::detail::is_total(math, item, layer, total)
            &&& #[trigger] crate::detail::runs(
                math,
                item,
                layer,
                layer_idx,
                params,
                total,
                reached,
                samples,
            )
        };
    assert(crate::detail::takes(
        math,
        item,
        layer,
        layer_idx,
        params,
        i as u32,
        reached[i],
        samples[i],
    ));
}

/// Every sprite of a scatter comes from a sample of a layer that has sprites, and its
/// batch has the texture, the tint and the size of that layer: that of the billboard, or
/// of the impostor of a tree. The results are the layer and the sample.
pub proof fn sprites_come_from_samples<M: ScatterMath>(
    math: &M,
    item: &TerrainItem,
    layers: Seq<DetailLayer>,
    params: DetailScatterParams,
    samples: Seq<Seq<Option<Instance>>>,
    stages: Seq<DetailScatterOutput>,
    count: int,
    b: int,
    k: int,
) -> (from: (int, int))
    requires
        crate::detail::scatters(math, item, layers, params, samples, stages),
        0 <= count <= layers.len() <= usize::MAX,
        0 <= b < stages[count].sprites@.len(),
        0 <= k < stages[count].sprites@[b].positions@.len(),
    ensures
        0 <= from.0 < count,
        0 <= from.1 < samples[from.0].len(),
        ({
            let batch = stages[count].sprites@[b];
            let layer = layers[from.0];
            &&& batch.sizes@.len() == batch.positions@.len()
            &&& crate::detail::yields(
                math,
                item,
                layer,
                from.0 as usize,
                params,
                from.1 as u32,
                Some(Instance::Sprite { position: batch.positions@[k], size: batch.sizes@[k] }),
            )
            &&& match layer.kind {
                DetailKind::Billboard { texture_id, colour } => batch.texture_id == texture_id
                    && batch.default_colour == colour,
                DetailKind::Mesh { .. } => false,
                DetailKind::TreeLod { impostor_texture_id, colour, .. } => batch.texture_id
                    == impostor_texture_id && batch.default_colour == colour,
            }
            &&& batch.default_size == layer.size
            &&& batch.world_space && batch.depth_write && batch.alpha_blend
        }),
    decreases count,
{
    let l = count - 1;
    if count == 0 {
        (0, 0)
    } else {
        let (before, after) = (stages[l], stages[count]);
        let taken = samples[l];
        assert(crate::detail::adds_batches(layers[l], taken, before, after));
        if b < before.sprites@.len() {
            assert(after.sprites@[b] == before.sprites@[b]);
            sprites_come_from_samples(math, item, layers, params, samples, stages, l, b, k)
        } else {
            let i = lemma_sprite_has_its_sample(taken, taken.len() as int, k);
            lemma_sample_yields(math, item, layers[l], l as usize, params, taken, i);
            (l, i)
        }
    }
}

/// Every mesh instance of a scatter comes from a sample of a layer that has meshes, and
/// its batch has the mesh, the texture and the tint of that layer. The results are the
/// layer and the sample.
pub proof fn mesh_instances_come_from_samples<M: ScatterMath>(
    math: &M,
    item: &TerrainItem,
    layers: Seq<DetailLayer>,
    params: DetailScatterParams,
    samples: Seq<Seq<Option<Instance>>>,
    stages: Seq<DetailScatterOutput>,
    count: int,
    b: int,
    k: int,
) -> (from: (int, int))
    requires
        crate::detail::scatters(math, item, layers, params, samples, stages),
        0 <= count <= layers.len() <= usize::MAX,
        0 <= b < stages[count].mesh_instances@.len(),
        0 <= k < stages[count].mesh_instances@[b].transforms@.len(),
    ensures
        0 <= from.0 < count,
        0 <= from.1 < samples[from.0].len(),
        ({
            let batch = stages[count].mesh_instances@[b];
            let layer = layers[from.0];
            &&& batch.colours@.len() == batch.transforms@.len()
            &&& crate::detail::yields(
                math,
                item,
                layer,
                from.0 as usize,
                params,
                from.1 as u32,
                Some(Instance::Mesh { transform: batch.transforms@[k] }),
            )
            &&& match layer.kind {
                DetailKind::Billboard { .. } => false,
                DetailKind::Mesh { mesh_id, texture_id, colour } => batch.mesh_id == mesh_id
                    && batch.texture_id == texture_id && batch.colours@[k] == colour,
                DetailKind::TreeLod { mesh_id, mesh_texture_id, colour, .. } => batch.mesh_id
                    == mesh_id && batch.texture_id == mesh_texture_id && batch.colours@[k]
                    == colour,
            }
            &&& batch.alpha_blend
        }),
    decreases count,
{
    let l = count - 1;
    if count == 0 {
        (0, 0)
    } else {
        let (before, after) = (stages[l], stages[count]);
        let taken = samples[l];
        assert(crate::detail::adds_batches(layers[l], taken, before, after));
        if b < before.mesh_instances@.len() {
            assert(after.mesh_instances@[b] == before.mesh_instances@[b]);
            mesh_instances_come_from_samples(
                math,
                item,
                layers,
                params,
                samples,
                stages,
                l,
                b,
                k,
            )
        } else {
            let i = lemma_mesh_has_its_sample(taken, taken.len() as int, k);
            lemma_sample_yields(math, item, layers[l], l as usize, params, taken, i);
            (l, i)
        }
    }
}

proof fn lemma_sample_has_its_sprite(samples: Seq<Option<Instance>>, count: int, i: int) -> (k: int)
    requires
        0 <= i < count <= samples.len(),
        samples[i] matches Some(instance) && instance is Sprite,
    ensures
        0 <= k < crate::detail::sprite_positions(samples, count).len(),
        crate::detail::sprite_sizes(samples, count).len() == crate::detail::sprite_positions(
            samples,
            count,
        ).len(),
        samples[i] == Some(
            Instance::Sprite {
                position: crate::detail::sprite_positions(samples, count)[k],
                size: crate::detail::sprite_sizes(samples, count)[k],
            },
        ),
    decreases count,
{
    crate::detail::every_instance_is_in_one_batch(samples, count);
    crate::detail::every_instance_is_in_one_batch(samples, count - 1);
    if i < count - 1 {
        lemma_sample_has_its_sprite(samples, count - 1, i)
    } else {
        crate::detail::sprite_positions(samples, count).len() - 1
    }
}

proof fn lemma_sample_has_its_mesh(samples: Seq<Option<Instance>>, count: int, i: int) -> (k: int)
    requires
        0 <= i < count <= samples.len(),
        samples[i] matches Some(instance) && instance is Mesh,
    ensures
        0 <= k < crate::detail::mesh_transforms(samples, count).len(),
        samples[i] == Some(
            Instance::Mesh { transform: crate::detail::mesh_transforms(samples, count)[k] },
        ),
    decreases count,
{
    if i < count - 1 {
        lemma_sample_has_its_mesh(samples, count - 1, i)
    } else {
        crate::detail::mesh_transforms(samples, count).len() - 1
    }
}

/// Whether an instance is in a batch of an output.
pub open spec fn is_in(out: DetailScatterOutput, instance: Instance, b: int, k: int) -> bool {
    match instance {
        Instance::Sprite { position, size } => {
            &&& 0 <= b < out.sprites@.len()
            &&& 0 <= k < out.sprites@[b].positions@.len()
            &&& k < out.sprites@[b].sizes@.len()
            &&& out.sprites@[b].positions@[k] == position
            &&& out.sprites@[b].sizes@[k] == size
        },
        Instance::Mesh { transform } => {
            &&& 0 <= b < out.mesh_instances@.len()
            &&& 0 <= k < out.mesh_instances@[b].transforms@.len()
            &&& out.mesh_instances@[b].transforms@[k] == transform
        },
    }
}

/// No instance is lost: what a sample of a layer yields is in a batch of the output.
/// The results are the batch and the place in it.
pub proof fn every_instance_is_output<M: ScatterMath>(
    math: &M,
    item: &TerrainItem,
    layers: Seq<DetailLayer>,
    params: DetailScatterParams,
    samples: Seq<Seq<Option<Instance>>>,
    stages: Seq<DetailScatterOutput>,
    count: int,
    l: int,
    i: int,
) -> (at: (int, int))
    requires
        crate::detail::scatters(math, item, layers, params, samples, stages),
        0 <= l < count <= layers.len() <= usize::MAX,
        0 <= i < samples[l].len(),
        samples[l][i] is Some,
    ensures
        is_in(stages[count], samples[l][i]->0, at.0, at.1),
    decreases count,
{
    let last = count - 1;
    let (before, after) = (stages[last], stages[count]);
    assert(crate::detail::adds_batches(layers[last], samples[last], before, after));
    let instance = samples[l][i]->0;
    if l < last {
        let at = every_instance_is_output(
            math,
            item,
            layers,
            params,
            samples,
            stages,
            last,
            l,
            i,
        );
        if instance is Sprite {
            assert(after.sprites@[at.0] == before.sprites@[at.0]);
        } else {
            assert(after.mesh_instances@[at.0] == before.mesh_instances@[at.0]);
        }
        at
    } else {
        let taken = samples[l];
        lemma_sample_yields(math, item, layers[l], l as usize, params, taken, i);
        let g = lemma_grounds(
            math,
            item,
            layers[l],
            l as usize,
            params,
            i as u32,
            instance,
        );
        if instance is Sprite {
            let k = lemma_sample_has_its_sprite(taken, taken.len() as int, i);
            (after.sprites@.len() - 1, k)
        } else {
            let k = lemma_sample_has_its_mesh(taken, taken.len() as int, i);
            (after.mesh_instances@.len() - 1, k)
        }
    }
}

/// A new output holds nothing of an earlier one: no layers, no batches.
pub proof fn no_layers_leave_nothing<M: ScatterMath>(
    math: &M,
    item: &TerrainItem,
    params: DetailScatterParams,
    samples: Seq<Seq<Option<Instance>>>,
    stages: Seq<DetailScatterOutput>,
)
    requires
        crate::detail::scatters(math, item, Seq::empty(), params, samples, stages),
    ensures
        stages.last().sprites@.len() == 0,
        stages.last().mesh_instances@.len() == 0,
{
}

/// The instances of a layer follow the Halton sequence over the terrain: along X that of
/// the second base and along Y that of the third, from the first index on. The results
/// are the parts of the terrain below the instance.
pub proof fn instances_follow_the_halton_sequence<M: ScatterMath>(
    math: &M,
    item: &TerrainItem,
    foot: spec_fn(Transform) -> Vec3,
    girth: spec_fn(Transform) -> Scalar,
    over_x: spec_fn(Scalar, Scalar) -> bool,
    over_y: spec_fn(Scalar, Scalar) -> bool,
    halves: spec_fn(Scalar, nat) -> bool,
    thirds: spec_fn(Scalar, nat) -> bool,
    binary: spec_fn(Scalar, nat, nat) -> bool,
    ternary: spec_fn(Scalar, nat, nat) -> bool,
    layer: DetailLayer,
    layer_idx: usize,
    params: DetailScatterParams,
    i: u32,
    instance: Instance,
) -> (below: (Scalar, Scalar))
    requires
        puts(math, foot, girth),
        lies_over(math, item, over_x, over_y),
        crate::sampling::counts_digits(math, 2, halves, binary),
        crate::sampling::counts_digits(math, 3, thirds, ternary),
        i < u32::MAX,
        crate::detail::yields(math, item, layer, layer_idx, params, i, Some(instance)),
    ensures
        over_x(below.0, stand(foot, instance).x),
        over_y(below.1, stand(foot, instance).y),
        ({
            let (n, k) = crate::sampling::flipped(2, (i + 1) as nat, 0, 0);
            binary(below.0, n, k)
        }),
        ({
            let (n, k) = crate::sampling::flipped(3, (i + 1) as nat, 0, 0);
            ternary(below.1, n, k)
        }),
{
    let g = lemma_grounds(math, item, layer, layer_idx, params, i, instance);
    lemma_stand(
        math,
        foot,
        girth,
        layer,
        layer_idx,
        params,
        i,
        Vec3 { x: g.spot.x, y: g.spot.y, z: g.z },
        g.size,
        instance,
    );
    crate::sampling::halton_mirrors_the_index(
        math,
        2,
        halves,
        binary,
        (i + 1) as u32,
        g.at.x,
    );
    crate::sampling::halton_mirrors_the_index(
        math,
        3,
        thirds,
        ternary,
        (i + 1) as u32,
        g.at.y,
    );
    (g.at.x, g.at.y)
}

/// The bits that the sample `i` of a layer draws for a purpose.
pub open spec fn drawn(layer_idx: usize, i: u32, purpose: u32) -> u32 {
    let layer = layer_idx as i32 as u32;
    let seed = ((layer_idx as u32).wrapping_mul(2654435761)) ^ purpose;
    let a = (i as i32 as u32).wrapping_mul(0x9E37_79B1) ^ layer.wrapping_mul(0x85EB_CA77)
        ^ seed.wrapping_mul(0xC2B2_AE3D);
    let b = (a ^ (a >> 16u32)).wrapping_mul(0x7FEB_352D);
    let c = (b ^ (b >> 15u32)).wrapping_mul(0x846C_A68B);
    (c ^ (c >> 16u32)) & 0xFF_FFFF
}

/// Whether a number is that of 24 drawn bits, as a fraction of one.
pub open spec fn is_draw(number: Scalar, bits: u32) -> bool {
    !number.nan() && number.scaled() == bits * vstd::arithmetic::power2::pow2(125)
}

/// Each sample draws for itself: whether it is taken, its size and its turn go by
/// different numbers that depend on the sample and its layer alone. `sized` tells which
/// sizes a number leads to, `turned` which turns, and `won` with which numbers a sample
/// is taken: those that are no more than the share of its weight above the threshold.
/// The results are the three numbers.
pub proof fn samples_draw_for_themselves<M: ScatterMath>(
    math: &M,
    item: &TerrainItem,
    foot: spec_fn(Transform) -> Vec3,
    girth: spec_fn(Transform) -> Scalar,
    sized: spec_fn(Scalar, Scalar) -> bool,
    turned: spec_fn(Scalar, Transform) -> bool,
    won: spec_fn(Scalar) -> bool,
    layer: DetailLayer,
    layer_idx: usize,
    params: DetailScatterParams,
    i: u32,
    instance: Instance,
) -> (draws: (Scalar, Scalar, Scalar))
    requires
        puts(math, foot, girth),
        crate::detail::yields(math, item, layer, layer_idx, params, i, Some(instance)),
        forall|random: Scalar, size: Scalar| #[trigger]
            call_ensures(M::vary, (math, layer.size, layer.size_jitter, random), size) && is_draw(
                random,
                drawn(layer_idx, i, 0xB529_7A4D),
            ) ==> sized(random, size),
        forall|position: Vec3, scale: Scalar, random: Scalar, transform: Transform| #[trigger]
            call_ensures(M::placed, (math, position, scale, random), transform) && is_draw(
                random,
                drawn(layer_idx, i, 0x68E3_1DA4),
            ) ==> turned(random, transform),
        forall|
            weight: Scalar,
            headroom: Scalar,
            above: Scalar,
            part: Scalar,
            least: Scalar,
            luck: Scalar,
        |
            #![trigger call_ensures(
                M::difference,
                (math, Scalar { bits: ONE }, layer.weight_threshold),
                headroom,
            ), call_ensures(M::difference, (math, weight, layer.weight_threshold), above),
                call_ensures(M::quotient, (math, above, least), part), won(luck)]
            call_ensures(
                M::difference,
                (math, Scalar { bits: ONE }, layer.weight_threshold),
                headroom,
            ) && call_ensures(
                M::difference,
                (math, weight, layer.weight_threshold),
                above,
            ) && call_ensures(M::quotient, (math, above, least), part) && least
                == headroom.larger(Scalar { bits: 0x38D1_B717 }) && is_draw(
                luck,
                drawn(layer_idx, i, 0xA341_316C),
            ) && (part.nan() || luck.scaled() <= part.scaled() || luck.scaled() <= 0) ==> won(
                luck,
            ),
    ensures
        is_draw(draws.0, drawn(layer_idx, i, 0xA341_316C)),
        won(draws.0),
        is_draw(draws.1, drawn(layer_idx, i, 0xB529_7A4D)),
        sized(draws.1, size_of(girth, instance)),
        instance matches Instance::Mesh { transform } ==> is_draw(
            draws.2,
            drawn(layer_idx, i, 0x68E3_1DA4),
        ) && turned(draws.2, transform),
{
    let g = lemma_grounds(math, item, layer, layer_idx, params, i, instance);
    let position = Vec3 { x: g.spot.x, y: g.spot.y, z: g.z };
    lemma_stand(
        math,
        foot,
        girth,
        layer,
        layer_idx,
        params,
        i,
        position,
        g.size,
        instance,
    );
    assert(is_draw(g.random, drawn(layer_idx, i, 0xB529_7A4D)));
    assert(sized(g.random, g.size));
    assert(is_draw(g.luck, drawn(layer_idx, i, 0xA341_316C)));
    let zero = Scalar { bits: ZERO };
    let one = Scalar { bits: ONE };
    let least = Scalar { bits: crate::detail::LEAST_HEADROOM };
    assert(zero.scaled() == 0);
    crate::scalar::zero_is_below_one();
    let (headroom, above, part) = choose|headroom: Scalar, above: Scalar, part: Scalar|
        {
            &&& #[trigger] call_ensures(
                M::difference,
                (math, one, layer.weight_threshold),
                headroom,
            )
            &&& #[trigger] call_ensures(
                M::difference,
                (math, g.weight, layer.weight_threshold),
                above,
            )
            &&& #[trigger] call_ensures(
                M::quotient,
                (math, above, headroom.larger(least)),
                part,
            )
            &&& !part.limited(zero, one).below(g.luck)
        };
    assert(won(g.luck));
    let turn = if let Instance::Mesh { transform } = instance {
        choose|random: Scalar|
            {
                &&& #[trigger] crate::detail::is_random(
                    layer_idx,
                    i,
                    crate::detail::TURN_SALT,
                    random,
                )
                &&& call_ensures(M::placed, (math, position, g.size, random), transform)
            }
    } else {
        zero
    };
    (g.luck, g.random, turn)
}

} // verus!
