//! What holds of detail placement from frame to frame and from layer to layer.
use crate::detail::{
    CornerSamples, DetailLayer, DetailScatterOutput, DetailScatterParams, Instance,
    MeshInstanceItem, ScatterMath, SpriteItem, Transform,
};
use crate::item::{GridFrame, TerrainItem};
use crate::scalar::{Scalar, Vec2, Vec3, ONE, ZERO};
use vstd::prelude::*;

verus! {

/// What a sample yields within the footprint does not depend on the camera,
/// unless it is a tree.
pub proof fn yield_within_the_footprint_ignores_the_camera<M: ScatterMath>(
    math: &M,
    item: &TerrainItem,
    layer: DetailLayer,
    layer_idx: usize,
    here: DetailScatterParams,
    there: DetailScatterParams,
    i: u32,
    spot: Vec2,
    at: Vec2,
    found: Option<Instance>,
)
    requires
        !(layer.kind is TreeLod),
        crate::detail::yields_on(math, item, layer, layer_idx, here, i, spot, at, found),
    ensures
        crate::detail::yields_on(math, item, layer, layer_idx, there, i, spot, at, found),
{
    let weight = choose|weight: Scalar|
        {
            &&& #[trigger] crate::detail::is_splat_weight(
                math,
                item,
                at.x,
                at.y,
                layer.surface_layer,
                weight,
            )
            &&& if weight.below(layer.weight_threshold) {
                found is None
            } else {
                exists|random: Scalar, accepted: bool|
                    {
                        &&& #[trigger] crate::detail::is_random(
                            layer_idx,
                            i,
                            crate::detail::ACCEPT_SALT,
                            random,
                        )
                        &&& #[trigger] crate::detail::accepts(
                            math,
                            layer.weight_threshold,
                            weight,
                            random,
                            accepted,
                        )
                        &&& if accepted {
                            found is Some && crate::detail::yields_instance(
                                math,
                                item,
                                layer,
                                layer_idx,
                                here,
                                i,
                                spot,
                                at,
                                found->0,
                            )
                        } else {
                            found is None
                        }
                    }
            }
        };
    if found is Some {
        assert(crate::detail::yields_instance(
            math,
            item,
            layer,
            layer_idx,
            there,
            i,
            spot,
            at,
            found->0,
        )) by {
            let (height, z, random, size) = choose|
                height: Scalar,
                z: Scalar,
                random: Scalar,
                size: Scalar,
            |
                {
                    &&& #[trigger] crate::detail::is_ground(math, item, at.x, at.y, height)
                    &&& #[trigger] call_ensures(M::sum, (math, item.origin.z, height), z)
                    &&& #[trigger] crate::detail::is_random(
                        layer_idx,
                        i,
                        crate::detail::SIZE_SALT,
                        random,
                    )
                    &&& #[trigger] call_ensures(
                        M::vary,
                        (math, layer.size, layer.size_jitter, random),
                        size,
                    )
                    &&& crate::detail::emits(
                        math,
                        layer,
                        layer_idx,
                        here,
                        i,
                        (Vec3 { x: spot.x, y: spot.y, z }),
                        size,
                        found->0,
                    )
                };
            assert(crate::detail::emits(
                math,
                layer,
                layer_idx,
                there,
                i,
                (Vec3 { x: spot.x, y: spot.y, z }),
                size,
                found->0,
            ));
        }
    }
}

/// Placement is fixed on the terrain: a sprite that a sample yields for one
/// camera is what it yields for any other that it is in reach of. Trees are left
/// out: whether one is a sprite depends on how far the camera is.
pub proof fn placement_does_not_follow_the_camera<M: ScatterMath>(
    math: &M,
    item: &TerrainItem,
    layer: DetailLayer,
    layer_idx: usize,
    here: DetailScatterParams,
    there: DetailScatterParams,
    i: u32,
    position: Vec3,
    size: Scalar,
)
    requires
        !(layer.kind is TreeLod),
        crate::detail::yields(
            math,
            item,
            layer,
            layer_idx,
            here,
            i,
            Some(Instance::Sprite { position, size }),
        ),
        crate::detail::in_reach(math, layer, there, position),
    ensures
        crate::detail::yields(
            math,
            item,
            layer,
            layer_idx,
            there,
            i,
            Some(Instance::Sprite { position, size }),
        ),
{
    let found = Some(Instance::Sprite { position, size });
    let (at, spot) = choose|at: Vec2, spot: Vec2|
        {
            &&& #[trigger] crate::detail::is_spot(math, item, i, at, spot)
            &&& crate::detail::reaches(math, layer, here, spot, true)
            &&& crate::detail::yields_on(math, item, layer, layer_idx, here, i, spot, at, found)
        };
    yield_within_the_footprint_ignores_the_camera(
        math,
        item,
        layer,
        layer_idx,
        here,
        there,
        i,
        spot,
        at,
        found,
    );
    assert(spot == (Vec2 { x: position.x, y: position.y }));
    assert(crate::detail::reaches(math, layer, there, spot, true));
    assert(crate::detail::takes(math, item, layer, layer_idx, there, i, true, found));
}

/// Whether each formula gives one result for the same arguments, as arithmetic
/// on one machine does.
pub open spec fn repeats<M: ScatterMath>(math: &M) -> bool {
    &&& forall|a: Scalar, b: Scalar, x: Scalar, y: Scalar| #[trigger]
        call_ensures(M::sum, (math, a, b), x) && #[trigger] call_ensures(
            M::sum,
            (math, a, b),
            y,
        ) ==> x == y
    &&& forall|a: Scalar, b: Scalar, x: Scalar, y: Scalar| #[trigger]
        call_ensures(M::difference, (math, a, b), x) && #[trigger] call_ensures(
            M::difference,
            (math, a, b),
            y,
        ) ==> x == y
    &&& forall|a: Scalar, b: Scalar, x: Scalar, y: Scalar| #[trigger]
        call_ensures(M::quotient, (math, a, b), x) && #[trigger] call_ensures(
            M::quotient,
            (math, a, b),
            y,
        ) ==> x == y
    &&& forall|a: Scalar, x: Scalar, y: Scalar| #[trigger]
        call_ensures(M::square, (math, a), x) && #[trigger] call_ensures(
            M::square,
            (math, a),
            y,
        ) ==> x == y
    &&& forall|fraction: Scalar, base: u32, x: Scalar, y: Scalar| #[trigger]
        call_ensures(M::shrink, (math, fraction, base), x) && #[trigger] call_ensures(
            M::shrink,
            (math, fraction, base),
            y,
        ) ==> x == y
    &&& forall|total: Scalar, fraction: Scalar, digit: u32, x: Scalar, y: Scalar| #[trigger]
        call_ensures(M::accumulate, (math, total, fraction, digit), x) && #[trigger] call_ensures(
            M::accumulate,
            (math, total, fraction, digit),
            y,
        ) ==> x == y
    &&& forall|density: Scalar, max_distance: Scalar, x: Scalar, y: Scalar| #[trigger]
        call_ensures(M::footprint, (math, density, max_distance), x) && #[trigger] call_ensures(
            M::footprint,
            (math, density, max_distance),
            y,
        ) ==> x == y
    &&& forall|density: Scalar, width: Scalar, depth: Scalar, x: Scalar, y: Scalar| #[trigger]
        call_ensures(M::amount, (math, density, width, depth), x) && #[trigger] call_ensures(
            M::amount,
            (math, density, width, depth),
            y,
        ) ==> x == y
    &&& forall|frame: GridFrame, u: Scalar, v: Scalar, x: Vec2, y: Vec2| #[trigger]
        call_ensures(M::spot, (math, frame, u, v), x) && #[trigger] call_ensures(
            M::spot,
            (math, frame, u, v),
            y,
        ) ==> x == y
    &&& forall|a: Vec2, b: Vec2, x: Scalar, y: Scalar| #[trigger]
        call_ensures(M::ground_distance_squared, (math, a, b), x) && #[trigger] call_ensures(
            M::ground_distance_squared,
            (math, a, b),
            y,
        ) ==> x == y
    &&& forall|ratio: Scalar, count: u32, x: Scalar, y: Scalar| #[trigger]
        call_ensures(M::stretch, (math, ratio, count), x) && #[trigger] call_ensures(
            M::stretch,
            (math, ratio, count),
            y,
        ) ==> x == y
    &&& forall|count: u32, x: Scalar, y: Scalar| #[trigger]
        call_ensures(M::inner_limit, (math, count), x) && #[trigger] call_ensures(
            M::inner_limit,
            (math, count),
            y,
        ) ==> x == y
    &&& forall|
        frame: GridFrame,
        column: u32,
        row: u32,
        samples: CornerSamples,
        fx: Scalar,
        fy: Scalar,
        x: Scalar,
        y: Scalar,
    | #[trigger]
        call_ensures(M::ground, (math, frame, column, row, samples, fx, fy), x)
            && #[trigger] call_ensures(
            M::ground,
            (math, frame, column, row, samples, fx, fy),
            y,
        ) ==> x == y
    &&& forall|size: Scalar, jitter: Scalar, random: Scalar, x: Scalar, y: Scalar| #[trigger]
        call_ensures(M::vary, (math, size, jitter, random), x) && #[trigger] call_ensures(
            M::vary,
            (math, size, jitter, random),
            y,
        ) ==> x == y
    &&& forall|height: Scalar, size: Scalar, x: Scalar, y: Scalar| #[trigger]
        call_ensures(M::lift, (math, height, size), x) && #[trigger] call_ensures(
            M::lift,
            (math, height, size),
            y,
        ) ==> x == y
    &&& forall|a: Vec3, b: Vec3, x: Scalar, y: Scalar| #[trigger]
        call_ensures(M::distance_squared, (math, a, b), x) && #[trigger] call_ensures(
            M::distance_squared,
            (math, a, b),
            y,
        ) ==> x == y
    &&& forall|position: Vec3, scale: Scalar, random: Scalar, x: Transform, y: Transform| #[trigger]
        call_ensures(M::placed, (math, position, scale, random), x) && #[trigger] call_ensures(
            M::placed,
            (math, position, scale, random),
            y,
        ) ==> x == y
}

proof fn lemma_one_halton_value<M: ScatterMath>(
    math: &M,
    i: u32,
    base: u32,
    fraction: Scalar,
    total: Scalar,
    a: Scalar,
    b: Scalar,
)
    requires
        repeats(math),
        crate::detail::halton_from(math, i, base, fraction, total, a),
        crate::detail::halton_from(math, i, base, fraction, total, b),
    ensures
        a == b,
    decreases i,
{
    if i != 0 && base >= 2 {
        let (f, t) = choose|f: Scalar, t: Scalar|
            {
                &&& #[trigger] call_ensures(M::shrink, (math, fraction, base), f)
                &&& #[trigger] call_ensures(M::accumulate, (math, total, f, i % base), t)
                &&& crate::detail::halton_from(math, i / base, base, f, t, a)
            };
        assert(i / base < i) by (nonlinear_arith)
            requires
                i > 0,
                base >= 2,
        ;
        assert(crate::detail::halton_from(math, i / base, base, f, t, b));
        lemma_one_halton_value(math, i / base, base, f, t, a, b);
    }
}

proof fn lemma_one_spot<M: ScatterMath>(
    math: &M,
    item: &TerrainItem,
    i: u32,
    at: Vec2,
    spot: Vec2,
    other_at: Vec2,
    other_spot: Vec2,
)
    requires
        repeats(math),
        crate::detail::is_spot(math, item, i, at, spot),
        crate::detail::is_spot(math, item, i, other_at, other_spot),
    ensures
        at == other_at,
        spot == other_spot,
{
    let one = Scalar { bits: ONE };
    let zero = Scalar { bits: ZERO };
    lemma_one_halton_value(math, (i + 1) as u32, 2, one, zero, at.x, other_at.x);
    lemma_one_halton_value(math, (i + 1) as u32, 3, one, zero, at.y, other_at.y);
}

proof fn lemma_one_reach<M: ScatterMath>(
    math: &M,
    layer: DetailLayer,
    params: DetailScatterParams,
    spot: Vec2,
    a: bool,
    b: bool,
)
    requires
        repeats(math),
        crate::detail::reaches(math, layer, params, spot, a),
        crate::detail::reaches(math, layer, params, spot, b),
    ensures
        a == b,
{
}

proof fn lemma_one_weight<M: ScatterMath>(
    math: &M,
    item: &TerrainItem,
    u: Scalar,
    v: Scalar,
    layer: usize,
    a: Scalar,
    b: Scalar,
)
    requires
        repeats(math),
        crate::detail::is_splat_weight(math, item, u, v, layer, a),
        crate::detail::is_splat_weight(math, item, u, v, layer, b),
    ensures
        a == b,
{
}

proof fn lemma_one_decision<M: ScatterMath>(
    math: &M,
    threshold: Scalar,
    weight: Scalar,
    random: Scalar,
    a: bool,
    b: bool,
)
    requires
        repeats(math),
        crate::detail::accepts(math, threshold, weight, random, a),
        crate::detail::accepts(math, threshold, weight, random, b),
    ensures
        a == b,
{
}

proof fn lemma_one_height<M: ScatterMath>(
    math: &M,
    item: &TerrainItem,
    u: Scalar,
    v: Scalar,
    a: Scalar,
    b: Scalar,
)
    requires
        repeats(math),
        crate::detail::is_ground(math, item, u, v, a),
        crate::detail::is_ground(math, item, u, v, b),
    ensures
        a == b,
{
}

proof fn lemma_one_instance<M: ScatterMath>(
    math: &M,
    layer: DetailLayer,
    layer_idx: usize,
    params: DetailScatterParams,
    i: u32,
    position: Vec3,
    size: Scalar,
    a: Instance,
    b: Instance,
)
    requires
        repeats(math),
        crate::detail::emits(math, layer, layer_idx, params, i, position, size, a),
        crate::detail::emits(math, layer, layer_idx, params, i, position, size, b),
    ensures
        a == b,
{
    assert forall|x: Scalar, y: Scalar| #[trigger]
        crate::detail::is_random(layer_idx, i, crate::detail::TURN_SALT, x)
            && #[trigger] crate::detail::is_random(
        layer_idx,
        i,
        crate::detail::TURN_SALT,
        y,
    ) implies x == y by {
        crate::detail::random_numbers_repeat(layer_idx, i, crate::detail::TURN_SALT, x, y);
    }
}

/// Whether two layers are equal except for what they emit.
pub open spec fn alike(a: DetailLayer, b: DetailLayer) -> bool {
    b == (DetailLayer { kind: b.kind, ..a })
}

/// Whether two samples stand on the same ground at the same size: either both
/// yield an instance there or neither yields any.
pub open spec fn counterparts<M: ScatterMath>(
    math: &M,
    layer: DetailLayer,
    params: DetailScatterParams,
    found: Option<Instance>,
    other_layer: DetailLayer,
    other_params: DetailScatterParams,
    other: Option<Instance>,
    layer_idx: usize,
    i: u32,
) -> bool {
    &&& found is Some <==> other is Some
    &&& found is Some ==> exists|position: Vec3, size: Scalar|
        {
            &&& #[trigger] crate::detail::emits(
                math,
                layer,
                layer_idx,
                params,
                i,
                position,
                size,
                found->0,
            )
            &&& #[trigger] crate::detail::emits(
                math,
                other_layer,
                layer_idx,
                other_params,
                i,
                position,
                size,
                other->0,
            )
        }
}

/// Samples of layers that differ in what they emit alone, for cameras that
/// differ in height alone, stand on the same ground at the same size.
pub proof fn alike_layers_have_the_same_placements<M: ScatterMath>(
    math: &M,
    item: &TerrainItem,
    layer: DetailLayer,
    other_layer: DetailLayer,
    layer_idx: usize,
    params: DetailScatterParams,
    other_params: DetailScatterParams,
    i: u32,
    found: Option<Instance>,
    other: Option<Instance>,
)
    requires
        repeats(math),
        alike(layer, other_layer),
        params.camera_xy == other_params.camera_xy,
        crate::detail::yields(math, item, layer, layer_idx, params, i, found),
        crate::detail::yields(math, item, other_layer, layer_idx, other_params, i, other),
    ensures
        counterparts(math, layer, params, found, other_layer, other_params, other, layer_idx, i),
{
    let reached = choose|reached: bool| #[trigger]
        crate::detail::takes(math, item, layer, layer_idx, params, i, reached, found);
    let other_reached = choose|reached: bool| #[trigger]
        crate::detail::takes(math, item, other_layer, layer_idx, other_params, i, reached, other);
    lemma_alike_samples(
        math,
        item,
        layer,
        other_layer,
        layer_idx,
        params,
        other_params,
        i,
        reached,
        found,
        other_reached,
        other,
    );
}

proof fn lemma_alike_samples<M: ScatterMath>(
    math: &M,
    item: &TerrainItem,
    layer: DetailLayer,
    other_layer: DetailLayer,
    layer_idx: usize,
    params: DetailScatterParams,
    other_params: DetailScatterParams,
    i: u32,
    reached: bool,
    found: Option<Instance>,
    other_reached: bool,
    other: Option<Instance>,
)
    requires
        repeats(math),
        alike(layer, other_layer),
        params.camera_xy == other_params.camera_xy,
        crate::detail::takes(math, item, layer, layer_idx, params, i, reached, found),
        crate::detail::takes(
            math,
            item,
            other_layer,
            layer_idx,
            other_params,
            i,
            other_reached,
            other,
        ),
    ensures
        reached == other_reached,
        counterparts(math, layer, params, found, other_layer, other_params, other, layer_idx, i),
{
    let (at, spot) = choose|at: Vec2, spot: Vec2|
        {
            &&& #[trigger] crate::detail::is_spot(math, item, i, at, spot)
            &&& crate::detail::reaches(math, layer, params, spot, reached)
            &&& if reached {
                crate::detail::yields_on(math, item, layer, layer_idx, params, i, spot, at, found)
            } else {
                found is None
            }
        };
    let (other_at, other_spot) = choose|at: Vec2, spot: Vec2|
        {
            &&& #[trigger] crate::detail::is_spot(math, item, i, at, spot)
            &&& crate::detail::reaches(math, other_layer, other_params, spot, other_reached)
            &&& if other_reached {
                crate::detail::yields_on(
                    math,
                    item,
                    other_layer,
                    layer_idx,
                    other_params,
                    i,
                    spot,
                    at,
                    other,
                )
            } else {
                other is None
            }
        };
    lemma_one_spot(math, item, i, at, spot, other_at, other_spot);
    assert(crate::detail::reaches(math, layer, params, spot, other_reached));
    lemma_one_reach(math, layer, params, spot, reached, other_reached);
    if reached {
        lemma_same_ground(
            math,
            item,
            layer,
            other_layer,
            layer_idx,
            params,
            other_params,
            i,
            spot,
            at,
            found,
            other,
        );
    }
}

proof fn lemma_same_ground<M: ScatterMath>(
    math: &M,
    item: &TerrainItem,
    layer: DetailLayer,
    other_layer: DetailLayer,
    layer_idx: usize,
    params: DetailScatterParams,
    other_params: DetailScatterParams,
    i: u32,
    spot: Vec2,
    at: Vec2,
    found: Option<Instance>,
    other: Option<Instance>,
)
    requires
        repeats(math),
        alike(layer, other_layer),
        crate::detail::yields_on(math, item, layer, layer_idx, params, i, spot, at, found),
        crate::detail::yields_on(
            math,
            item,
            other_layer,
            layer_idx,
            other_params,
            i,
            spot,
            at,
            other,
        ),
    ensures
        counterparts(math, layer, params, found, other_layer, other_params, other, layer_idx, i),
{
    assert forall|x: Scalar, y: Scalar|
        crate::detail::is_splat_weight(math, item, at.x, at.y, layer.surface_layer, x)
            && crate::detail::is_splat_weight(
            math,
            item,
            at.x,
            at.y,
            layer.surface_layer,
            y,
        ) implies x == y by {
        lemma_one_weight(math, item, at.x, at.y, layer.surface_layer, x, y);
    }
    assert forall|salt: u32, x: Scalar, y: Scalar| #[trigger]
        crate::detail::is_random(layer_idx, i, salt, x) && #[trigger] crate::detail::is_random(
        layer_idx,
        i,
        salt,
        y,
    ) implies x == y by {
        crate::detail::random_numbers_repeat(layer_idx, i, salt, x, y);
    }
    assert forall|weight: Scalar, random: Scalar, x: bool, y: bool| #[trigger]
        crate::detail::accepts(math, layer.weight_threshold, weight, random, x)
            && #[trigger] crate::detail::accepts(
        math,
        layer.weight_threshold,
        weight,
        random,
        y,
    ) implies x == y by {
        lemma_one_decision(math, layer.weight_threshold, weight, random, x, y);
    }
    assert forall|x: Scalar, y: Scalar| #[trigger]
        crate::detail::is_ground(math, item, at.x, at.y, x) && #[trigger] crate::detail::is_ground(
        math,
        item,
        at.x,
        at.y,
        y,
    ) implies x == y by {
        lemma_one_height(math, item, at.x, at.y, x, y);
    }
}

/// The same sample of the same layer for the same camera always yields the same
/// instance.
pub proof fn a_sample_repeats<M: ScatterMath>(
    math: &M,
    item: &TerrainItem,
    layer: DetailLayer,
    layer_idx: usize,
    params: DetailScatterParams,
    i: u32,
    a: Option<Instance>,
    b: Option<Instance>,
)
    requires
        repeats(math),
        crate::detail::yields(math, item, layer, layer_idx, params, i, a),
        crate::detail::yields(math, item, layer, layer_idx, params, i, b),
    ensures
        a == b,
{
    alike_layers_have_the_same_placements(
        math,
        item,
        layer,
        layer,
        layer_idx,
        params,
        params,
        i,
        a,
        b,
    );
    if a is Some {
        let (position, size) = choose|position: Vec3, size: Scalar|
            {
                &&& #[trigger] crate::detail::emits(
                    math,
                    layer,
                    layer_idx,
                    params,
                    i,
                    position,
                    size,
                    a->0,
                )
                &&& #[trigger] crate::detail::emits(
                    math,
                    layer,
                    layer_idx,
                    params,
                    i,
                    position,
                    size,
                    b->0,
                )
            };
        lemma_one_instance(math, layer, layer_idx, params, i, position, size, a->0, b->0);
    }
}

/// A layer takes the same number of samples for cameras that differ in height
/// alone, whatever it emits.
pub proof fn a_layer_takes_the_same_samples<M: ScatterMath>(
    math: &M,
    item: &TerrainItem,
    layer: DetailLayer,
    other_layer: DetailLayer,
    layer_idx: usize,
    params: DetailScatterParams,
    other_params: DetailScatterParams,
    a: Seq<Option<Instance>>,
    b: Seq<Option<Instance>>,
)
    requires
        repeats(math),
        alike(layer, other_layer),
        params.camera_xy == other_params.camera_xy,
        crate::detail::samples_layer(math, item, layer, layer_idx, params, a),
        crate::detail::samples_layer(math, item, other_layer, layer_idx, other_params, b),
    ensures
        a.len() == b.len(),
{
    let (total, reached) = choose|total: int, reached: Seq<bool>|
        {
            &&& #[trigger] crate::detail::is_total(math, item, layer, total)
            &&& #[trigger] crate::detail::runs(
                math,
                item,
                layer,
                layer_idx,
                params,
                total,
                reached,
                a,
            )
        };
    let (other_total, other_reached) = choose|total: int, reached: Seq<bool>|
        {
            &&& #[trigger] crate::detail::is_total(math, item, other_layer, total)
            &&& #[trigger] crate::detail::runs(
                math,
                item,
                other_layer,
                layer_idx,
                other_params,
                total,
                reached,
                b,
            )
        };
    assert(total == other_total);
    let shared = if a.len() <= b.len() {
        a.len() as int
    } else {
        b.len() as int
    };
    assert forall|k: int| 0 <= k < shared implies #[trigger] reached[k] == other_reached[k] by {
        assert(crate::detail::takes(
            math,
            item,
            layer,
            layer_idx,
            params,
            k as u32,
            reached[k],
            a[k],
        ));
        assert(crate::detail::takes(
            math,
            item,
            other_layer,
            layer_idx,
            other_params,
            k as u32,
            other_reached[k],
            b[k],
        ));
        lemma_alike_samples(
            math,
            item,
            layer,
            other_layer,
            layer_idx,
            params,
            other_params,
            k as u32,
            reached[k],
            a[k],
            other_reached[k],
            b[k],
        );
    }
    crate::detail::lemma_count_of_prefix(reached, other_reached, shared);
    if a.len() < b.len() {
        lemma_count_grows(other_reached, shared, b.len() - 1);
    }
    if b.len() < a.len() {
        lemma_count_grows(reached, shared, a.len() - 1);
    }
}

proof fn lemma_count_grows(reached: Seq<bool>, few: int, many: int)
    requires
        0 <= few <= many,
    ensures
        crate::detail::reached_count(reached, few) <= crate::detail::reached_count(reached, many),
    decreases many,
{
    if few < many {
        lemma_count_grows(reached, few, many - 1);
    }
}

/// Scattering a layer again for the same camera yields the same instances.
pub proof fn a_layer_repeats<M: ScatterMath>(
    math: &M,
    item: &TerrainItem,
    layer: DetailLayer,
    layer_idx: usize,
    params: DetailScatterParams,
    a: Seq<Option<Instance>>,
    b: Seq<Option<Instance>>,
)
    requires
        repeats(math),
        crate::detail::samples_layer(math, item, layer, layer_idx, params, a),
        crate::detail::samples_layer(math, item, layer, layer_idx, params, b),
    ensures
        a == b,
{
    a_layer_takes_the_same_samples(math, item, layer, layer, layer_idx, params, params, a, b);
    assert forall|i: int| 0 <= i < a.len() implies a[i] == b[i] by {
        a_sample_repeats(math, item, layer, layer_idx, params, i as u32, a[i], b[i]);
    }
    assert(a =~= b);
}

/// Placement is fixed on the terrain: every sprite of a layer that is in reach
/// of another camera is a sprite for that camera too, at the same position and
/// size. The most samples that a layer takes must not have cut the samples for
/// that camera off before.
pub proof fn sprites_in_reach_stay<M: ScatterMath>(
    math: &M,
    item: &TerrainItem,
    layer: DetailLayer,
    layer_idx: usize,
    here: DetailScatterParams,
    there: DetailScatterParams,
    a: Seq<Option<Instance>>,
    total: int,
    reached: Seq<bool>,
    b: Seq<Option<Instance>>,
    i: int,
    position: Vec3,
    size: Scalar,
)
    requires
        repeats(math),
        !(layer.kind is TreeLod),
        crate::detail::samples_layer(math, item, layer, layer_idx, here, a),
        crate::detail::is_total(math, item, layer, total),
        crate::detail::runs(math, item, layer, layer_idx, there, total, reached, b),
        crate::detail::reached_count(reached, b.len() as int) < crate::detail::REACH_LIMIT || i
            < b.len(),
        0 <= i < a.len(),
        a[i] == Some(Instance::Sprite { position, size }),
        crate::detail::in_reach(math, layer, there, position),
    ensures
        i < b.len(),
        b[i] == a[i],
        crate::detail::sprite_positions(b, b.len() as int).contains(position),
{
    let (total_here, reached_here) = choose|total: int, reached: Seq<bool>|
        {
            &&& #[trigger] crate::detail::is_total(math, item, layer, total)
            &&& #[trigger] crate::detail::runs(
                math,
                item,
                layer,
                layer_idx,
                here,
                total,
                reached,
                a,
            )
        };
    assert(total_here == total);
    assert(crate::detail::takes(
        math,
        item,
        layer,
        layer_idx,
        here,
        i as u32,
        reached_here[i],
        a[i],
    ));
    assert(crate::detail::takes(
        math,
        item,
        layer,
        layer_idx,
        there,
        i as u32,
        reached[i],
        b[i],
    ));
    placement_does_not_follow_the_camera(
        math,
        item,
        layer,
        layer_idx,
        here,
        there,
        i as u32,
        position,
        size,
    );
    a_sample_repeats(math, item, layer, layer_idx, there, i as u32, a[i], b[i]);
    lemma_sprite_is_listed(b, b.len() as int, i, position, size);
}

proof fn lemma_sprite_is_listed(
    samples: Seq<Option<Instance>>,
    count: int,
    i: int,
    position: Vec3,
    size: Scalar,
)
    requires
        0 <= i < count <= samples.len(),
        samples[i] == Some(Instance::Sprite { position, size }),
    ensures
        crate::detail::sprite_positions(samples, count).contains(position),
    decreases count,
{
    let all = crate::detail::sprite_positions(samples, count);
    let earlier = crate::detail::sprite_positions(samples, count - 1);
    if i == count - 1 {
        assert(all[all.len() - 1] == position);
    } else {
        lemma_sprite_is_listed(samples, count - 1, i, position, size);
        let at = choose|at: int| 0 <= at < earlier.len() && earlier[at] == position;
        assert(all[at] == position);
    }
}

proof fn lemma_same_count(a: Seq<Option<Instance>>, b: Seq<Option<Instance>>, count: int)
    requires
        forall|i: int| 0 <= i < count ==> (#[trigger] a[i] is Some <==> b[i] is Some),
    ensures
        crate::detail::found_count(a, count) == crate::detail::found_count(b, count),
    decreases count,
{
    if count > 0 {
        assert(a[count - 1] is Some <==> b[count - 1] is Some);
        lemma_same_count(a, b, count - 1);
    }
}

/// Whether a tree stands where a sprite would: on the same ground at the same
/// size, as a mesh where the camera is nearer than the switch distance and as
/// a sprite elsewhere.
pub open spec fn stands_for<M: ScatterMath>(
    math: &M,
    tree: DetailLayer,
    sprite: DetailLayer,
    layer_idx: usize,
    params: DetailScatterParams,
    i: u32,
    found: Option<Instance>,
    other: Option<Instance>,
) -> bool {
    &&& found is Some <==> other is Some
    &&& found is Some ==> exists|position: Vec3, size: Scalar, near: Scalar, limit: Scalar|
        {
            &&& #[trigger] crate::detail::emits(
                math,
                sprite,
                layer_idx,
                params,
                i,
                position,
                size,
                other->0,
            )
            &&& #[trigger] call_ensures(
                M::distance_squared,
                (math, position, crate::detail::camera_of(params)),
                near,
            )
            &&& #[trigger] call_ensures(M::square, (math, tree.kind->switch_distance), limit)
            &&& if near.below(limit) {
                crate::detail::is_placed(math, layer_idx, i, position, size, found->0)
            } else {
                crate::detail::stands_on(math, position, size, found->0)
            }
        }
}

/// A tree layer has the placements of a billboard layer that is otherwise
/// equal: its meshes and its sprites together are as many as the billboards,
/// and each stands for one of them.
pub proof fn trees_stand_where_billboards_would<M: ScatterMath>(
    math: &M,
    item: &TerrainItem,
    tree: DetailLayer,
    sprite: DetailLayer,
    layer_idx: usize,
    params: DetailScatterParams,
    a: Seq<Option<Instance>>,
    b: Seq<Option<Instance>>,
)
    requires
        repeats(math),
        alike(tree, sprite),
        tree.kind is TreeLod,
        sprite.kind is Billboard,
        crate::detail::samples_layer(math, item, tree, layer_idx, params, a),
        crate::detail::samples_layer(math, item, sprite, layer_idx, params, b),
    ensures
        a.len() == b.len(),
        crate::detail::mesh_transforms(a, a.len() as int).len() + crate::detail::sprite_positions(
            a,
            a.len() as int,
        ).len() == crate::detail::sprite_positions(b, b.len() as int).len(),
        forall|i: int|
            0 <= i < a.len() ==> stands_for(
                math,
                tree,
                sprite,
                layer_idx,
                params,
                i as u32,
                #[trigger] a[i],
                b[i],
            ),
{
    a_layer_takes_the_same_samples(math, item, tree, sprite, layer_idx, params, params, a, b);
    assert forall|i: int| 0 <= i < a.len() implies stands_for(
        math,
        tree,
        sprite,
        layer_idx,
        params,
        i as u32,
        #[trigger] a[i],
        b[i],
    ) by {
        alike_layers_have_the_same_placements(
            math,
            item,
            tree,
            sprite,
            layer_idx,
            params,
            params,
            i as u32,
            a[i],
            b[i],
        );
    }
    assert forall|i: int| 0 <= i < a.len() implies (#[trigger] a[i] is Some <==> b[i] is Some) by {
        assert(stands_for(math, tree, sprite, layer_idx, params, i as u32, a[i], b[i]));
    }
    lemma_same_count(a, b, a.len() as int);
    crate::detail::every_instance_is_in_one_batch(a, a.len() as int);
    crate::detail::every_instance_is_in_one_batch(b, b.len() as int);
    assert forall|i: int| 0 <= i < b.len() implies !(#[trigger] b[i] matches Some(
        Instance::Mesh { transform },
    )) by {
        assert(stands_for(math, tree, sprite, layer_idx, params, i as u32, a[i], b[i]));
    }
    lemma_no_meshes(b, b.len() as int);
}

proof fn lemma_no_meshes(samples: Seq<Option<Instance>>, count: int)
    requires
        0 <= count <= samples.len(),
        forall|i: int|
            0 <= i < samples.len() ==> !(#[trigger] samples[i] matches Some(
                Instance::Mesh { transform },
            )),
    ensures
        crate::detail::mesh_transforms(samples, count).len() == 0,
    decreases count,
{
    if count > 0 {
        lemma_no_meshes(samples, count - 1);
    }
}

/// The height of the camera changes nothing but the split of trees into meshes
/// and sprites: other layers yield the same instances, and a tree layer yields
/// as many.
pub proof fn camera_height_only_splits_trees<M: ScatterMath>(
    math: &M,
    item: &TerrainItem,
    layer: DetailLayer,
    layer_idx: usize,
    low: DetailScatterParams,
    high: DetailScatterParams,
    a: Seq<Option<Instance>>,
    b: Seq<Option<Instance>>,
)
    requires
        repeats(math),
        low.camera_xy == high.camera_xy,
        crate::detail::samples_layer(math, item, layer, layer_idx, low, a),
        crate::detail::samples_layer(math, item, layer, layer_idx, high, b),
    ensures
        !(layer.kind is TreeLod) ==> a == b,
        a.len() == b.len(),
        forall|i: int| 0 <= i < a.len() ==> (#[trigger] a[i] is Some <==> b[i] is Some),
        crate::detail::mesh_transforms(a, a.len() as int).len() + crate::detail::sprite_positions(
            a,
            a.len() as int,
        ).len() == crate::detail::mesh_transforms(b, b.len() as int).len()
            + crate::detail::sprite_positions(b, b.len() as int).len(),
{
    a_layer_takes_the_same_samples(math, item, layer, layer, layer_idx, low, high, a, b);
    assert forall|i: int| 0 <= i < a.len() implies (#[trigger] a[i] is Some <==> b[i] is Some) && (
    layer.kind is TreeLod || a[i] == b[i]) by {
        alike_layers_have_the_same_placements(
            math,
            item,
            layer,
            layer,
            layer_idx,
            low,
            high,
            i as u32,
            a[i],
            b[i],
        );
        if a[i] is Some && !(layer.kind is TreeLod) {
            let (position, size) = choose|position: Vec3, size: Scalar|
                {
                    &&& #[trigger] crate::detail::emits(
                        math,
                        layer,
                        layer_idx,
                        low,
                        i as u32,
                        position,
                        size,
                        a[i]->0,
                    )
                    &&& #[trigger] crate::detail::emits(
                        math,
                        layer,
                        layer_idx,
                        high,
                        i as u32,
                        position,
                        size,
                        b[i]->0,
                    )
                };
            assert(crate::detail::emits(
                math,
                layer,
                layer_idx,
                low,
                i as u32,
                position,
                size,
                b[i]->0,
            ));
            lemma_one_instance(
                math,
                layer,
                layer_idx,
                low,
                i as u32,
                position,
                size,
                a[i]->0,
                b[i]->0,
            );
        }
    }
    if !(layer.kind is TreeLod) {
        assert(a =~= b);
    }
    lemma_same_count(a, b, a.len() as int);
    crate::detail::every_instance_is_in_one_batch(a, a.len() as int);
    crate::detail::every_instance_is_in_one_batch(b, b.len() as int);
}

/// Whether two sprite batches are the same.
pub open spec fn same_sprites(a: SpriteItem, b: SpriteItem) -> bool {
    &&& a.texture_id == b.texture_id
    &&& a.positions@ == b.positions@
    &&& a.sizes@ == b.sizes@
    &&& a.default_colour == b.default_colour
    &&& a.default_size == b.default_size
    &&& a.world_space == b.world_space
    &&& a.depth_write == b.depth_write
    &&& a.alpha_blend == b.alpha_blend
}

/// Whether two mesh batches are the same.
pub open spec fn same_meshes(a: MeshInstanceItem, b: MeshInstanceItem) -> bool {
    &&& a.mesh_id == b.mesh_id
    &&& a.texture_id == b.texture_id
    &&& a.transforms@ == b.transforms@
    &&& a.colours@ == b.colours@
    &&& a.alpha_blend == b.alpha_blend
}

/// Whether two outputs hold the same batches in the same order.
pub open spec fn same_output(a: DetailScatterOutput, b: DetailScatterOutput) -> bool {
    &&& a.sprites@.len() == b.sprites@.len()
    &&& forall|k: int|
        0 <= k < a.sprites@.len() ==> same_sprites(#[trigger] a.sprites@[k], b.sprites@[k])
    &&& a.mesh_instances@.len() == b.mesh_instances@.len()
    &&& forall|k: int|
        0 <= k < a.mesh_instances@.len() ==> same_meshes(
            #[trigger] a.mesh_instances@[k],
            b.mesh_instances@[k],
        )
}

/// The same item, layers and camera give the same output, whatever the output
/// held before.
pub proof fn scattering_repeats<M: ScatterMath>(
    math: &M,
    item: &TerrainItem,
    layers: Seq<DetailLayer>,
    params: DetailScatterParams,
    samples: Seq<Seq<Option<Instance>>>,
    stages: Seq<DetailScatterOutput>,
    other_samples: Seq<Seq<Option<Instance>>>,
    other_stages: Seq<DetailScatterOutput>,
)
    requires
        repeats(math),
        crate::detail::scatters(math, item, layers, params, samples, stages),
        crate::detail::scatters(math, item, layers, params, other_samples, other_stages),
    ensures
        samples == other_samples,
        same_output(stages.last(), other_stages.last()),
{
    assert forall|l: int| 0 <= l < layers.len() implies samples[l] == other_samples[l] by {
        a_layer_repeats(
            math,
            item,
            layers[l],
            l as usize,
            params,
            samples[l],
            other_samples[l],
        );
    }
    assert(samples =~= other_samples);
    lemma_same_stages(
        math,
        item,
        layers,
        params,
        samples,
        stages,
        other_stages,
        layers.len() as int,
    );
}

proof fn lemma_same_stages<M: ScatterMath>(
    math: &M,
    item: &TerrainItem,
    layers: Seq<DetailLayer>,
    params: DetailScatterParams,
    samples: Seq<Seq<Option<Instance>>>,
    stages: Seq<DetailScatterOutput>,
    other_stages: Seq<DetailScatterOutput>,
    l: int,
)
    requires
        crate::detail::scatters(math, item, layers, params, samples, stages),
        crate::detail::scatters(math, item, layers, params, samples, other_stages),
        0 <= l <= layers.len(),
    ensures
        same_output(stages[l], other_stages[l]),
    decreases l,
{
    if l > 0 {
        lemma_same_stages(math, item, layers, params, samples, stages, other_stages, l - 1);
        let layer = layers[l - 1];
        let taken = samples[l - 1];
        let a = stages[l];
        let b = other_stages[l];
        assert(crate::detail::adds_batches(layer, taken, stages[l - 1], a));
        assert(crate::detail::adds_batches(layer, taken, other_stages[l - 1], b));
        if crate::detail::has_sprites(layer, taken) {
            assert(same_sprites(a.sprites@.last(), b.sprites@.last()));
        }
        if crate::detail::has_meshes(layer, taken) {
            assert(a.mesh_instances@.last().colours@ =~= b.mesh_instances@.last().colours@);
            assert(same_meshes(a.mesh_instances@.last(), b.mesh_instances@.last()));
        }
    }
}

/// Without layers there is no batch.
pub proof fn no_layers_scatter_nothing<M: ScatterMath>(
    math: &M,
    item: &TerrainItem,
    params: DetailScatterParams,
    samples: Seq<Seq<Option<Instance>>>,
    stages: Seq<DetailScatterOutput>,
)
    requires
        crate::detail::scatters(math, item, Seq::empty(), params, samples, stages),
    ensures
        stages.last().sprites@.len() == 0,
        stages.last().mesh_instances@.len() == 0,
{
}

/// Coordinates beyond 0 to 1 count as the nearest one in it: the height there is
/// the height at the limited coordinates.
pub proof fn heights_are_sampled_within_the_terrain<M: ScatterMath>(
    math: &M,
    item: &TerrainItem,
    u: Scalar,
    v: Scalar,
    height: Scalar,
)
    ensures
        crate::detail::is_ground(math, item, u, v, height) == crate::detail::is_ground(
            math,
            item,
            u.limited(Scalar { bits: ZERO }, Scalar { bits: ONE }),
            v.limited(Scalar { bits: ZERO }, Scalar { bits: ONE }),
            height,
        ),
{
    let zero = Scalar { bits: ZERO };
    let one = Scalar { bits: ONE };
    crate::scalar::zero_is_below_one();
    crate::scalar::limiting_twice_is_limiting_once(u, zero, one);
    crate::scalar::limiting_twice_is_limiting_once(v, zero, one);
    let lu = u.limited(zero, one);
    let lv = v.limited(zero, one);
    assert forall|fx: Scalar| #[trigger]
        crate::detail::is_inner(math, u, item.dims@[0], fx) == crate::detail::is_inner(
            math,
            lu,
            item.dims@[0],
            fx,
        ) by {}
    assert forall|fy: Scalar| #[trigger]
        crate::detail::is_inner(math, v, item.dims@[1], fy) == crate::detail::is_inner(
            math,
            lv,
            item.dims@[1],
            fy,
        ) by {}
    if crate::detail::is_ground(math, item, u, v, height) {
        let (fx, fy) = choose|fx: Scalar, fy: Scalar|
            {
                &&& #[trigger] crate::detail::is_inner(math, u, item.dims@[0], fx)
                &&& #[trigger] crate::detail::is_inner(math, v, item.dims@[1], fy)
                &&& crate::detail::reads_at(math, item, fx, fy, height)
            };
        assert(crate::detail::is_inner(math, lu, item.dims@[0], fx));
        assert(crate::detail::is_inner(math, lv, item.dims@[1], fy));
    }
    if crate::detail::is_ground(math, item, lu, lv, height) {
        let (fx, fy) = choose|fx: Scalar, fy: Scalar|
            {
                &&& #[trigger] crate::detail::is_inner(math, lu, item.dims@[0], fx)
                &&& #[trigger] crate::detail::is_inner(math, lv, item.dims@[1], fy)
                &&& crate::detail::reads_at(math, item, fx, fy, height)
            };
        assert(crate::detail::is_inner(math, u, item.dims@[0], fx));
        assert(crate::detail::is_inner(math, v, item.dims@[1], fy));
    }
}

} // verus!
