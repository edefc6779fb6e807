//! What holds of the samples of a terrain where the formulas are as exact as
//! single precision makes them.
use crate::detail::{CornerSamples, ScatterMath};
use crate::item::{GridFrame, TerrainItem, LAYER_COUNT};
use crate::scalar::{Scalar, ONE, ZERO};
use vstd::arithmetic::power2::*;
use vstd::prelude::*;

verus! {

/// The binary digits of `i`, mirrored: the lowest is worth half of `place`, the
/// next one a quarter and so on.
pub open spec fn mirrored(i: nat, place: int) -> int
    decreases i,
{
    if i == 0 {
        0
    } else {
        (i % 2) * (place / 2) + mirrored(i / 2, place / 2)
    }
}

/// Whether halving a power of two, and adding one below the digits of a sum, is
/// exact as long as 24 digits hold the result.
pub open spec fn counts_exactly<M: ScatterMath>(math: &M) -> bool {
    &&& forall|fraction: Scalar, half: Scalar, e: nat|
        #![trigger call_ensures(M::shrink, (math, fraction, 2u32), half), pow2(e)]
        126 <= e <= 149 && !fraction.nan() && fraction.scaled() == pow2(e) && call_ensures(
            M::shrink,
            (math, fraction, 2u32),
            half,
        ) ==> !half.nan() && half.scaled() == pow2((e - 1) as nat)
    &&& forall|total: Scalar, fraction: Scalar, digit: u32, t: Scalar, e: nat|
        #![trigger call_ensures(M::accumulate, (math, total, fraction, digit), t), pow2(e)]
        125 <= e <= 148 && digit <= 1 && !total.nan() && !fraction.nan() && fraction.scaled()
            == pow2(e) && 0 <= total.scaled() && total.scaled() % (2 * pow2(e) as int) == 0
            && total.scaled() + pow2(e) <= pow2(149) && call_ensures(
            M::accumulate,
            (math, total, fraction, digit),
            t,
        ) ==> !t.nan() && t.scaled() == total.scaled() + digit * pow2(e)
}

proof fn lemma_halton_is_mirrored<M: ScatterMath>(
    math: &M,
    i: u32,
    fraction: Scalar,
    total: Scalar,
    value: Scalar,
    e: nat,
)
    requires
        counts_exactly(math),
        125 <= e <= 149,
        i < pow2((e - 125) as nat),
        !fraction.nan(),
        fraction.scaled() == pow2(e),
        !total.nan(),
        0 <= total.scaled(),
        total.scaled() % (pow2(e) as int) == 0,
        total.scaled() + pow2(e) <= pow2(149),
        crate::detail::halton_from(math, i, 2, fraction, total, value),
    ensures
        !value.nan(),
        value.scaled() == total.scaled() + mirrored(i as nat, pow2(e) as int),
    decreases i,
{
    if i > 0 {
        lemma2_to64();
        assert(e > 125);
        let (f, t) = choose|f: Scalar, t: Scalar|
            {
                &&& #[trigger] call_ensures(M::shrink, (math, fraction, 2u32), f)
                &&& #[trigger] call_ensures(M::accumulate, (math, total, f, i % 2), t)
                &&& crate::detail::halton_from(math, i / 2, 2, f, t, value)
            };
        let below = (e - 1) as nat;
        let p = pow2(below) as int;
        lemma_pow2_unfold(e);
        lemma_pow2_unfold((e - 125) as nat);
        lemma_pow2_pos(below);
        assert(f.scaled() == pow2(below));
        assert(t.scaled() == total.scaled() + (i % 2) * pow2(below));
        let q = total.scaled() / (2 * p);
        vstd::arithmetic::div_mod::lemma_fundamental_div_mod(total.scaled(), 2 * p);
        let d = (i % 2) as int;
        assert(t.scaled() == (2 * q + d) * p) by (nonlinear_arith)
            requires
                t.scaled() == total.scaled() + d * p,
                total.scaled() == (2 * p) * q,
        ;
        vstd::arithmetic::div_mod::lemma_mod_multiples_basic(2 * q + d, p);
        assert(0 <= d * p <= p) by (nonlinear_arith)
            requires
                0 <= d <= 1,
                p > 0,
        ;
        lemma_halton_is_mirrored(math, i / 2, f, t, value, below);
    }
}

proof fn lemma_mirrored_in_range(i: nat, e: nat)
    requires
        i < pow2(e),
    ensures
        0 <= mirrored(i, pow2(e) as int) < pow2(e),
    decreases i,
{
    lemma_pow2_pos(e);
    if i > 0 {
        lemma2_to64();
        lemma_pow2_unfold(e);
        let p = pow2((e - 1) as nat) as int;
        lemma_mirrored_in_range(i / 2, (e - 1) as nat);
        let d = (i % 2) as int;
        assert(0 <= d * p <= p) by (nonlinear_arith)
            requires
                0 <= d <= 1,
                p > 0,
        ;
    }
}

proof fn lemma_mirrored_scales(i: nat, e: nat)
    requires
        i < pow2(e),
    ensures
        mirrored(i, pow2(e + 1) as int) == 2 * mirrored(i, pow2(e) as int),
    decreases i,
{
    if i > 0 {
        lemma2_to64();
        lemma_pow2_unfold(e + 1);
        lemma_pow2_unfold(e);
        let p = pow2((e - 1) as nat) as int;
        lemma_mirrored_scales(i / 2, (e - 1) as nat);
        let d = (i % 2) as int;
        assert(d * (2 * p) == 2 * (d * p)) by (nonlinear_arith);
    }
}

proof fn lemma_mirrored_differs(i: nat, j: nat, e: nat)
    requires
        i < pow2(e),
        j < pow2(e),
        i != j,
    ensures
        mirrored(i, pow2(e) as int) != mirrored(j, pow2(e) as int),
    decreases i + j,
{
    lemma2_to64();
    lemma_pow2_unfold(e);
    let half = (e - 1) as nat;
    let p = pow2(half) as int;
    lemma_pow2_pos(half);
    lemma_mirrored_in_range(i / 2, half);
    lemma_mirrored_in_range(j / 2, half);
    let (c, d) = ((i % 2) as int, (j % 2) as int);
    let (x, y) = (mirrored(i / 2, p), mirrored(j / 2, p));
    assert(0 * p == 0);
    assert(mirrored(i, 2 * p) == c * p + x);
    assert(mirrored(j, 2 * p) == d * p + y);
    if c == d {
        lemma_mirrored_differs(i / 2, j / 2, half);
    } else {
        assert(c * p + x != d * p + y) by (nonlinear_arith)
            requires
                0 <= x < p,
                0 <= y < p,
                c == 0 && d == 1 || c == 1 && d == 0,
        ;
    }
}

proof fn lemma_base_two<M: ScatterMath>(math: &M, i: u32, value: Scalar)
    requires
        counts_exactly(math),
        i < 0x100_0000,
        crate::detail::is_halton(math, i, 2, value),
    ensures
        !value.nan(),
        value.scaled() == mirrored(i as nat, pow2(149) as int),
        (Scalar { bits: ONE }).scaled() == pow2(149),
{
    lemma2_to64();
    lemma_pow2_adds(23, 126);
    lemma_pow2_pos(149);
    crate::scalar::zero_is_below_one();
    assert((Scalar { bits: ONE }).scaled() == 0x80_0000 * pow2(126));
    assert((Scalar { bits: ZERO }).scaled() == 0);
    assert(0int % (pow2(149) as int) == 0);
    lemma_halton_is_mirrored(
        math,
        i,
        Scalar { bits: ONE },
        Scalar { bits: ZERO },
        value,
        149,
    );
}

/// The Halton value at index zero is zero.
pub proof fn halton_starts_at_zero<M: ScatterMath>(math: &M, base: u32, value: Scalar)
    requires
        crate::detail::is_halton(math, 0, base, value),
    ensures
        value == (Scalar { bits: ZERO }),
{
}

/// In base two, appending the digit `d` to the index puts it in front of the
/// value: the value at `2 * i + d` is half of `d` plus the value at `i`. The
/// formulas must be exact as far as 24 digits hold the result.
pub proof fn halton_puts_digits_in_front<M: ScatterMath>(
    math: &M,
    i: u32,
    d: u32,
    value: Scalar,
    next: Scalar,
)
    requires
        counts_exactly(math),
        i < 0x80_0000,
        d <= 1,
        crate::detail::is_halton(math, i, 2, value),
        crate::detail::is_halton(math, (2 * i + d) as u32, 2, next),
    ensures
        !value.nan(),
        !next.nan(),
        2 * next.scaled() == d * (Scalar { bits: ONE }).scaled() + value.scaled(),
{
    lemma_base_two(math, i, value);
    lemma_base_two(math, (2 * i + d) as u32, next);
    lemma2_to64();
    lemma_pow2_unfold(149);
    lemma_pow2_strictly_increases(24, 148);
    lemma_mirrored_scales(i as nat, 148);
    let n = (2 * i + d) as nat;
    let p = pow2(148) as int;
    assert(0 * p == 0);
    assert(n % 2 == d && n / 2 == i);
    assert(mirrored(n, 2 * p) == d * p + mirrored(i as nat, p));
    assert(2 * (d * p) == d * (2 * p)) by (nonlinear_arith);
}

/// In base two, the values of the first indices are at least zero and below one.
pub proof fn halton_values_lie_below_one<M: ScatterMath>(math: &M, i: u32, value: Scalar)
    requires
        counts_exactly(math),
        i < 0x100_0000,
        crate::detail::is_halton(math, i, 2, value),
    ensures
        !value.nan(),
        !value.below(Scalar { bits: ZERO }),
        value.below(Scalar { bits: ONE }),
{
    lemma_base_two(math, i, value);
    lemma2_to64();
    lemma_pow2_strictly_increases(24, 149);
    lemma_mirrored_in_range(i as nat, 149);
    crate::scalar::zero_is_below_one();
}

/// In base two, different indices have different values.
pub proof fn halton_values_differ<M: ScatterMath>(
    math: &M,
    i: u32,
    j: u32,
    a: Scalar,
    b: Scalar,
)
    requires
        counts_exactly(math),
        i < 0x100_0000,
        j < 0x100_0000,
        i != j,
        crate::detail::is_halton(math, i, 2, a),
        crate::detail::is_halton(math, j, 2, b),
    ensures
        !a.equal_to(b),
{
    lemma_base_two(math, i, a);
    lemma_base_two(math, j, b);
    lemma2_to64();
    lemma_pow2_strictly_increases(24, 149);
    lemma_mirrored_differs(i as nat, j as nat, 149);
}

/// The digits of `i` in a base put behind those of `n` in reverse order, and how many
/// digits there are then, `k` of them being those of `n`.
pub open spec fn flipped(base: nat, i: nat, n: nat, k: nat) -> (nat, nat)
    decreases i,
{
    if i == 0 || base < 2 {
        (n, k)
    } else {
        proof {
            assert(i / base < i) by (nonlinear_arith)
                requires
                    i > 0,
                    base >= 2,
            ;
        }
        flipped(base, i / base, n * base + i % base, k + 1)
    }
}

/// Whether `worth` tells what a digit at a place behind the point is worth in a base, and
/// `sums` what a number with so many digits behind the point is.
pub open spec fn counts_digits<M: ScatterMath>(
    math: &M,
    base: u32,
    worth: spec_fn(Scalar, nat) -> bool,
    sums: spec_fn(Scalar, nat, nat) -> bool,
) -> bool {
    &&& worth(Scalar { bits: ONE }, 0)
    &&& sums(Scalar { bits: ZERO }, 0, 0)
    &&& forall|fraction: Scalar, k: nat, next: Scalar|
        #![trigger worth(fraction, k), call_ensures(M::shrink, (math, fraction, base), next)]
        worth(fraction, k) && call_ensures(M::shrink, (math, fraction, base), next) ==> worth(
            next,
            k + 1,
        )
    &&& forall|total: Scalar, n: nat, k: nat, fraction: Scalar, digit: u32, next: Scalar|
        #![trigger sums(total, n, k),
            call_ensures(M::accumulate, (math, total, fraction, digit), next)]
        sums(total, n, k) && worth(fraction, k + 1) && digit < base && call_ensures(
            M::accumulate,
            (math, total, fraction, digit),
            next,
        ) ==> sums(next, n * base as nat + digit as nat, k + 1)
}

proof fn lemma_halton_is_flipped<M: ScatterMath>(
    math: &M,
    base: u32,
    worth: spec_fn(Scalar, nat) -> bool,
    sums: spec_fn(Scalar, nat, nat) -> bool,
    i: u32,
    fraction: Scalar,
    total: Scalar,
    n: nat,
    k: nat,
    value: Scalar,
)
    requires
        base >= 2,
        counts_digits(math, base, worth, sums),
        worth(fraction, k),
        sums(total, n, k),
        crate::detail::halton_from(math, i, base, fraction, total, value),
    ensures
        ({
            let (m, places) = flipped(base as nat, i as nat, n, k);
            sums(value, m, places)
        }),
    decreases i,
{
    if i > 0 {
        let (f, t) = choose|f: Scalar, t: Scalar|
            {
                &&& #[trigger] call_ensures(M::shrink, (math, fraction, base), f)
                &&& #[trigger] call_ensures(M::accumulate, (math, total, f, i % base), t)
                &&& crate::detail::halton_from(math, i / base, base, f, t, value)
            };
        assert(i / base < i) by (nonlinear_arith)
            requires
                i > 0,
                base >= 2,
        ;
        assert(worth(f, k + 1));
        assert(sums(t, n * base as nat + (i % base) as nat, k + 1));
        lemma_halton_is_flipped(
            math,
            base,
            worth,
            sums,
            i / base,
            f,
            t,
            n * base as nat + (i % base) as nat,
            k + 1,
            value,
        );
    }
}

/// A Halton value is the index mirrored at the point, in any base: behind the point it
/// has the digits of the index, the lowest first.
pub proof fn halton_mirrors_the_index<M: ScatterMath>(
    math: &M,
    base: u32,
    worth: spec_fn(Scalar, nat) -> bool,
    sums: spec_fn(Scalar, nat, nat) -> bool,
    i: u32,
    value: Scalar,
)
    requires
        base >= 2,
        counts_digits(math, base, worth, sums),
        crate::detail::is_halton(math, i, base, value),
    ensures
        sums(
            value,
            flipped(base as nat, i as nat, 0, 0).0,
            flipped(base as nat, i as nat, 0, 0).1,
        ),
{
    lemma_halton_is_flipped(
        math,
        base,
        worth,
        sums,
        i,
        Scalar { bits: ONE },
        Scalar { bits: ZERO },
        0,
        0,
        value,
    );
}

/// Whether a position lies in the cell with a number, or is a NaN.
pub open spec fn in_cell(position: Scalar, cell: u32) -> bool {
    position.nan() || cell * pow2(149) <= position.scaled() < (cell + 1) * pow2(149)
}

/// Whether interpolated heights stay from `lo` to `hi`, for points that lie in
/// the cell whose corners are given.
pub open spec fn keeps_within<M: ScatterMath>(
    math: &M,
    frame: GridFrame,
    lo: Scalar,
    hi: Scalar,
) -> bool {
    forall|column: u32, row: u32, samples: CornerSamples, fx: Scalar, fy: Scalar, height: Scalar|
        in_cell(fx, column) && in_cell(fy, row) && #[trigger] call_ensures(
            M::ground,
            (math, frame, column, row, samples, fx, fy),
            height,
        ) ==> !height.below(lo) && !hi.below(height)
}

/// Whether the last position that has a sample beyond it lies from zero to the
/// number of samples, for as many as 24 digits count.
pub open spec fn limits_positions<M: ScatterMath>(math: &M) -> bool {
    forall|count: u32, limit: Scalar| #[trigger]
        call_ensures(M::inner_limit, (math, count), limit) && 2 <= count <= 0x100_0000
            ==> !limit.nan() && 0 <= limit.scaled() <= count * pow2(149)
}

proof fn lemma_inner_lies_in_its_cell<M: ScatterMath>(
    math: &M,
    ratio: Scalar,
    count: u32,
    position: Scalar,
)
    requires
        limits_positions(math),
        2 <= count <= 0x100_0000,
        crate::detail::is_inner(math, ratio, count, position),
    ensures
        0 <= position.truncated() <= u32::MAX,
        in_cell(position, position.truncated() as u32),
{
    if !position.nan() {
        let unit = pow2(149) as int;
        let p = position.scaled();
        let whole = p / unit;
        lemma_pow2_pos(149);
        assert((Scalar { bits: ZERO }).scaled() == 0);
        assert(0 <= count * unit) by (nonlinear_arith)
            requires
                unit > 0,
        ;
        assert(0 <= p <= count * unit);
        assert(0 <= whole <= count && whole * unit <= p < (whole + 1) * unit) by (nonlinear_arith)
            requires
                0 <= p <= count * unit,
                unit > 0,
                whole == p / unit,
        ;
    }
}

/// A sampled height stays from `lo` to `hi` wherever interpolation within a
/// cell does: within the height range, or within what rounding adds to it.
pub proof fn heights_stay_within<M: ScatterMath>(
    math: &M,
    item: &TerrainItem,
    u: Scalar,
    v: Scalar,
    height: Scalar,
    lo: Scalar,
    hi: Scalar,
)
    requires
        limits_positions(math),
        keeps_within(math, item.placement(), lo, hi),
        2 <= item.dims@[0] <= 0x100_0000,
        2 <= item.dims@[1] <= 0x100_0000,
        crate::detail::is_ground(math, item, u, v, height),
    ensures
        !height.below(lo),
        !hi.below(height),
{
    let (fx, fy) = choose|fx: Scalar, fy: Scalar|
        {
            &&& #[trigger] crate::detail::is_inner(math, u, item.dims@[0], fx)
            &&& #[trigger] crate::detail::is_inner(math, v, item.dims@[1], fy)
            &&& crate::detail::reads_at(math, item, fx, fy, height)
        };
    lemma_inner_lies_in_its_cell(math, u, item.dims@[0], fx);
    lemma_inner_lies_in_its_cell(math, v, item.dims@[1], fy);
}

/// A sampled height stays within the height range where interpolation within a
/// cell does.
pub proof fn heights_stay_within_the_range<M: ScatterMath>(
    math: &M,
    item: &TerrainItem,
    u: Scalar,
    v: Scalar,
    height: Scalar,
)
    requires
        limits_positions(math),
        keeps_within(
            math,
            item.placement(),
            item.height_range@[0],
            item.height_range@[1],
        ),
        2 <= item.dims@[0] <= 0x100_0000,
        2 <= item.dims@[1] <= 0x100_0000,
        crate::detail::is_ground(math, item, u, v, height),
    ensures
        !height.below(item.height_range@[0]),
        !item.height_range@[1].below(height),
{
    heights_stay_within(
        math,
        item,
        u,
        v,
        height,
        item.height_range@[0],
        item.height_range@[1],
    );
}

/// Whether the coordinate zero lies on the first texel or sample, and the last
/// position with one beyond it is not below zero.
pub open spec fn starts_at_zero<M: ScatterMath>(math: &M) -> bool {
    &&& forall|count: u32, position: Scalar| #[trigger]
        call_ensures(M::stretch, (math, Scalar { bits: ZERO }, count), position) && count >= 1
            ==> position == (Scalar { bits: ZERO })
    &&& forall|count: u32, limit: Scalar| #[trigger]
        call_ensures(M::inner_limit, (math, count), limit) && count >= 2 ==> !limit.below(
            Scalar { bits: ZERO },
        )
}

/// Whether interpolation at the first corner of a cell gives the height that
/// `remap` gives its sample.
pub open spec fn meets_samples<M: ScatterMath>(
    math: &M,
    remap: spec_fn(GridFrame, u16) -> Scalar,
) -> bool {
    let zero = Scalar { bits: ZERO };
    forall|frame: GridFrame, samples: CornerSamples, height: Scalar| #[trigger]
        call_ensures(M::ground, (math, frame, 0u32, 0u32, samples, zero, zero), height) ==> height
            == remap(frame, samples.s00)
}

/// The height at the coordinates zero is that of the first sample.
pub proof fn first_height_is_the_first_sample<M: ScatterMath>(
    math: &M,
    item: &TerrainItem,
    height: Scalar,
    remap: spec_fn(GridFrame, u16) -> Scalar,
)
    requires
        starts_at_zero(math),
        meets_samples(math, remap),
        item.dims@[0] >= 2,
        item.dims@[1] >= 2,
        crate::detail::is_ground(
            math,
            item,
            Scalar { bits: ZERO },
            Scalar { bits: ZERO },
            height,
        ),
    ensures
        height == remap(item.placement(), item.samples()[0]),
{
    let zero = Scalar { bits: ZERO };
    let (fx, fy) = choose|fx: Scalar, fy: Scalar|
        {
            &&& #[trigger] crate::detail::is_inner(math, zero, item.dims@[0], fx)
            &&& #[trigger] crate::detail::is_inner(math, zero, item.dims@[1], fy)
            &&& crate::detail::reads_at(math, item, fx, fy, height)
        };
    crate::scalar::zero_is_below_one();
    assert(zero.limited(zero, Scalar { bits: ONE }) == zero);
    assert(fx == zero && fy == zero);
    lemma_zero_truncates_to_zero();
    assert(crate::mesh::sample_index(item.dims, 0, 0) == 0) by {
        assert(0 * item.dims@[0] == 0);
    }
}

proof fn lemma_zero_truncates_to_zero()
    ensures
        (Scalar { bits: ZERO }).truncated() == 0,
{
    lemma_pow2_pos(149);
    assert((Scalar { bits: ZERO }).scaled() == 0);
    assert(0int / (pow2(149) as int) == 0);
}

/// Whether the coordinate one lies on the last of as many texels as 24 digits
/// count.
pub open spec fn ends_at_one<M: ScatterMath>(math: &M) -> bool {
    forall|count: u32, position: Scalar| #[trigger]
        call_ensures(M::stretch, (math, Scalar { bits: ONE }, count), position) && 1 <= count
            < 0x100_0000 ==> position.truncated() == count - 1
}

/// Whether the splatmaps of an item hold packed weights.
pub open spec fn holds_packed(item: &TerrainItem, per_layer: Seq<Vec<u8>>, dims: [u32; 2]) -> bool {
    forall|map: int|
        0 <= map < 2 ==> (#[trigger] item.splatmaps@[map])@.dims == dims
            && item.splatmaps@[map]@.rgba == crate::item::interleaved(
            per_layer,
            4 * map,
            crate::item::texel_count(dims),
        )
}

pub(crate) proof fn lemma_kept_above_zero(position: Scalar)
    ensures
        position.larger(Scalar { bits: ZERO }).truncated() == position.truncated(),
{
    lemma_zero_truncates_to_zero();
    assert((Scalar { bits: ZERO }).scaled() == 0);
}

proof fn lemma_packed_weight<M: ScatterMath>(
    math: &M,
    item: &TerrainItem,
    per_layer: Seq<Vec<u8>>,
    dims: [u32; 2],
    layer: usize,
    u: Scalar,
    v: Scalar,
    weight: Scalar,
) -> (at: (Scalar, Scalar))
    requires
        holds_packed(item, per_layer, dims),
        dims@[0] >= 1,
        dims@[1] >= 1,
        layer < LAYER_COUNT,
        crate::detail::is_splat_weight(math, item, u, v, layer, weight),
    ensures
        call_ensures(
            M::stretch,
            (math, u.limited(Scalar { bits: ZERO }, Scalar { bits: ONE }), dims@[0]),
            at.0,
        ),
        call_ensures(
            M::stretch,
            (math, v.limited(Scalar { bits: ZERO }, Scalar { bits: ONE }), dims@[1]),
            at.1,
        ),
        weight == crate::scalar::over_255(
            if layer < per_layer.len() {
                per_layer[layer as int]@[crate::detail::texel_at(at.1, dims@[1]) * dims@[0]
                    + crate::detail::texel_at(at.0, dims@[0])]
            } else {
                0u8
            },
        ),
{
    let zero = Scalar { bits: ZERO };
    let one = Scalar { bits: ONE };
    let map = item.splatmaps@[(layer / 4) as int]@;
    let (gx, gy) = choose|gx: Scalar, gy: Scalar|
        {
            &&& #[trigger] call_ensures(M::stretch, (math, u.limited(zero, one), map.dims@[0]), gx)
            &&& #[trigger] call_ensures(M::stretch, (math, v.limited(zero, one), map.dims@[1]), gy)
            &&& crate::detail::is_texel_weight(
                map,
                (layer % 4) as int,
                gx.larger(zero),
                gy.larger(zero),
                weight,
            )
        };
    lemma_kept_above_zero(gx);
    lemma_kept_above_zero(gy);
    let packed = crate::item::SplatmapView {
        rgba: crate::item::interleaved(
            per_layer,
            4 * (layer as int / 4),
            crate::item::texel_count(dims),
        ),
        dims,
        version: 0,
    };
    assert(packed.rgba == map.rgba && packed.dims == map.dims);
    assert(crate::detail::is_texel_weight(
        packed,
        layer as int % 4,
        gx.larger(zero),
        gy.larger(zero),
        weight,
    ));
    crate::detail::packed_weight_is_sampled(
        per_layer,
        dims,
        layer as int,
        gx.larger(zero),
        gy.larger(zero),
        weight,
    );
    (gx, gy)
}

/// Weights that were packed into the splatmaps are read back at the first
/// corner: the weight of a layer there is its first byte over 255.
pub proof fn packed_weights_are_sampled_at_the_first_corner<M: ScatterMath>(
    math: &M,
    item: &TerrainItem,
    per_layer: Seq<Vec<u8>>,
    dims: [u32; 2],
    layer: usize,
    weight: Scalar,
)
    requires
        starts_at_zero(math),
        holds_packed(item, per_layer, dims),
        dims@[0] >= 1,
        dims@[1] >= 1,
        layer < LAYER_COUNT,
        layer < per_layer.len(),
        crate::detail::is_splat_weight(
            math,
            item,
            Scalar { bits: ZERO },
            Scalar { bits: ZERO },
            layer,
            weight,
        ),
    ensures
        weight == crate::scalar::over_255(per_layer[layer as int]@[0]),
{
    let zero = Scalar { bits: ZERO };
    crate::scalar::zero_is_below_one();
    let at = lemma_packed_weight(math, item, per_layer, dims, layer, zero, zero, weight);
    assert(zero.limited(zero, Scalar { bits: ONE }) == zero);
    lemma_zero_truncates_to_zero();
    assert(at.0 == zero && at.1 == zero);
    assert(0 * dims@[0] + 0 == 0);
}

/// Weights that were packed into the splatmaps are read back at the last corner:
/// the weight of a layer there is its last byte over 255.
pub proof fn packed_weights_are_sampled_at_the_last_corner<M: ScatterMath>(
    math: &M,
    item: &TerrainItem,
    per_layer: Seq<Vec<u8>>,
    dims: [u32; 2],
    layer: usize,
    weight: Scalar,
)
    requires
        ends_at_one(math),
        holds_packed(item, per_layer, dims),
        1 <= dims@[0] < 0x100_0000,
        1 <= dims@[1] < 0x100_0000,
        layer < LAYER_COUNT,
        layer < per_layer.len(),
        crate::detail::is_splat_weight(
            math,
            item,
            Scalar { bits: ONE },
            Scalar { bits: ONE },
            layer,
            weight,
        ),
    ensures
        weight == crate::scalar::over_255(
            per_layer[layer as int]@[crate::item::texel_count(dims) - 1],
        ),
{
    let one = Scalar { bits: ONE };
    crate::scalar::zero_is_below_one();
    let at = lemma_packed_weight(math, item, per_layer, dims, layer, one, one, weight);
    assert(one.limited(Scalar { bits: ZERO }, one) == one);
    let w = dims@[0] as int;
    let h = dims@[1] as int;
    assert((h - 1) * w + (w - 1) == w * h - 1) by (nonlinear_arith);
}

/// A layer that was not given, or that there is no channel for, has the weight
/// zero everywhere.
pub proof fn other_layers_have_no_weight<M: ScatterMath>(
    math: &M,
    item: &TerrainItem,
    per_layer: Seq<Vec<u8>>,
    dims: [u32; 2],
    layer: usize,
    u: Scalar,
    v: Scalar,
    weight: Scalar,
)
    requires
        holds_packed(item, per_layer, dims),
        dims@[0] >= 1,
        dims@[1] >= 1,
        layer >= per_layer.len() || layer >= LAYER_COUNT,
        crate::detail::is_splat_weight(math, item, u, v, layer, weight),
    ensures
        weight == (Scalar { bits: ZERO }),
{
    if layer < LAYER_COUNT {
        let at = lemma_packed_weight(math, item, per_layer, dims, layer, u, v, weight);
    }
}

} // verus!
