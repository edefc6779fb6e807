use terrain::item::NOT_PICKABLE;
use terrain::mesh::Cell;
use terrain::pick::{
    accept_fit, clip_span, nearer_hit, pick_heightmap, ray_aabb_entry, step_of, walk_grid,
    CornerHeights, CpuHeightmap, GroundAxis, PickRay, RayMath, RaySpan, Stride,
    TriangleFit, Walk,
};
use terrain::scalar::{Scalar, Vec3};

struct FloatMath;

fn s(x: f32) -> Scalar {
    Scalar::from_bits(x.to_bits())
}

fn f(x: Scalar) -> f32 {
    f32::from_bits(x.bits)
}

fn vec(v: Vec3) -> glam::Vec3 {
    glam::Vec3::new(f(v.x), f(v.y), f(v.z))
}

fn bits(v: glam::Vec3) -> Vec3 {
    Vec3 { x: s(v.x), y: s(v.y), z: s(v.z) }
}

fn spacing(axis: &GroundAxis) -> f32 {
    f(axis.extent) / (axis.samples - 1) as f32
}

impl RayMath for FloatMath {
    fn unit(&self, direction: Vec3) -> Vec3 {
        bits(vec(direction).normalize())
    }

    fn sum(&self, a: Scalar, b: Scalar) -> Scalar {
        s(f(a) + f(b))
    }

    fn crossing(&self, edge: Scalar, origin: Scalar, direction: Scalar) -> Scalar {
        s((f(edge) - f(origin)) * (1.0 / f(direction)))
    }

    fn point(&self, origin: Vec3, direction: Vec3, t: Scalar) -> Vec3 {
        bits(vec(origin) + vec(direction) * f(t))
    }

    fn in_cells(&self, axis: GroundAxis, position: Scalar) -> Scalar {
        s((f(position) - f(axis.start)) / spacing(&axis))
    }

    fn line_crossing(
        &self,
        axis: GroundAxis,
        line: i32,
        origin: Scalar,
        direction: Scalar,
    ) -> Scalar {
        s((f(axis.start) + line as f32 * spacing(&axis) - f(origin)) / f(direction))
    }

    fn line_spacing(&self, axis: GroundAxis, direction: Scalar) -> Scalar {
        s(spacing(&axis) / f(direction).abs())
    }

    fn near_edge(&self, axis: GroundAxis, line: i32) -> Scalar {
        s(f(axis.start) + line as f32 * spacing(&axis))
    }

    fn far_edge(&self, axis: GroundAxis, near: Scalar) -> Scalar {
        s(f(near) + spacing(&axis))
    }

    fn fit(&self, origin: Vec3, direction: Vec3, a: Vec3, b: Vec3, c: Vec3) -> TriangleFit {
        let (e1, e2) = (vec(b) - vec(a), vec(c) - vec(a));
        let h = vec(direction).cross(e2);
        let det = e1.dot(h);
        let inv = 1.0 / det;
        let from = vec(origin) - vec(a);
        let u = inv * from.dot(h);
        let q = from.cross(e1);
        let v = inv * vec(direction).dot(q);
        let t = inv * e2.dot(q);
        TriangleFit { det: s(det), u: s(u), v: s(v), sum: s(u + v), t: s(t) }
    }

    fn face_normal(&self, a: Vec3, b: Vec3, c: Vec3) -> Vec3 {
        bits((vec(b) - vec(a)).cross(vec(c) - vec(a)).normalize_or_zero())
    }
}

fn v3(x: f32, y: f32, z: f32) -> Vec3 {
    Vec3 { x: s(x), y: s(y), z: s(z) }
}

/// A heightmap with cells of one unit, its first sample at the given corner.
fn ground(w: u32, h: u32, corner: (f32, f32), height: impl Fn(u32, u32) -> f32) -> CpuHeightmap {
    let cells = (0..h).flat_map(|y| (0..w).map(move |x| (x, y)));
    CpuHeightmap {
        heights: cells.map(|(x, y)| s(height(x, y))).collect(),
        x: GroundAxis { start: s(corner.0), extent: s((w as f32) - 1.0), samples: w },
        y: GroundAxis { start: s(corner.1), extent: s((h as f32) - 1.0), samples: h },
    }
}

fn ray(origin: [f32; 3], direction: [f32; 3]) -> PickRay {
    PickRay {
        origin: v3(origin[0], origin[1], origin[2]),
        direction: v3(direction[0], direction[1], direction[2]),
    }
}

#[test]
fn straight_down_onto_a_plain() {
    let cpu = ground(5, 5, (0.0, 0.0), |_, _| 2.0);
    let hit = pick_heightmap(&ray([1.25, 2.5, 12.0], [0.0, 0.0, -3.0]), &cpu, 9, &FloatMath)
        .unwrap();
    assert_eq!(f(hit.t), 10.0);
    assert_eq!(hit.id, 9);
    assert_eq!(hit.world_pos, v3(1.25, 2.5, 2.0));
    assert_eq!(vec(hit.normal), glam::Vec3::Z);
}

#[test]
fn what_cannot_be_picked_is_not() {
    let cpu = ground(5, 5, (0.0, 0.0), |_, _| 2.0);
    let down = ray([1.25, 2.5, 12.0], [0.0, 0.0, -1.0]);
    assert!(pick_heightmap(&down, &cpu, NOT_PICKABLE, &FloatMath).is_none());
    let line = ground(5, 1, (0.0, 0.0), |_, _| 2.0);
    assert!(pick_heightmap(&down, &line, 9, &FloatMath).is_none());
    let up = ray([1.25, 2.5, 12.0], [0.0, 0.0, 1.0]);
    assert!(pick_heightmap(&up, &cpu, 9, &FloatMath).is_none());
    let beside = ray([-1.0, 2.5, 12.0], [0.0, 0.0, -1.0]);
    assert!(pick_heightmap(&beside, &cpu, 9, &FloatMath).is_none());
    let away = ray([-1.0, 2.5, 12.0], [-1.0, 0.0, -1.0]);
    assert!(pick_heightmap(&away, &cpu, 9, &FloatMath).is_none());
}

#[test]
fn a_slanted_ray_enters_from_outside() {
    let cpu = ground(5, 5, (10.0, 20.0), |_, _| 0.0);
    let hit = pick_heightmap(&ray([6.0, 22.0, 6.0], [1.0, 0.0, -1.0]), &cpu, 1, &FloatMath)
        .unwrap();
    let at = vec(hit.world_pos);
    assert!((at - glam::Vec3::new(12.0, 22.0, 0.0)).length() < 1e-4);
    assert!((f(hit.t) - 6.0 * 2.0f32.sqrt()).abs() < 1e-4);
}

#[test]
fn the_first_slope_on_the_way_is_hit() {
    let cpu = ground(9, 3, (0.0, 0.0), |x, _| if x == 2 || x == 6 { 4.0 } else { 0.0 });
    let east = pick_heightmap(&ray([-1.0, 0.7, 2.0], [1.0, 0.0, 0.0]), &cpu, 1, &FloatMath);
    assert!((f(east.unwrap().world_pos.x) - 1.5).abs() < 1e-5);
    let west = pick_heightmap(&ray([20.0, 0.7, 2.0], [-1.0, 0.0, 0.0]), &cpu, 1, &FloatMath);
    assert!((f(west.unwrap().world_pos.x) - 6.5).abs() < 1e-5);
}

#[test]
fn walking_the_grid_agrees_with_testing_every_cell() {
    let cpu = ground(9, 7, (-3.0, 2.0), |x, y| ((x * 37 + y * 91) % 17) as f32 * 0.2);
    let mut seed: u32 = 99;
    let mut next = || {
        seed = seed.wrapping_mul(1664525).wrapping_add(1013904223);
        (seed >> 8) as f32 / (1 << 24) as f32
    };
    let mut hits = 0;
    for _ in 0..400 {
        let origin = [next() * 12.0 - 5.0, next() * 10.0, 5.0 + next() * 4.0];
        let direction = [next() * 2.0 - 1.0, next() * 2.0 - 1.0, -0.5 - 2.0 * next()];
        let picked = pick_heightmap(&ray(origin, direction), &cpu, 5, &FloatMath);
        let unit = FloatMath.unit(v3(direction[0], direction[1], direction[2]));
        let cast = PickRay { origin: v3(origin[0], origin[1], origin[2]), direction: unit };
        let mut best: Option<f32> = None;
        for y in 0..6 {
            for x in 0..8 {
                let cell = Cell { x, y };
                if let Some(t) = terrain::pick::intersect_cell(cast, cell, &cpu, &FloatMath) {
                    best = Some(best.map_or(f(t), |b| b.min(f(t))));
                }
            }
        }
        match (picked, best) {
            (Some(hit), Some(t)) => {
                assert!((f(hit.t) - t).abs() < 1e-3, "{origin:?} {direction:?}");
                assert!(f(hit.t) > 0.0);
                hits += 1;
            }
            (None, None) => {}
            other => panic!("{origin:?} {direction:?} {other:?}"),
        }
    }
    assert!(hits > 100);
}

#[test]
fn corners_carry_the_heights_of_their_samples() {
    let cpu = ground(4, 3, (10.0, 20.0), |x, y| (10 * y + x) as f32);
    let c = terrain::pick::cell_corners(Cell { x: 2, y: 1 }, &cpu, &FloatMath);
    assert_eq!(c.c00, v3(12.0, 21.0, 12.0));
    assert_eq!(c.c10, v3(13.0, 21.0, 13.0));
    assert_eq!(c.c01, v3(12.0, 22.0, 22.0));
    assert_eq!(c.c11, v3(13.0, 22.0, 23.0));
    let heights = cpu.heights_of(Cell { x: 2, y: 1 });
    let [h00, h10, h01, h11] = [12.0, 13.0, 22.0, 23.0].map(s);
    assert_eq!(heights, CornerHeights { h00, h10, h01, h11 });
    let down = ray([12.3, 21.4, 90.0], [0.1, 0.0, -1.0]);
    assert_eq!(
        pick_heightmap(&down, &cpu, 3, &FloatMath),
        pick_heightmap(&down, &cpu, 3, &FloatMath)
    );
}

#[test]
fn slabs_are_clipped_per_axis() {
    let x = GroundAxis { start: s(0.0), extent: s(4.0), samples: 5 };
    let entry = |o: [f32; 3], d: [f32; 3]| {
        ray_aabb_entry(v3(o[0], o[1], o[2]), v3(d[0], d[1], d[2]), x, x, &FloatMath).map(f)
    };
    assert_eq!(entry([2.0, 2.0, 9.0], [0.0, 0.0, -1.0]), Some(0.0));
    assert_eq!(entry([-3.0, 2.0, 9.0], [1.0, 0.0, 0.0]), Some(3.0));
    assert_eq!(entry([7.0, 2.0, 9.0], [-1.0, 0.0, 0.0]), Some(3.0));
    assert_eq!(entry([-3.0, 5.0, 9.0], [1.0, 0.0, 0.0]), None);
    assert_eq!(entry([-3.0, 2.0, 9.0], [-1.0, 0.0, 0.0]), None);
    assert_eq!(entry([-1.0, -3.0, 9.0], [1.0, 1.0, 0.0]), Some(3.0));
    assert_eq!(entry([4.5, 2.0, 9.0], [1e-10, 0.0, 1.0]), None);
}

#[test]
fn spans_shrink_and_vanish() {
    let span = RaySpan { t_min: s(1.0), t_max: s(5.0) };
    let rest = clip_span(span, s(4.0), s(2.0)).unwrap();
    assert_eq!((f(rest.t_min), f(rest.t_max)), (2.0, 4.0));
    assert!(clip_span(span, s(6.0), s(7.0)).is_none());
    assert!(clip_span(span, s(5.0), s(5.0)).is_some());
}

#[test]
fn triangles_are_hit_inside_and_in_front() {
    let fit = |det: f32, u: f32, v: f32, t: f32| {
        accept_fit(TriangleFit { det: s(det), u: s(u), v: s(v), sum: s(u + v), t: s(t) }).map(f)
    };
    assert_eq!(fit(1.0, 0.25, 0.25, 3.0), Some(3.0));
    assert_eq!(fit(-1.0, 1.0, 0.0, 3.0), Some(3.0));
    assert_eq!(fit(0.9e-8, 0.25, 0.25, 3.0), None);
    assert_eq!(fit(1.1e-8, 0.25, 0.25, 3.0), Some(3.0));
    assert_eq!(fit(1.0, -0.1, 0.25, 3.0), None);
    assert_eq!(fit(1.0, f32::NAN, 0.25, 3.0), None);
    assert_eq!(fit(1.0, 0.25, -0.1, 3.0), None);
    assert_eq!(fit(1.0, 0.75, 0.5, 3.0), None);
    assert_eq!(fit(1.0, 0.25, 0.25, 0.0), None);
    assert_eq!(fit(1.0, 0.25, 0.25, -1.0), None);
}

#[test]
fn the_nearer_hit_wins() {
    let near = |a: Option<f32>, b: Option<f32>| nearer_hit(a.map(s), b.map(s)).map(f);
    assert_eq!(near(Some(1.0), Some(2.0)), Some(1.0));
    assert_eq!(near(Some(2.0), Some(1.0)), Some(1.0));
    assert_eq!(near(None, Some(1.0)), Some(1.0));
    assert_eq!(near(Some(1.0), None), Some(1.0));
    assert_eq!(near(None, None), None);
}

#[test]
fn walks_step_along_the_nearer_crossing() {
    let walk = Walk { cell: Cell { x: 3, y: 4 }, t_max_x: s(1.0), t_max_y: s(2.0) };
    let stride = Stride { step_x: -1, step_y: 1, t_delta_x: s(5.0), t_delta_y: s(6.0) };
    let next = walk.advance(stride, s(6.0));
    assert_eq!(next.cell, Cell { x: 2, y: 4 });
    assert_eq!((f(next.t_max_x), f(next.t_max_y)), (6.0, 2.0));
    let after = next.advance(stride, s(8.0));
    assert_eq!(after.cell, Cell { x: 2, y: 5 });
    assert_eq!(step_of(s(0.5)), 1);
    assert_eq!(step_of(s(0.0)), -1);
    assert_eq!(step_of(s(-0.5)), -1);
}

#[test]
fn a_longer_budget_finds_nothing_more() {
    let cpu = ground(6, 6, (0.0, 0.0), |x, _| if x == 5 { 3.0 } else { 0.0 });
    let cast = ray([0.5, 0.5, 1.0], [1.0, 0.0, 0.0]);
    let (walk, stride) = terrain::pick::set_out(cast, &cpu, s(0.0), &FloatMath);
    assert_eq!(walk.cell, Cell { x: 0, y: 0 });
    let found = walk_grid(cast, &cpu, walk, stride, 24, &FloatMath);
    assert_eq!(found.unwrap().cell, Cell { x: 4, y: 0 });
    assert_eq!(walk_grid(cast, &cpu, walk, stride, 1000, &FloatMath), found);
    assert!(walk_grid(cast, &cpu, walk, stride, 3, &FloatMath).is_none());
}

#[test]
fn walks_may_set_out_beyond_the_edge() {
    let cpu = ground(6, 6, (0.0, 0.0), |x, _| if x == 5 { 3.0 } else { 0.0 });
    let cast = ray([-0.5, 0.5, 1.0], [1.0, 0.0, 0.0]);
    let walk = Walk { cell: Cell { x: -1, y: 0 }, t_max_x: s(0.5), t_max_y: s(f32::INFINITY) };
    let stride =
        Stride { step_x: 1, step_y: 1, t_delta_x: s(1.0), t_delta_y: s(f32::INFINITY) };
    let found = walk_grid(cast, &cpu, walk, stride, 24, &FloatMath);
    assert_eq!(found.unwrap().cell, Cell { x: 4, y: 0 });
    assert_eq!(walk_grid(cast, &cpu, walk, stride, 1000, &FloatMath), found);
}

#[test]
fn the_length_of_the_direction_does_not_matter() {
    let cpu = ground(9, 7, (-3.0, 2.0), |x, y| ((x * 37 + y * 91) % 17) as f32 * 0.2);
    let short = ray([-1.0, 4.0, 9.0], [0.25, 0.125, -1.0]);
    let long = ray([-1.0, 4.0, 9.0], [16.0, 8.0, -64.0]);
    assert_eq!(FloatMath.unit(short.direction), FloatMath.unit(long.direction));
    let hit = pick_heightmap(&short, &cpu, 5, &FloatMath);
    assert!(hit.is_some());
    assert_eq!(pick_heightmap(&long, &cpu, 5, &FloatMath), hit);
}
