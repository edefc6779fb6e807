use terrain::item::GridFrame;
use terrain::mesh::{
    build_patch, collect_perimeter, vertex_layout, Cell, MeshMath, PatchMesh, VertexFormat,
    VertexSite,
};
use terrain::scalar::{Scalar, Vec2, Vec3};
use terrain::TerrainItem;

struct FloatMath;

fn s(x: f32) -> Scalar {
    Scalar::from_bits(x.to_bits())
}

fn f(x: Scalar) -> f32 {
    f32::from_bits(x.bits)
}

fn sample_height(frame: &GridFrame, sample: u16) -> f32 {
    let (lo, hi) = (f(frame.height_range[0]), f(frame.height_range[1]));
    lo + sample as f32 / u16::MAX as f32 * (hi - lo)
}

fn cell_size(frame: &GridFrame) -> (f32, f32) {
    (
        f(frame.world_size[0]) / (frame.dims[0] - 1) as f32,
        f(frame.world_size[1]) / (frame.dims[1] - 1) as f32,
    )
}

impl MeshMath for FloatMath {
    fn corner(&self, frame: GridFrame, cell: Cell) -> Vec2 {
        let (dx, dy) = cell_size(&frame);
        Vec2 {
            x: s(f(frame.origin.x) + cell.x as f32 * dx),
            y: s(f(frame.origin.y) + cell.y as f32 * dy),
        }
    }

    fn elevation(&self, frame: GridFrame, sample: u16) -> Scalar {
        s(f(frame.origin.z) + sample_height(&frame, sample))
    }

    fn texture(&self, frame: GridFrame, corner: Vec2) -> Vec2 {
        Vec2 {
            x: s((f(corner.x) - f(frame.origin.x)) / f(frame.world_size[0])),
            y: s((f(corner.y) - f(frame.origin.y)) / f(frame.world_size[1])),
        }
    }

    fn normal(&self, frame: GridFrame, site: VertexSite) -> Vec3 {
        let (dx, dy) = cell_size(&frame);
        let dzdx = (sample_height(&frame, site.east) - sample_height(&frame, site.west))
            / (2.0 * site.step as f32 * dx);
        let dzdy = (sample_height(&frame, site.north) - sample_height(&frame, site.south))
            / (2.0 * site.step as f32 * dy);
        let n = glam::Vec3::new(-dzdx, -dzdy, 1.0).normalize();
        Vec3 { x: s(n.x), y: s(n.y), z: s(n.z) }
    }

    fn lower(&self, height: Scalar, depth: Scalar) -> Scalar {
        s(f(height) - f(depth))
    }

    fn height(&self, frame: GridFrame, sample: u16) -> Scalar {
        let (lo, hi) = (f(frame.height_range[0]), f(frame.height_range[1]));
        s(f(frame.origin.z) + lo + (sample as f32 / u16::MAX as f32) * (hi - lo))
    }
}

/// A terrain whose cells are one unit wide and whose samples are its heights.
fn unit_terrain(w: u32, h: u32, height: impl Fn(u32, u32) -> u16) -> TerrainItem {
    let samples = (0..h).flat_map(|y| (0..w).map(move |x| (x, y))).map(|(x, y)| height(x, y));
    let mut item = TerrainItem::new(samples.collect(), [w, h]);
    item.world_size = [s((w - 1) as f32), s((h - 1) as f32)];
    item.height_range = [s(0.0), s(65535.0)];
    item
}

fn place(mesh: &PatchMesh, k: usize) -> [f32; 3] {
    let p = mesh.vertices[k].position;
    [f(p[0]), f(p[1]), f(p[2])]
}

#[test]
fn a_patch_is_a_grid_of_two_triangles_per_cell() {
    let item = unit_terrain(5, 5, |x, y| (10 * y + x) as u16);
    let mesh = build_patch(&item, [0, 0], 4, 0, s(0.0), &FloatMath);
    assert_eq!(mesh.vertices.len(), 25);
    assert_eq!(mesh.indices.len(), 96);
    assert_eq!(&mesh.indices[..12], &[0, 1, 6, 0, 6, 5, 1, 2, 7, 1, 7, 6]);
    assert_eq!(&mesh.indices[90..], &[18, 19, 24, 18, 24, 23]);
    assert_eq!(place(&mesh, 17), [2.0, 3.0, 32.0]);
    assert_eq!(mesh.vertices[24].uv, [s(1.0), s(1.0)]);
    assert_eq!([f(mesh.aabb_min.x), f(mesh.aabb_min.y), f(mesh.aabb_min.z)], [0.0, 0.0, 0.0]);
    assert_eq!([f(mesh.aabb_max.x), f(mesh.aabb_max.y), f(mesh.aabb_max.z)], [4.0, 4.0, 44.0]);
}

#[test]
fn coarser_levels_skip_samples() {
    let item = unit_terrain(9, 9, |x, y| (10 * y + x) as u16);
    let mesh = build_patch(&item, [0, 0], 8, 2, s(0.0), &FloatMath);
    assert_eq!(mesh.vertices.len(), 9);
    assert_eq!(place(&mesh, 5), [8.0, 4.0, 48.0]);
    let coarsest = build_patch(&item, [0, 0], 8, 8, s(0.0), &FloatMath);
    assert_eq!(coarsest.vertices.len(), 4);
    assert_eq!(place(&coarsest, 3), [8.0, 8.0, 88.0]);
    let beyond = build_patch(&item, [0, 0], 8, 40, s(0.0), &FloatMath);
    assert_eq!(beyond.vertices, coarsest.vertices);
}

#[test]
fn a_skirt_hangs_from_the_perimeter() {
    let item = unit_terrain(3, 3, |_, _| 100);
    let mesh = build_patch(&item, [0, 0], 2, 0, s(2.5), &FloatMath);
    assert_eq!(collect_perimeter(2), vec![0, 1, 2, 5, 8, 7, 6, 3]);
    assert_eq!(mesh.vertices.len(), 9 + 8);
    assert_eq!(mesh.indices.len(), 24 + 48);
    assert_eq!(place(&mesh, 9 + 3), [2.0, 1.0, 97.5]);
    assert_eq!(mesh.vertices[9 + 3].normal, mesh.vertices[5].normal);
    assert_eq!(&mesh.indices[24..30], &[0, 9, 1, 1, 9, 10]);
    assert_eq!(&mesh.indices[66..], &[3, 16, 0, 0, 16, 9]);
    assert_eq!(f(mesh.aabb_min.z), 97.5);
    assert_eq!(f(mesh.aabb_max.z), 100.0);
    assert!(mesh.indices.iter().all(|&i| (i as usize) < mesh.vertices.len()));
}

#[test]
fn no_skirt_without_a_depth() {
    let item = unit_terrain(3, 3, |_, _| 0);
    for depth in [0.0, -1.0, f32::NAN] {
        let mesh = build_patch(&item, [0, 0], 2, 0, s(depth), &FloatMath);
        assert_eq!(mesh.vertices.len(), 9);
    }
}

#[test]
fn normals_come_from_central_differences() {
    let item = unit_terrain(5, 5, |x, _| (2 * x) as u16);
    let mesh = build_patch(&item, [0, 0], 4, 0, s(0.0), &FloatMath);
    let n = glam::Vec3::new(-2.0, -0.0, 1.0).normalize();
    assert_eq!(mesh.vertices[12].normal, [s(n.x), s(n.y), s(n.z)]);
    let edge = glam::Vec3::new(-1.0, -0.0, 1.0).normalize();
    assert_eq!(mesh.vertices[10].normal, [s(edge.x), s(edge.y), s(edge.z)]);
}

#[test]
fn the_last_patches_are_clipped_to_the_heightmap() {
    let item = unit_terrain(4, 4, |x, y| (10 * y + x) as u16);
    let mesh = build_patch(&item, [2, 0], 2, 0, s(0.0), &FloatMath);
    assert_eq!(place(&mesh, 0), [2.0, 0.0, 2.0]);
    assert_eq!(place(&mesh, 1), [3.0, 0.0, 3.0]);
    assert_eq!(place(&mesh, 2), [3.0, 0.0, 3.0]);
    assert_eq!(f(mesh.aabb_max.x), 3.0);
    assert_eq!(f(mesh.aabb_max.y), 2.0);
    let far = build_patch(&item, [2, 2], 2, 0, s(0.0), &FloatMath);
    for k in 0..far.vertices.len() {
        let [x, y, _] = place(&far, k);
        assert!((0.0..=3.0).contains(&x) && (0.0..=3.0).contains(&y));
    }
}

#[test]
fn neighbours_are_watertight() {
    let item = unit_terrain(9, 9, |x, y| (7 * x * x + 3 * y) as u16);
    for lod in 0..3u32 {
        let cells = 4 >> lod;
        let left = build_patch(&item, [0, 4], 4, lod, s(1.0), &FloatMath);
        let right = build_patch(&item, [4, 4], 4, lod, s(1.0), &FloatMath);
        for y in 0..=cells {
            let (a, b) = (y * (cells + 1) + cells, y * (cells + 1));
            assert_eq!(left.vertices[a], right.vertices[b]);
        }
    }
}

#[test]
fn neighbours_of_any_size_are_watertight() {
    let item = unit_terrain(60, 60, |x, y| (7 * x * x + 3 * y * y) as u16);
    for patch_cells in [1, 3, 5, 20, 27] {
        for lod in 0..9u32 {
            let patch = build_patch(&item, [0, 0], patch_cells, lod, s(0.0), &FloatMath);
            let right = build_patch(&item, [patch_cells, 0], patch_cells, lod, s(0.0), &FloatMath);
            let above = build_patch(&item, [0, patch_cells], patch_cells, lod, s(0.0), &FloatMath);
            let cells = ((patch_cells >> lod) as usize).max(1);
            for k in 0..=cells {
                let column = k * (cells + 1);
                assert_eq!(patch.vertices[column + cells], right.vertices[column]);
                assert_eq!(patch.vertices[cells * (cells + 1) + k], above.vertices[k]);
            }
            assert_eq!(f(patch.vertices[cells].position[0]), patch_cells as f32);
        }
    }
}

#[test]
fn coarser_levels_move_no_vertex() {
    let item = unit_terrain(40, 40, |x, y| (11 * x + 5 * y * y) as u16);
    for patch_cells in [16usize, 21, 32] {
        let fine = build_patch(&item, [2, 3], patch_cells as u32, 0, s(0.0), &FloatMath);
        for lod in 1..6usize {
            let coarse =
                build_patch(&item, [2, 3], patch_cells as u32, lod as u32, s(0.0), &FloatMath);
            let cells = (patch_cells >> lod).max(1);
            let offset = |g: usize| if g == cells { patch_cells } else { g << lod };
            for gy in 0..=cells {
                for gx in 0..=cells {
                    let kept = coarse.vertices[gy * (cells + 1) + gx];
                    let full = fine.vertices[offset(gy) * (patch_cells + 1) + offset(gx)];
                    assert_eq!(kept.position, full.position);
                    assert_eq!(kept.uv, full.uv);
                }
            }
        }
    }
}

#[test]
fn a_skirt_changes_nothing_else() {
    let item = unit_terrain(12, 12, |x, y| (13 * x + 7 * y) as u16);
    let bare = build_patch(&item, [0, 0], 7, 1, s(0.0), &FloatMath);
    let skirted = build_patch(&item, [0, 0], 7, 1, s(4.0), &FloatMath);
    let (n, k) = (bare.vertices.len(), bare.indices.len());
    assert_eq!(skirted.vertices[..n], bare.vertices[..]);
    assert_eq!(skirted.indices[..k], bare.indices[..]);
    for (i, top) in collect_perimeter(3).into_iter().enumerate() {
        let [x, y, z] = place(&bare, top as usize);
        assert_eq!(place(&skirted, n + i), [x, y, z - 4.0]);
    }
    assert_eq!(f(skirted.aabb_min.z), f(bare.aabb_min.z) - 4.0);
    assert_eq!(skirted.aabb_max, bare.aabb_max);
}

#[test]
fn the_perimeter_is_walked_once() {
    for cells in 1..6u32 {
        let ring = collect_perimeter(cells);
        let mut sorted = ring.clone();
        sorted.sort();
        sorted.dedup();
        assert_eq!(sorted.len(), ring.len());
        assert_eq!(ring.len(), 4 * cells as usize);
        for i in 0..ring.len() {
            let (a, b) = (ring[i], ring[(i + 1) % ring.len()]);
            let (ax, ay) = (a % (cells + 1), a / (cells + 1));
            let (bx, by) = (b % (cells + 1), b / (cells + 1));
            assert_eq!(ax.abs_diff(bx) + ay.abs_diff(by), 1);
        }
    }
}

#[test]
fn buffers_hold_the_words_of_the_mesh() {
    let item = unit_terrain(3, 3, |x, y| (x * 300 + y) as u16);
    let mesh = build_patch(&item, [0, 0], 2, 0, s(1.0), &FloatMath);
    let mut vertices: Vec<u8> = Vec::new();
    for vertex in &mesh.vertices {
        let words = vertex.position.iter().chain(&vertex.normal).chain(&vertex.uv);
        vertices.extend(words.flat_map(|w| f(*w).to_ne_bytes()));
    }
    assert_eq!(mesh.vertex_bytes(), vertices);
    let indices: Vec<u8> = mesh.indices.iter().flat_map(|i| i.to_ne_bytes()).collect();
    assert_eq!(mesh.index_bytes(), indices);
}

#[test]
fn the_vertex_layout_has_no_gaps() {
    let layout = vertex_layout();
    assert_eq!(layout.array_stride, 32);
    let offsets: Vec<u64> = layout.attributes.iter().map(|a| a.offset).collect();
    assert_eq!(offsets, vec![0, 12, 24]);
    assert_eq!(layout.attributes[0].format, VertexFormat::Float32x3);
    assert_eq!(layout.attributes[1].format, VertexFormat::Float32x3);
    assert_eq!(layout.attributes[2].format, VertexFormat::Float32x2);
    let locations: Vec<u32> = layout.attributes.iter().map(|a| a.shader_location).collect();
    assert_eq!(locations, vec![0, 1, 2]);
}

#[test]
fn the_box_holds_every_height() {
    let item = unit_terrain(6, 6, |x, y| ((x * 131 + y * 977) % 500) as u16);
    let mesh = build_patch(&item, [0, 0], 4, 0, s(3.0), &FloatMath);
    for k in 0..mesh.vertices.len() {
        let z = place(&mesh, k)[2];
        assert!(f(mesh.aabb_min.z) <= z && z <= f(mesh.aabb_max.z));
    }
}
