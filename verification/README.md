# terrain

Heightmap and splatmap terrain: patch meshes with levels of detail and skirts,
patch culling, draw lists, CPU ray picking against the heightmap, and detail
scatter (grass, trees, props).

- `src/` is the library, verified with Verus. `scalar` models binary32 numbers as
  bit patterns, `item` holds what a host submits, `mesh` builds patches, `bake`
  cuts a terrain into patches and makes it ready for upload, `pick` intersects
  rays, `plugin` decides per frame what is baked, uploaded, seen, drawn and
  picked, `detail` scatters instances, `placement` states what holds of them
  from frame to frame, `sampling` what holds of the samples they are made from.
  `trusted` holds the two calls whose results are taken on trust.
- `app/` connects the library to `viewport_lib` and `wgpu`: device objects,
  single-precision formulas, and conversions between the renderer's types and
  the library's.
- `tests/` runs the library with single-precision formulas.

The library compares, limits and rounds numbers itself. Formulas (positions,
normals, ray parameters, distances) are methods of the traits `MeshMath`,
`RayMath`, `Viewpoint` and `ScatterMath`. The contracts assume nothing about
them: they say which formula is applied to what, and what is decided from its
result. Laws that compare the results of two calls speak of formulas that give
one result for the same arguments (`repeats`). Laws that need a formula to be
exact, or to stay within bounds, name that as their premise.
