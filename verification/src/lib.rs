//! Heightmap and splatmap terrain: patch meshes with levels of detail, culling,
//! draw lists, CPU ray picking and detail scatter.
//!
//! Numbers are binary32 bit patterns ([`scalar::Scalar`]). Comparisons and
//! roundings are done here; formulas come from the host through the traits
//! [`mesh::MeshMath`], [`pick::RayMath`], [`plugin::Viewpoint`] and
//! [`detail::ScatterMath`].
use vstd::prelude::*;

pub mod aim;
pub mod bake;
pub mod detail;
pub mod item;
pub mod meadow;
pub mod mesh;
pub mod numbers;
pub mod pick;
pub mod placement;
pub mod plugin;
pub mod sampling;
pub mod scalar;
pub mod sight;
pub mod surface;
pub mod trusted;
pub mod upkeep;

pub use detail::{
    scatter_terrain_details, DetailKind, DetailLayer, DetailScatterOutput, DetailScatterParams,
};
pub use item::{SplatmapData, TerrainCollection, TerrainItem, TerrainLayer, LAYER_COUNT};
pub use plugin::TerrainPlugin;

verus! {

/// Stable name under which a host submits terrain items.
pub const TYPE_NAME: &'static str = "viewport-lib-terrain";

} // verus!
