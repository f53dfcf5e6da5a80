//! A tile-slicing and tile-assembly pipeline for 3D geospatial features:
//! polygon meshes are clipped against the quadtree of map tiles over a
//! range of zoom levels, tagged with locality-preserving 64-bit tile ids,
//! sorted out of core by tile, and handed to a tile encoder as grouped
//! per-tile batches.  The clipping, simplification, tile-id codec, record
//! grouping and the orchestrator's state machine are verified; disk
//! spilling rides on an external sorter behind a specified boundary.

pub mod entity;
pub mod feature;
pub mod geom;
pub mod gltf;
pub mod namespace;
pub mod pipeline;
pub mod slice;
pub mod sort;
pub mod texture;
pub mod tilemap;
pub mod tileid;
pub mod values;
