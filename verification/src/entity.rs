use vstd::prelude::*;

verus! {

use crate::geom::GridPoint;
use crate::values::Code;
use crate::values::Point;
use crate::slice::ring_in_slice_bounds;

/// Kind of one geometry entry.  Only the polygonal kinds are sliceable;
/// curves and points are rejected by the pipeline as unsupported input.
#[derive(Debug, Clone, Copy, PartialEq, Eq, Structural)]
pub enum GeometryType {
    Solid,
    Surface,
    Triangle,
    Curve,
    Point,
}

/// One geometry entry of a feature: a kind and an index range into the
/// shared multipolygon store.
#[derive(Debug, Clone, Copy, PartialEq, Eq, Structural)]
pub struct GeometryRef {
    pub ty: GeometryType,
    pub pos: u32,
    pub len: u32,
}

/// One polygon of the store: its rings, in fixed-point plane coordinates
/// (see `geom::GridPoint`); ring 0 is the exterior.
#[derive(Debug, Clone, PartialEq, Eq)]
pub struct StoredPolygon {
    pub rings: Vec<Vec<GridPoint>>,
}

/// The shared, read-only polygon store that geometry entries index into.
#[derive(Debug, Clone, PartialEq, Eq)]
pub struct GeometryStore {
    pub multipolygon: Vec<StoredPolygon>,
}

/// A plain attribute value.  The slicing pipeline never inspects
/// attribute payloads, so attribute trees are modelled one level deep:
/// an object's attributes map names to plain values or arrays of them.
#[derive(Debug, Clone, PartialEq, Eq)]
pub enum AttrValue {
    String(String),
    Code(Code),
    Integer(i64),
    NonNegativeInteger(u64),
    Boolean(bool),
    Point(Point),
}

/// The root of a feature's attribute tree.
pub enum Value {
    String(String),
    Code(Code),
    Integer(i64),
    NonNegativeInteger(u64),
    Boolean(bool),
    Point(Point),
    Array(Vec<AttrValue>),
    Object(Object),
}

/// What an object stands for: a feature carrying geometry, plain data, or
/// a generic object.
pub enum ObjectStereotype {
    Feature { id: String, geometries: Vec<GeometryRef> },
    Data,
    Object { id: String },
}

pub struct Object {
    pub typename: String,
    pub stereotype: ObjectStereotype,
    pub attributes: Vec<(String, AttrValue)>,
}

/// A city object: its attribute tree and the geometry store the tree's
/// geometry entries point into.  The store is read-only for the lifetime
/// of a pipeline run; sharing it between workers is the caller's concern.
pub struct Entity {
    pub root: Value,
    pub geometry_store: GeometryStore,
}

/// Every geometry entry's range lies inside the store, and every stored
/// coordinate is within the slicer's bounds.
pub open spec fn wf_entity(e: Entity) -> bool {
    &&& (e.root matches Value::Object(o) ==> (o.stereotype matches ObjectStereotype::Feature {
        geometries, .. } ==> forall|i: int|
        0 <= i < geometries@.len() ==> (#[trigger] geometries@[i]).pos + geometries@[i].len
            <= e.geometry_store.multipolygon@.len()))
    &&& forall|p: int, r: int|
        0 <= p < e.geometry_store.multipolygon@.len() && 0 <= r
            < e.geometry_store.multipolygon@[p].rings@.len() ==> ring_in_slice_bounds(
            (#[trigger] e.geometry_store.multipolygon@[p].rings@[r])@,
        )
}

} // verus!
