//! Label points for GeoJSON documents: every polygon is replaced by one
//! point inside it and every multipolygon by the multipoint of the points of
//! its polygons, while features, members and nesting are kept. The points
//! themselves come from a pole finder outside this crate; the library lists
//! the polygons it must be run on, counts them, applies the policy on other
//! geometries, splices the points back in order, and turns any document into
//! a feature collection.

pub mod dispatch;
pub mod document;
pub mod engine;
pub mod geometry;
pub mod laws;
pub mod traverse;
