//! Verified core of a ray tracer.
//!
//! The crate holds the parts of the rendering pipeline that are exact and
//! combinatorial: the point/vector role algebra carried in a tuple's `w`
//! component, intersection records ordered by an integer key, hit selection,
//! and the medium bookkeeping that drives refraction. Callers supply the
//! numeric geometry and hand the results in as plain values.

/// The role algebra for spatial tuples: points, vectors, and the invalid
/// role that arises from meaningless combinations such as point + point.
pub mod spatial;

/// The earlier, standalone form of the spatial role marker.
pub mod spatial_identifier;

/// Intersection records, hit selection, ordering, and the medium
/// bookkeeping that drives refraction.
pub mod intersections;

/// The discrete selection rules of the procedural patterns.
pub mod patterns;
