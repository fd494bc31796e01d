//! A bounding-volume hierarchy of massive bodies in the plane, and the
//! Barnes–Hut selection of the point masses that act on a body.
pub mod aabb;
pub mod data;
pub mod bvh;
pub mod force;
