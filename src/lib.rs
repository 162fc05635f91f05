//! Turns the wall tiles of a tile-based level into a small set of
//! rectangular colliders.
//!
//! The work runs in stages: wall tiles are grouped by the level that owns
//! them ([`levels`]); each row of a level's grid is cut into maximal runs of
//! walls, its plates ([`plates`]); plates of the same extent in consecutive
//! rows are stacked into rectangles ([`rects`], [`pipeline`]); and each
//! rectangle gets a collider box in world units ([`collider`]). What the
//! rectangles make up together is stated and proved in [`laws`].

pub mod collider;
pub mod grid;
pub mod laws;
pub mod levels;
pub mod pipeline;
pub mod plates;
pub mod play;
pub mod rects;
