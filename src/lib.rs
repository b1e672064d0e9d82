//! Two canvas demos as verified logic: a recursively subdivided triangle
//! fractal and an atlas-driven sprite animation. Both record what they draw
//! as a list of drawing operations, which the host replays on its surface.

pub mod animator;
pub mod atlas;
pub mod fractal;
pub mod geometry;
pub mod surface;
