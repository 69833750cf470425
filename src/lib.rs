//! A wireframe camera library: triangle meshes, the scene that holds them,
//! the line-oriented geometry format they are read from, and the rule that
//! decides which edges of a projected triangle are drawn.
pub mod polygon;
pub mod scene;
pub mod obj;
pub mod render;
