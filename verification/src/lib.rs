//! Line-art rendering of 3D scenes: the decisions of the visibility pipeline.
//!
//! A scene is drawn as polylines. Each 3D path of a shape is clipped against the
//! camera's frustum, cut into steps no longer than the camera's resolution on
//! screen, and each step's end point is tested for occlusion. This crate holds
//! what is decided along that way:
//!
//! - [`frustum`]: which part of a segment remains, once it is known which of
//!   its ends are in the frustum and where it meets the six planes;
//! - [`camera`]: the sub-paths that remain of a path, and whether a bounding
//!   box is in sight;
//! - [`scene`]: the polylines that the visible and hidden samples of a path
//!   make;
//! - [`visitors`]: whether a traversal of the spatial index descends, leaves
//!   a subtree or ends;
//! - [`util`]: where a box lies relative to a plane.
//!
//! The arithmetic on coordinates is the caller's: points pass through here as
//! values of any copyable type, and what was measured of them comes with them.
pub mod camera;
pub mod frustum;
pub mod scene;
pub mod util;
pub mod visitors;
