//! A grid ray caster in fixed-point arithmetic.
//!
//! A maze is a rectangle of cell symbols. From a point and a direction the
//! caster walks the grid from line crossing to line crossing until it meets a
//! wall, and the renderers turn the hits into wall slabs in a pixel buffer and
//! into an overhead map.
//!
//! Positions and distances are integers in units of one millionth of a cell,
//! direction components in millionths of the direction's length, and angles
//! in millionths of a radian. Nothing here rounds but where its contract says
//! so, and every function is proved against its contract.
//!
//! - [`geometry`]: points, directions, angles and the arithmetic on them
//! - [`maze`]: the maze, and how one is read from the text of a map
//! - [`framebuffer`]: the pixel buffer
//! - [`caster`]: the walk of a ray through the maze
//! - [`render`]: the first-person view
//! - [`minimap`]: the overhead map
//! - [`player`]: the player, their intents and their moves

pub mod geometry;
pub mod maze;
pub mod framebuffer;
pub mod caster;
pub mod render;
pub mod minimap;
pub mod player;
