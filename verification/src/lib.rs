//! A fixed-point raycaster: a tile maze projected into a first-person view.
//!
//! All scalars are integers. World coordinates and distances are fixed-point
//! numbers with sixteen fractional bits (see [`fixed::ONE`]); screen
//! coordinates, texture coordinates and colours are plain integers. Angles
//! never appear: a heading or a ray is given by its direction vector.
//!
//! A frame is drawn in this order. [`walls::render3d`] paints the backdrop
//! and then one wall column per ray: [`caster::cast_ray`] steps the ray
//! through the [`maze`] until it strikes a blocking cell, the distance of the
//! strike is corrected for the angle between ray and heading, and the
//! textured stake is drawn where the [`depth`] buffer lets it.
//! [`sprites::render_enemies`] then draws the billboards against the same
//! depth buffer, and [`overhead::draw_minimap`] and [`text::draw_text`] go
//! over everything. [`player::process_events`] moves the player between
//! frames.

pub mod caster;
pub mod color;
pub mod depth;
pub mod fixed;
pub mod framebuffer;
pub mod maze;
pub mod overhead;
pub mod player;
pub mod sprites;
pub mod text;
pub mod texture;
pub mod timing;
pub mod walls;
