//! A fixed-step ray caster over a grid maze, with the drawing that a small
//! maze game needs around it.
//!
//! Every real-valued quantity (world coordinates, distances, angles, texture
//! coordinates, time) is a signed fixed-point number with sixteen fractional
//! bits, carried in an `i64`.  Trigonometry is left to the caller: a ray is
//! described by the cosine and sine of its angle, a sprite bearing by the
//! angle itself.
//!
//! The three-dimensional view is drawn in two passes over a `Framebuffer`:
//! `world::render_world` marches one ray per column with `caster::cast_ray`
//! and paints walls and floor; `SpriteManager::render_sprites_3d` paints the
//! sprites that are in sight over them.

pub mod fixed;
pub mod color;
pub mod maze;
pub mod framebuffer;
pub mod player;
pub mod caster;
pub mod world;
pub mod sprites;
pub mod sight;
pub mod billboard;
pub mod spawn;
pub mod frames;
pub mod text;
pub mod canvas;
pub mod tiles;
pub mod minimap;
pub mod overview;
pub mod game_state;
pub mod screens;
