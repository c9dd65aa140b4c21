//! A shared pixel board that is never stored: it is derived by replaying an
//! ordered, append-only log of bounded moves, and rasterised on demand.

pub mod blend;
pub mod board;
pub mod draw;
pub mod evm_key_binding;
pub mod game_move;
pub mod history;
pub mod link_base;
pub mod masks;
pub mod raster;
pub mod render;
pub mod render_cache;
pub mod snapshot;
pub mod tile;
