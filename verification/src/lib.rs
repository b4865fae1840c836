//! The rules of a small top-down brawler: who may hit whom, how long a swing
//! lasts, which entity a hit destroys, and how keys become motion.

pub mod arena;
pub mod control;
pub mod decay;
pub mod hit;
pub mod laws;
pub mod layer;
pub mod ownership;
pub mod plugin;
pub mod spawn;

pub use crate::plugin::AppPlugin;
