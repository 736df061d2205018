//! A streaming tile-world engine: it materializes a bounded window of grid
//! tiles around a moving observer, chooses each tile's type so that it is
//! locally consistent with the neighbors decided before it, and evicts tiles
//! that fall too far behind the observer.

pub mod manager;
pub mod mapper;
pub mod registry;
pub mod rules;
pub mod selector;
pub mod tile;
