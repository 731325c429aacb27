pub mod dice;
pub mod tiles;
pub mod distance;
pub mod map;
pub mod spatial;
pub mod exit_placement;
pub mod builder;
pub mod initiative;
pub mod combat;
pub mod actions;
