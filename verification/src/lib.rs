pub mod agents;
pub mod exdraw;
pub mod game;
