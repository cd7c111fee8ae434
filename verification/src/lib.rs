//! Amidar simulation engine: a player paints the corridors of a rectangular
//! grid, fully painted rectangular regions award bonus points, and enemies
//! patrol fixed cyclic routes, ending a life on contact.

pub mod board;
pub mod mob;
pub mod parse;
pub mod state;
pub mod defaults;
pub mod draw;
pub mod errors;
pub mod geom;
