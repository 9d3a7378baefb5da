//! The engine: positions, transfer points, the world, and the resolver.

pub mod fraction;
pub mod game;
pub mod laws;
pub mod level;
pub mod model;
pub mod moves;
pub mod point;
pub mod simulation;
pub mod text;
pub mod utility;

pub use game::{
    ActionType, Block, BlockNo, Cell, Game, GameConfig, GameView, Goal, Hsv, Query, Reference, Wall,
};
pub use level::{ParseError, ParseErrorKind};
pub use moves::{MoveState, TransferState};
pub use point::TransferPoint;
pub use utility::{Direction, GlobalPos, Pos};
