//! Two-player networked Battleship: the board model, ship placement, attack
//! resolution and the byte-level turn protocol, with their contracts.

pub mod board;
pub mod grid;
pub mod input;
pub mod placement;
pub mod protocol;
pub mod ship;

pub use board::{AttackResult, Board, Mark, Status};
pub use input::AddressInput;
pub use placement::{PlacementKey, PlacementSession, Shade, ShipPlacement};
pub use protocol::{Game, Phase, ProtocolError};
pub use ship::{PlacementError, Ship};
