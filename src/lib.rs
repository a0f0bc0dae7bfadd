use vstd::prelude::*;

pub mod tile;
pub mod counts;
pub mod completion;
pub mod text;
pub mod shanten;
pub mod hand;
pub mod scoring;
pub mod player;
pub mod game;
pub mod ai;
pub mod nostr;
pub mod laws;

pub use tile::{Tile, TileType, Suit};
pub use hand::Hand;
pub use game::Game;
pub use player::Player;
pub use ai::{AiEngine, AiLevel};
pub use nostr::{NostrClient, NostrKeys, GameEvent, GameEventType, MatchState};

verus! {

} // verus!
