//! Server-authoritative state engine for a multiplayer word game: the shared
//! game state, the rules that act on player input and on the turn timer, the
//! pruning of dead connections after a broadcast, and the client's fold of the
//! event stream into its local copy.
pub mod clock;
pub mod text;
pub mod state;
pub mod turn;
pub mod words;
pub mod roster;
pub mod room;
pub mod replica;
pub mod laws;
