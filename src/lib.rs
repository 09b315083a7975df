//! Rules engine for a two-player game of coloured, sized pieces spread over star systems:
//! the piece catalog and bank, the systems, the legality rules of each action kind, the
//! action generator, and the transition from one state to the next.
pub mod actions;
pub mod conservation;
pub mod game_state;
pub mod laws;
pub mod piece_types;
pub mod pieces;
pub mod systems;
pub mod transition;
