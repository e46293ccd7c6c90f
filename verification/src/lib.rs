//! Ticket rules, prize computation and the small numeric and text
//! helpers of a lottery sales system.

pub mod cons;
pub mod game;
pub mod text;
pub mod util;
