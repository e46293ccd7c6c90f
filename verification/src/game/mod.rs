pub mod base;
pub mod draw;
pub mod format;
pub mod parlay;
pub mod validate;
pub mod term;
