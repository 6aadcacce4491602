//! A verified core for a small interactive banking tool: exact integer
//! money amounts, parsers for the action and amount input lines, an
//! account whose balance never wraps or goes negative, and the control
//! step that ties them together.

pub mod account;
pub mod control;
pub mod digits;
pub mod messages;
pub mod money;
pub mod parse;
