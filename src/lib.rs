//! Leaderboard queries for a chat bot, rendered as pages that users step through with
//! buttons.
//!
//! - `leaderboard`: rows and how each is written as a line of text.
//! - `pages`: splitting a game leaderboard into pages of ten ranks.
//! - `store`: the page sets of live sessions, by session key.
//! - `codec`: navigation button identifiers and the buttons under a page.
//! - `router`: what a command or a button click leads to.
//! - `text`: decimal numbers and escaping as text.
//! - `clock`: the wall clock, for session keys.

pub mod clock;
pub mod codec;
pub mod leaderboard;
pub mod pages;
pub mod router;
pub mod store;
pub mod text;
