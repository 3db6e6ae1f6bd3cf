//! Client-side protocol layer for Twitch chat: the line grammar, the typed
//! view of message tags, and the session that sequences a connection.

pub mod credentials;
pub mod error;
pub mod irc;
pub mod tag_map;
pub mod tags;
pub mod text;
pub mod twitch_client;
