//! Game server core: the tile map, the game object kinds, client sessions with their
//! message queues, the message handlers, and the decisions of the server's loops.

pub mod args;
pub mod handler;
pub mod map;
pub mod msg;
pub mod object;
pub mod server;
pub mod session;
pub mod update;
