//! Server-side core of a collaborative whiteboard: the board engine that
//! applies client requests to shared board state, and the message types it
//! consumes and produces.

pub mod board;
pub mod canvas;
pub mod geometry;
pub mod ids;
pub mod item;
pub mod iterate;
pub mod manager;
pub mod message;
pub mod method;
pub mod notify_c;
pub mod outbox;
pub mod selection;
pub mod table;
