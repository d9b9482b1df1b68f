//! The logic of a gateway that lets IRC clients take part in Matrix rooms.
//!
//! [`irc`] keeps the lines of an IRC connection and the IRC user's side of a
//! session, [`matrix`] keeps a session with a homeserver, and [`bridge`] maps the
//! two onto each other. None of them performs input or output: each says what is
//! to be done next and takes in what came of it.

pub mod bridge;
pub mod io_error;
pub mod irc;
pub mod matrix;
pub mod poll;
pub mod stream_fold;
pub mod table;
pub mod table_laws;
pub mod text;
pub mod text_laws;
