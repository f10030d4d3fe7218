//! The decisions of an FTP client, kept apart from its sockets.
//!
//! A command is an exchange with the server. The exchange asks for one action at a
//! time, such as to send a text or to read a line, and is told of what came of it.
//! Whoever drives it owns the connections.

pub mod answer_laws;
pub mod answers;
pub mod calendar;
pub mod command_laws;
pub mod data_stream;
pub mod exchange;
pub mod ftp;
pub mod laws;
pub mod patterns;
pub mod reading_laws;
pub mod reply;
pub mod reply_laws;
pub mod session_laws;
pub mod status;
pub mod text;
pub mod text_laws;
pub mod types;
pub mod view_laws;

pub use crate::data_stream::DataStream;
pub use crate::ftp::FtpStream;
pub use crate::types::FtpError;
