//! The request grammar, the reply codec and the session rules of a small FTP server.

pub mod buffer;
pub mod client;
pub mod cmd;
pub mod codec;
pub mod ftp;
pub mod line_laws;
pub mod listing;
pub mod path;
pub mod path_laws;
pub mod request_laws;
pub mod session;
pub mod session_laws;
pub mod text;
pub mod verb_laws;
