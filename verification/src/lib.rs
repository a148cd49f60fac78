//! A discussion board: the rules the server applies to posting, moderation,
//! invitations and the archive, and the client's own handling of addresses,
//! search criteria and threaded remarks.
#![allow(unused_imports)]

pub mod text;
pub mod client;
pub mod board;
