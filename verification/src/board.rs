//! The board's own rules: who may post and when, what moderators may do, how
//! invitations admit newcomers, how the archive is counted, and who is told
//! of what. Repositories, mail and challenges stay outside: each rule takes
//! what they answered and says what follows.
pub mod model;
pub mod abuse;
pub mod topics;
pub mod flags;
pub mod people;
pub mod content;
pub mod notices;
pub mod reports;
pub mod access;
pub mod tags;
pub mod archive;
pub mod paging;

