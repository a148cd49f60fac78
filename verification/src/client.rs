//! The board's client: what it sends and reads back, built and checked
//! without the network.
pub mod address;
pub mod search;
pub mod wire;
pub mod errors;
pub mod thread;
pub mod http;
pub mod routes;

pub use address::encode_path;
pub use search::{search_address, Criteria, Order, Scope};
pub use wire::{
    find_section, ArchiveMonth, Avatar, Branch, Change, Comment, Feed, Group, Hit, Image,
    NewRemark, NewSubject, Notification, PageInfo, Paged, Picture, Poll, PollOption, Profile,
    ReactionCount, Reactions, RegisterBody, Removal, Section, Session, Subject, SubjectEdit, Tag,
    Topic, UnreadCount, User, Version,
};
pub use errors::ClientError;
pub use thread::thread;
