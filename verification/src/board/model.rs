//! What the rules read of members and subjects.
use vstd::prelude::*;
use crate::board::archive::Moment;

verus! {

/// A member as the rules see them.
#[derive(Debug, Clone, Copy, PartialEq, Eq, Structural)]
pub struct Member {
    pub id: u128,
    pub is_moderator: bool,
    pub may_correct: bool,
    pub score: i32,
    pub active: bool,
}

/// A subject as the rules see it.
#[derive(Debug, Clone, Copy, PartialEq, Eq, Structural)]
pub struct TopicFacts {
    pub id: u128,
    pub section_id: u128,
    pub group_id: Option<u128>,
    pub author_id: u128,
    pub created_at: Moment,
    pub pending: bool,
    pub draft: bool,
    pub sticky: bool,
    pub deleted: bool,
}

/// The positions, in order, of the entries of `flags` that are set.
pub open spec fn kept(flags: Seq<bool>) -> Seq<usize>
    decreases flags.len(),
{
    if flags.len() == 0 {
        Seq::empty()
    } else if flags.last() {
        kept(flags.drop_last()).push((flags.len() - 1) as usize)
    } else {
        kept(flags.drop_last())
    }
}

} // verus!
