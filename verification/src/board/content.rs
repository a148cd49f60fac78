//! Posting and changing what is posted: remarks and who hears of them,
//! edits, removals and what they cost, reactions, images and polls.
use vstd::prelude::*;
use crate::board::model::{kept, Member};

verus! {

/// Why a remark could not be posted.
#[derive(Debug, Clone, Copy, PartialEq, Eq, Structural)]
pub enum PostCommentError {
    TopicNotFound,
    ParentNotFound,
    ParentInDifferentTopic,
    Restricted,
}

/// A remark that is answered: the subject it belongs to and who wrote it.
#[derive(Debug, Clone, Copy, PartialEq, Eq, Structural)]
pub struct ParentFacts {
    pub topic_id: u128,
    pub author_id: u128,
}

/// What posting a remark comes to: refused when the subject or its section is
/// not found, when the subject's rule refuses the author, or when the remark
/// answered is not found or belongs to another subject; otherwise the member
/// to tell of it, if that is not the author: the author of the remark
/// answered, or of the subject.
pub open spec fn comment_verdict_spec(
    topic_author: Option<u128>,
    section_found: bool,
    allowed: bool,
    topic_id: u128,
    parent_id: Option<u128>,
    parent: Option<ParentFacts>,
    author_id: u128,
) -> Result<Option<u128>, PostCommentError> {
    match topic_author {
        None => Err(PostCommentError::TopicNotFound),
        Some(ta) => if !section_found {
            Err(PostCommentError::TopicNotFound)
        } else if !allowed {
            Err(PostCommentError::Restricted)
        } else {
            let recipient: Result<u128, PostCommentError> = match parent_id {
                None => Ok(ta),
                Some(_) => match parent {
                    None => Err(PostCommentError::ParentNotFound),
                    Some(p) => if p.topic_id != topic_id {
                        Err(PostCommentError::ParentInDifferentTopic)
                    } else {
                        Ok(p.author_id)
                    },
                },
            };
            match recipient {
                Err(e) => Err(e),
                Ok(to) => Ok(if to != author_id { Some(to) } else { None }),
            }
        },
    }
}

/// Whether a remark may be posted, and whom to tell of it.
pub fn comment_verdict(
    topic_author: Option<u128>,
    section_found: bool,
    allowed: bool,
    topic_id: u128,
    parent_id: Option<u128>,
    parent: Option<ParentFacts>,
    author_id: u128,
) -> (r: Result<Option<u128>, PostCommentError>)
    ensures
        r == comment_verdict_spec(topic_author, section_found, allowed, topic_id, parent_id, parent, author_id),
{
    let ta = match topic_author {
        None => return Err(PostCommentError::TopicNotFound),
        Some(ta) => ta,
    };
    if !section_found {
        return Err(PostCommentError::TopicNotFound);
    }
    if !allowed {
        return Err(PostCommentError::Restricted);
    }
    let mut recipient = ta;
    if parent_id.is_some() {
        match parent {
            None => return Err(PostCommentError::ParentNotFound),
            Some(p) => {
                if p.topic_id != topic_id {
                    return Err(PostCommentError::ParentInDifferentTopic);
                }
                recipient = p.author_id;
            },
        }
    }
    if recipient != author_id {
        Ok(Some(recipient))
    } else {
        Ok(None)
    }
}

/// No one is told of their own remark.
pub proof fn no_notice_of_ones_own_remark(
    topic_author: Option<u128>,
    section_found: bool,
    allowed: bool,
    topic_id: u128,
    parent_id: Option<u128>,
    parent: Option<ParentFacts>,
    author_id: u128,
)
    ensures
        comment_verdict_spec(topic_author, section_found, allowed, topic_id, parent_id, parent, author_id)
            != Ok::<Option<u128>, PostCommentError>(Some(author_id)),
{
}

/// Whom a remark is told to: the author of the remark it answers, when it is a
/// reply accepted under its subject, or else the subject's author, and in
/// either case whenever that member is not the writer, whoever wrote the
/// subject; the writer is never told.
pub proof fn the_one_answered_is_told(
    topic_author: u128,
    topic_id: u128,
    parent_id: Option<u128>,
    parent: Option<ParentFacts>,
    author_id: u128,
)
    ensures
        parent_id is Some && parent is Some && parent->0.topic_id == topic_id && parent->0.author_id
            != author_id ==> comment_verdict_spec(Some(topic_author), true, true, topic_id, parent_id, parent, author_id)
            == Ok::<Option<u128>, PostCommentError>(Some(parent->0.author_id)),
        parent_id is Some && parent is Some && parent->0.topic_id == topic_id && parent->0.author_id
            == author_id ==> comment_verdict_spec(Some(topic_author), true, true, topic_id, parent_id, parent, author_id)
            == Ok::<Option<u128>, PostCommentError>(None),
        parent_id is None && topic_author != author_id ==> comment_verdict_spec(
            Some(topic_author),
            true,
            true,
            topic_id,
            parent_id,
            parent,
            author_id,
        ) == Ok::<Option<u128>, PostCommentError>(Some(topic_author)),
        parent_id is None && topic_author == author_id ==> comment_verdict_spec(
            Some(topic_author),
            true,
            true,
            topic_id,
            parent_id,
            parent,
            author_id,
        ) == Ok::<Option<u128>, PostCommentError>(None),
{
}

/// Why an edit was refused.
#[derive(Debug, Clone, Copy, PartialEq, Eq, Structural)]
pub enum EditError {
    NotFound,
    NotAuthorized,
    Deleted,
}

/// Whether a member may edit a post by `author_id`: its author, or a member who may correct others.
pub fn may_edit(user: &Member, author_id: u128) -> (r: bool)
    ensures
        r == (user.id == author_id || user.may_correct),
{
    user.id == author_id || user.may_correct
}

/// Whether an edit may be made: the post must be found, the editor must be
/// allowed to edit it, and it must not be taken down. `found` holds the
/// post's author and whether it is taken down.
pub fn edit_verdict(user: &Member, found: Option<(u128, bool)>) -> (r: Result<(), EditError>)
    ensures
        r == (match found {
            None => Err::<(), EditError>(EditError::NotFound),
            Some((author, deleted)) => if !(user.id == author || user.may_correct) {
                Err(EditError::NotAuthorized)
            } else if deleted {
                Err(EditError::Deleted)
            } else {
                Ok(())
            },
        }),
{
    match found {
        None => Err(EditError::NotFound),
        Some((author, deleted)) => {
            if !may_edit(user, author) {
                Err(EditError::NotAuthorized)
            } else if deleted {
                Err(EditError::Deleted)
            } else {
                Ok(())
            }
        },
    }
}

/// Why a post could not be taken down.
#[derive(Debug, Clone, Copy, PartialEq, Eq, Structural)]
pub enum DeleteError {
    NotFound,
    NotAuthorized,
}

/// Whether a post may be taken down: only by a moderator, and only a post that is found.
pub fn delete_verdict(is_moderator: bool, found: bool) -> (r: Result<(), DeleteError>)
    ensures
        r == (if !is_moderator {
            Err::<(), DeleteError>(DeleteError::NotAuthorized)
        } else if !found {
            Err(DeleteError::NotFound)
        } else {
            Ok(())
        }),
{
    if !is_moderator {
        return Err(DeleteError::NotAuthorized);
    }
    if !found {
        return Err(DeleteError::NotFound);
    }
    Ok(())
}

/// The change to an author's score when a reader's reaction changes from
/// `previous` to `next` (each the weight of a reaction, if any): none when the
/// reader is the author, else the new weight less the old.
pub open spec fn reaction_delta_spec(author_id: u128, actor_id: u128, previous: Option<i32>, next: Option<i32>) -> int {
    if author_id == actor_id {
        0
    } else {
        (match next {
            Some(w) => w as int,
            None => 0,
        }) - (match previous {
            Some(w) => w as int,
            None => 0,
        })
    }
}

/// How a change of reaction moves the author's score.
pub fn reaction_delta(author_id: u128, actor_id: u128, previous: Option<i32>, next: Option<i32>) -> (r: i32)
    requires
        i32::MIN <= reaction_delta_spec(author_id, actor_id, previous, next) <= i32::MAX,
    ensures
        r == reaction_delta_spec(author_id, actor_id, previous, next),
{
    if author_id == actor_id {
        return 0;
    }
    let removed: i32 = match previous {
        Some(w) => w,
        None => 0,
    };
    let added: i32 = match next {
        Some(w) => w,
        None => 0,
    };
    added - removed
}

/// Reacting and then taking the reaction back leaves the author's score as it was.
pub proof fn reaction_and_retraction_cancel(author_id: u128, actor_id: u128, weight: i32)
    ensures
        reaction_delta_spec(author_id, actor_id, None, Some(weight)) + reaction_delta_spec(
            author_id,
            actor_id,
            Some(weight),
            None,
        ) == 0,
{
}

/// Switching from one reaction to another moves the score as taking the first
/// back and giving the second would.
pub proof fn switching_reverses_the_previous(author_id: u128, actor_id: u128, first: i32, second: i32)
    ensures
        reaction_delta_spec(author_id, actor_id, Some(first), Some(second)) == reaction_delta_spec(
            author_id,
            actor_id,
            Some(first),
            None,
        ) + reaction_delta_spec(author_id, actor_id, None, Some(second)),
{
}

/// Whether a change of score is applied: a change of nothing is skipped, and
/// so is an author who is not found.
pub fn adjustment_applies(delta: i32, author_found: bool) -> (r: bool)
    ensures
        r == (delta != 0 && author_found),
{
    delta != 0 && author_found
}

/// The change a removal makes to its author's score: the penalty itself.
pub fn deletion_delta(penalty: i32) -> (r: i32)
    ensures
        r == penalty,
{
    penalty
}

/// The change that gives a penalty back: its opposite.
pub fn give_back_delta(penalty: i32) -> (r: i32)
    requires
        penalty > i32::MIN,
    ensures
        r == -penalty,
{
    -penalty
}

/// Giving a penalty back undoes it.
pub proof fn give_back_undoes_deletion(penalty: i32)
    requires
        penalty > i32::MIN,
    ensures
        penalty + (-penalty) == 0,
{
}

/// Why an image could not be attached or removed; `R` is why an image was refused as such.
#[derive(Debug, Clone, PartialEq, Eq)]
pub enum AttachError<R> {
    TopicNotFound,
    NotAuthorized,
    TooMany,
    Rejected(R),
}

/// Whether an image may be attached to a subject: it must be found, the
/// uploader must be its author or a moderator, and the subject must hold fewer
/// images than the most it may. `topic_author` is the author, when found.
pub fn attach_verdict<R>(uploader: &Member, topic_author: Option<u128>, count: u64, max: u64) -> (r: Result<(), AttachError<R>>)
    ensures
        r == (match topic_author {
            None => Err::<(), AttachError<R>>(AttachError::TopicNotFound),
            Some(a) => if a != uploader.id && !uploader.is_moderator {
                Err(AttachError::NotAuthorized)
            } else if count >= max {
                Err(AttachError::TooMany)
            } else {
                Ok(())
            },
        }),
{
    match topic_author {
        None => Err(AttachError::TopicNotFound),
        Some(a) => {
            if a != uploader.id && !uploader.is_moderator {
                Err(AttachError::NotAuthorized)
            } else if count >= max {
                Err(AttachError::TooMany)
            } else {
                Ok(())
            }
        },
    }
}

/// Whether an image may be removed: it must be found, and only its uploader or
/// a moderator removes it. `uploaded_by` is the uploader, when found.
pub fn remove_image_verdict<R>(remover: &Member, uploaded_by: Option<u128>) -> (r: Result<(), AttachError<R>>)
    ensures
        r == (match uploaded_by {
            None => Err::<(), AttachError<R>>(AttachError::TopicNotFound),
            Some(u) => if u != remover.id && !remover.is_moderator {
                Err(AttachError::NotAuthorized)
            } else {
                Ok(())
            },
        }),
{
    match uploaded_by {
        None => Err(AttachError::TopicNotFound),
        Some(u) => {
            if u != remover.id && !remover.is_moderator {
                Err(AttachError::NotAuthorized)
            } else {
                Ok(())
            }
        },
    }
}

/// Why a poll could not be made; `P` is why a poll was refused as such.
#[derive(Debug, Clone, PartialEq, Eq)]
pub enum CreatePollError<P> {
    TopicNotFound,
    NotTheAuthor,
    AlreadyExists,
    Invalid(P),
}

/// Why a vote was refused.
#[derive(Debug, Clone, Copy, PartialEq, Eq, Structural)]
pub enum VoteError {
    PollNotFound,
    UnknownOption,
}

/// Whether a poll may be put to a subject: the subject must be found, only its
/// author asks, and a subject holds one poll at most.
pub fn create_poll_verdict<P>(author: &Member, topic_author: Option<u128>, poll_exists: bool) -> (r: Result<(), CreatePollError<P>>)
    ensures
        r == (match topic_author {
            None => Err::<(), CreatePollError<P>>(CreatePollError::TopicNotFound),
            Some(a) => if a != author.id {
                Err(CreatePollError::NotTheAuthor)
            } else if poll_exists {
                Err(CreatePollError::AlreadyExists)
            } else {
                Ok(())
            },
        }),
{
    match topic_author {
        None => Err(CreatePollError::TopicNotFound),
        Some(a) => {
            if a != author.id {
                Err(CreatePollError::NotTheAuthor)
            } else if poll_exists {
                Err(CreatePollError::AlreadyExists)
            } else {
                Ok(())
            }
        },
    }
}

/// Whether a vote counts: the subject must hold a poll, and the answer voted
/// for must be one of it. `options` are the poll's answers, when there is a poll.
pub fn vote_verdict(options: Option<&Vec<u128>>, option_id: u128) -> (r: Result<(), VoteError>)
    ensures
        r == (match options {
            None => Err::<(), VoteError>(VoteError::PollNotFound),
            Some(o) => if o@.contains(option_id) {
                Ok(())
            } else {
                Err(VoteError::UnknownOption)
            },
        }),
{
    match options {
        None => Err(VoteError::PollNotFound),
        Some(o) => {
            if contains_id(o, option_id) {
                Ok(())
            } else {
                Err(VoteError::UnknownOption)
            }
        },
    }
}

/// Why the earlier wordings of a post could not be read.
#[derive(Debug, Clone, Copy, PartialEq, Eq, Structural)]
pub enum HistoryError {
    NotFound,
}

/// Whether a post's history is read: only of a post that is found.
pub fn history_verdict(found: bool) -> (r: Result<(), HistoryError>)
    ensures
        r == (if found { Ok::<(), HistoryError>(()) } else { Err(HistoryError::NotFound) }),
{
    if found {
        Ok(())
    } else {
        Err(HistoryError::NotFound)
    }
}

/// The positions, in order, of the items of recent activity a reader is shown:
/// those whose author the reader does not ignore.
pub fn unignored(authors: &Vec<u128>, ignored: &Vec<u128>) -> (r: Vec<usize>)
    ensures
        r@ == kept(authors@.map_values(|a: u128| !ignored@.contains(a))),
{
    let ghost flags = authors@.map_values(|a: u128| !ignored@.contains(a));
    let mut r: Vec<usize> = Vec::new();
    let mut i: usize = 0;
    while i < authors.len()
        invariant
            i <= authors@.len(),
            flags == authors@.map_values(|a: u128| !ignored@.contains(a)),
            r@ == kept(flags.subrange(0, i as int)),
        decreases authors@.len() - i,
    {
        assert(flags.subrange(0, i + 1).drop_last() =~= flags.subrange(0, i as int));
        if !contains_id(ignored, authors[i]) {
            r.push(i);
        }
        i = i + 1;
    }
    assert(flags.subrange(0, authors@.len() as int) =~= flags);
    r
}

/// Whether `ids` holds `id`.
pub fn contains_id(ids: &Vec<u128>, id: u128) -> (r: bool)
    ensures
        r == ids@.contains(id),
{
    let mut i: usize = 0;
    while i < ids.len()
        invariant
            i <= ids@.len(),
            forall|k: int| 0 <= k < i ==> ids@[k] != id,
        decreases ids@.len() - i,
    {
        if ids[i] == id {
            assert(ids@[i as int] == id);
            return true;
        }
        i = i + 1;
    }
    false
}

} // verus!
