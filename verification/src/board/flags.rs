//! What can be said of a subject after it is posted: published from a draft,
//! kept on top, kept off the front page, marked resolved.
use vstd::prelude::*;
use crate::board::model::{Member, TopicFacts};

verus! {

/// Why a subject's marks could not be changed.
#[derive(Debug, Clone, Copy, PartialEq, Eq, Structural)]
pub enum FlagError {
    NotFound,
    NotAuthorized,
}

/// Whether a draft may be published: it must be found, and only its author
/// publishes it.
pub fn publish_verdict(author: &Member, found: Option<TopicFacts>) -> (r: Result<TopicFacts, FlagError>)
    ensures
        r == (match found {
            None => Err::<TopicFacts, FlagError>(FlagError::NotFound),
            Some(t) => if t.author_id != author.id {
                Err(FlagError::NotAuthorized)
            } else {
                Ok(TopicFacts { draft: false, ..t })
            },
        }),
{
    match found {
        None => Err(FlagError::NotFound),
        Some(t) => {
            if t.author_id != author.id {
                Err(FlagError::NotAuthorized)
            } else {
                Ok(TopicFacts { draft: false, ..t })
            }
        },
    }
}

/// Whether a mark only moderators set (on top, off the front page) may be
/// set: only by a moderator, and only on a subject that is found.
pub fn moderator_mark_verdict(is_moderator: bool, found: bool) -> (r: Result<(), FlagError>)
    ensures
        r == (if !is_moderator {
            Err::<(), FlagError>(FlagError::NotAuthorized)
        } else if !found {
            Err(FlagError::NotFound)
        } else {
            Ok(())
        }),
{
    if !is_moderator {
        return Err(FlagError::NotAuthorized);
    }
    if !found {
        return Err(FlagError::NotFound);
    }
    Ok(())
}

/// A subject kept on top of its section, or let go.
pub fn with_sticky(t: TopicFacts, sticky: bool) -> (r: TopicFacts)
    ensures
        r == (TopicFacts { sticky, ..t }),
{
    TopicFacts { sticky, ..t }
}

/// Whether a subject may be marked resolved or open again: it must be found,
/// and only its author or a moderator marks it.
pub fn resolve_verdict(user: &Member, found: Option<TopicFacts>) -> (r: Result<(), FlagError>)
    ensures
        r == (match found {
            None => Err::<(), FlagError>(FlagError::NotFound),
            Some(t) => if t.author_id != user.id && !user.is_moderator {
                Err(FlagError::NotAuthorized)
            } else {
                Ok(())
            },
        }),
{
    match found {
        None => Err(FlagError::NotFound),
        Some(t) => {
            if t.author_id != user.id && !user.is_moderator {
                Err(FlagError::NotAuthorized)
            } else {
                Ok(())
            }
        },
    }
}

/// Whether a subject is shown to a viewer: anything that is not a draft, and
/// a draft only to its author.
pub fn visible_to(topic: &TopicFacts, viewer: Option<&Member>) -> (r: bool)
    ensures
        r == (!topic.draft || match viewer {
            Some(u) => u.id == topic.author_id,
            None => false,
        }),
{
    if !topic.draft {
        return true;
    }
    match viewer {
        Some(user) => topic.author_id == user.id,
        None => false,
    }
}

/// The subjects of `s` that are, or are not, kept on top, in their order.
pub open spec fn with_mark(s: Seq<TopicFacts>, sticky: bool) -> Seq<TopicFacts>
    decreases s.len(),
{
    if s.len() == 0 {
        Seq::empty()
    } else if s.last().sticky == sticky {
        with_mark(s.drop_last(), sticky).push(s.last())
    } else {
        with_mark(s.drop_last(), sticky)
    }
}

/// The subjects kept on top first, then the others; each keeping its order.
pub fn order_sticky_first(topics: Vec<TopicFacts>) -> (r: Vec<TopicFacts>)
    ensures
        r@ == with_mark(topics@, true) + with_mark(topics@, false),
{
    let mut top: Vec<TopicFacts> = Vec::new();
    let mut rest: Vec<TopicFacts> = Vec::new();
    let mut i: usize = 0;
    while i < topics.len()
        invariant
            i <= topics@.len(),
            top@ == with_mark(topics@.subrange(0, i as int), true),
            rest@ == with_mark(topics@.subrange(0, i as int), false),
        decreases topics@.len() - i,
    {
        assert(topics@.subrange(0, i + 1).drop_last() =~= topics@.subrange(0, i as int));
        if topics[i].sticky {
            top.push(topics[i]);
        } else {
            rest.push(topics[i]);
        }
        i = i + 1;
    }
    assert(topics@.subrange(0, topics@.len() as int) =~= topics@);
    let mut r = top;
    let mut j: usize = 0;
    let ghost start = r@;
    while j < rest.len()
        invariant
            j <= rest@.len(),
            r@ == start + rest@.subrange(0, j as int),
        decreases rest@.len() - j,
    {
        r.push(rest[j]);
        j = j + 1;
        assert(start + rest@.subrange(0, j as int) =~= (start + rest@.subrange(0, j - 1)).push(rest@[j - 1]));
    }
    assert(rest@.subrange(0, rest@.len() as int) =~= rest@);
    r
}

proof fn lemma_marks_partition(s: Seq<TopicFacts>)
    ensures
        with_mark(s, true).len() + with_mark(s, false).len() == s.len(),
    decreases s.len(),
{
    if s.len() > 0 {
        lemma_marks_partition(s.drop_last());
    }
}

/// Putting the subjects on top first loses none and adds none: every subject
/// is kept on top or not, and the two runs together are as long as the list.
pub proof fn sticky_first_keeps_every_subject(s: Seq<TopicFacts>)
    ensures
        (with_mark(s, true) + with_mark(s, false)).len() == s.len(),
        forall|k: int| 0 <= k < with_mark(s, true).len() ==> (#[trigger] with_mark(s, true)[k]).sticky,
        forall|k: int| 0 <= k < with_mark(s, false).len() ==> !(#[trigger] with_mark(s, false)[k]).sticky,
    decreases s.len(),
{
    lemma_marks_partition(s);
    if s.len() > 0 {
        sticky_first_keeps_every_subject(s.drop_last());
        assert forall|k: int| 0 <= k < with_mark(s, true).len() implies (#[trigger] with_mark(s, true)[k]).sticky by {
            if k < with_mark(s.drop_last(), true).len() {
                assert(with_mark(s, true)[k] == with_mark(s.drop_last(), true)[k]);
            }
        }
        assert forall|k: int| 0 <= k < with_mark(s, false).len() implies !(#[trigger] with_mark(s, false)[k]).sticky by {
            if k < with_mark(s.drop_last(), false).len() {
                assert(with_mark(s, false)[k] == with_mark(s.drop_last(), false)[k]);
            }
        }
    }
}

/// Putting the subjects on top first is stable: the run on top is exactly the
/// subjects on top, in the order they came in, and the run after it is exactly
/// the others, in the order they came in.
pub proof fn sticky_first_keeps_each_run_in_order(s: Seq<TopicFacts>)
    ensures
        with_mark(s, true) == s.filter(|t: TopicFacts| t.sticky),
        with_mark(s, false) == s.filter(|t: TopicFacts| !t.sticky),
    decreases s.len(),
{
    reveal(Seq::filter);
    if s.len() > 0 {
        sticky_first_keeps_each_run_in_order(s.drop_last());
    }
}

} // verus!

