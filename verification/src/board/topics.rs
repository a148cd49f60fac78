//! Subjects: who sees a queued subject, who may start one, and what
//! moderators may change of it.
use vstd::prelude::*;
use crate::board::model::{kept, Member, TopicFacts};

verus! {

/// Who is looking: a moderator sees everything, an author their own queued subjects.
#[derive(Debug, Clone, Copy, PartialEq, Eq, Structural)]
pub struct Visibility {
    viewer: Option<u128>,
    is_moderator: bool,
}

/// Whether a subject is shown to a viewer: anything that is not queued, and a
/// queued subject only to a moderator or to its author.
pub open spec fn allows_spec(viewer: Option<u128>, is_moderator: bool, t: TopicFacts) -> bool {
    !t.pending || is_moderator || viewer == Some(t.author_id)
}

impl Visibility {
    /// Who the viewer is.
    pub closed spec fn viewer_spec(self) -> Option<u128> {
        self.viewer
    }

    /// Whether the viewer is a moderator.
    pub closed spec fn moderates(self) -> bool {
        self.is_moderator
    }

    /// Whether a subject is shown to this viewer.
    pub open spec fn shows(self, t: TopicFacts) -> bool {
        allows_spec(self.viewer_spec(), self.moderates(), t)
    }

    /// Someone who is not signed in.
    pub fn anonymous() -> (r: Visibility)
        ensures
            r.viewer_spec() is None,
            !r.moderates(),
    {
        Visibility { viewer: None, is_moderator: false }
    }

    /// A moderator, who sees everything.
    pub fn moderator() -> (r: Visibility)
        ensures
            r.viewer_spec() is None,
            r.moderates(),
    {
        Visibility { viewer: None, is_moderator: true }
    }

    /// The viewer a member is, or someone not signed in.
    pub fn of(viewer: Option<&Member>) -> (r: Visibility)
        ensures
            r.viewer_spec() == (match viewer {
                Some(m) => Some(m.id),
                None => None::<u128>,
            }),
            r.moderates() == (match viewer {
                Some(m) => m.is_moderator,
                None => false,
            }),
    {
        match viewer {
            Some(m) => Visibility { viewer: Some(m.id), is_moderator: m.is_moderator },
            None => Visibility { viewer: None, is_moderator: false },
        }
    }

    /// Whether this viewer is shown a subject.
    pub fn allows(&self, t: &TopicFacts) -> (r: bool)
        ensures
            r == self.shows(*t),
    {
        !t.pending || self.is_moderator || match self.viewer {
            Some(v) => v == t.author_id,
            None => false,
        }
    }

    /// The positions, in order, of the subjects this viewer is shown.
    pub fn visible(&self, topics: &Vec<TopicFacts>) -> (r: Vec<usize>)
        ensures
            r@ == kept(shown_flags(*self, topics@)),
    {
        let ghost flags = shown_flags(*self, topics@);
        let mut r: Vec<usize> = Vec::new();
        let mut i: usize = 0;
        while i < topics.len()
            invariant
                i <= topics@.len(),
                flags == shown_flags(*self, topics@),
                r@ == kept(flags.subrange(0, i as int)),
            decreases topics@.len() - i,
        {
            assert(flags.subrange(0, i + 1).drop_last() =~= flags.subrange(0, i as int));
            if self.allows(&topics[i]) {
                r.push(i);
            }
            i = i + 1;
        }
        assert(flags.subrange(0, topics@.len() as int) =~= flags);
        r
    }
}

/// For each subject of a list, whether the viewer is shown it.
pub open spec fn shown_flags(v: Visibility, topics: Seq<TopicFacts>) -> Seq<bool> {
    topics.map_values(|t: TopicFacts| v.shows(t))
}

/// A subject kept from the rest of its list is never one the viewer may not see.
pub proof fn visible_only_shows_allowed(v: Visibility, topics: Seq<TopicFacts>)
    requires
        topics.len() <= usize::MAX,
    ensures
        forall|k: int|
            0 <= k < kept(shown_flags(v, topics)).len() ==> (#[trigger] kept(shown_flags(v, topics))[k] as int) < topics.len()
                && v.shows(topics[kept(shown_flags(v, topics))[k] as int]),
{
    lemma_kept_flags(shown_flags(v, topics));
}

pub proof fn lemma_kept_flags(flags: Seq<bool>)
    requires
        flags.len() <= usize::MAX,
    ensures
        forall|k: int|
            0 <= k < kept(flags).len() ==> (#[trigger] kept(flags)[k] as int) < flags.len() && flags[kept(flags)[k] as int],
    decreases flags.len(),
{
    if flags.len() > 0 {
        lemma_kept_flags(flags.drop_last());
        assert forall|k: int| 0 <= k < kept(flags).len() implies (#[trigger] kept(flags)[k] as int) < flags.len() && flags[kept(flags)[k] as int] by {
            if k < kept(flags.drop_last()).len() {
                assert(kept(flags)[k] == kept(flags.drop_last())[k]);
                assert(flags.drop_last()[kept(flags.drop_last())[k] as int] == flags[kept(flags.drop_last())[k] as int]);
            } else {
                assert(flags.last());
                assert(kept(flags) == kept(flags.drop_last()).push((flags.len() - 1) as usize));
                assert(kept(flags)[k] == (flags.len() - 1) as usize);
            }
        }
    }
}

/// Why a subject could not be started.
#[derive(Debug, Clone, Copy, PartialEq, Eq, Structural)]
pub enum CreateTopicError {
    SectionNotFound,
    Restricted,
}

/// Whether a subject may be started, and if so whether it waits in the queue:
/// the section must exist and its rule must let the author start subjects; a
/// subject from anyone but a moderator starts queued.
pub fn topic_admission(section_found: bool, allowed_by_section: bool, author: &Member) -> (r: Result<bool, CreateTopicError>)
    ensures
        r == (if !section_found {
            Err::<bool, CreateTopicError>(CreateTopicError::SectionNotFound)
        } else if !allowed_by_section {
            Err(CreateTopicError::Restricted)
        } else {
            Ok(!author.is_moderator)
        }),
{
    if !section_found {
        return Err(CreateTopicError::SectionNotFound);
    }
    if !allowed_by_section {
        return Err(CreateTopicError::Restricted);
    }
    Ok(!author.is_moderator)
}

/// Why the subjects of a section could not be listed.
#[derive(Debug, Clone, Copy, PartialEq, Eq, Structural)]
pub enum ListTopicsError {
    SectionNotFound,
}

/// Whether a subject that was looked up is shown: it must be found and visible.
pub fn shown(found: Option<TopicFacts>, visibility: &Visibility) -> (r: bool)
    ensures
        r == (match found {
            Some(t) => visibility.shows(t),
            None => false,
        }),
{
    match found {
        Some(t) => visibility.allows(&t),
        None => false,
    }
}

/// Why a subject's rule for remarks could not be set.
#[derive(Debug, Clone, Copy, PartialEq, Eq, Structural)]
pub enum SetPostscoreError {
    NotFound,
    NotAuthorized,
}

/// Whether a moderator may set a subject's rule for remarks: only a moderator,
/// and only on a subject that is found.
pub fn postscore_verdict(is_moderator: bool, found: bool) -> (r: Result<(), SetPostscoreError>)
    ensures
        r == (if !is_moderator {
            Err::<(), SetPostscoreError>(SetPostscoreError::NotAuthorized)
        } else if !found {
            Err(SetPostscoreError::NotFound)
        } else {
            Ok(())
        }),
{
    if !is_moderator {
        return Err(SetPostscoreError::NotAuthorized);
    }
    if !found {
        return Err(SetPostscoreError::NotFound);
    }
    Ok(())
}

/// Why a subject could not be taken out of the queue or put back into it.
#[derive(Debug, Clone, Copy, PartialEq, Eq, Structural)]
pub enum CommitTopicError {
    NotFound,
    NotAuthorized,
}

/// Whether a moderator may take a subject out of the queue or put it back,
/// and if so the subject as it then stands.
pub fn commit_verdict(is_moderator: bool, found: Option<TopicFacts>, pending: bool) -> (r: Result<TopicFacts, CommitTopicError>)
    ensures
        r == (if !is_moderator {
            Err::<TopicFacts, CommitTopicError>(CommitTopicError::NotAuthorized)
        } else {
            match found {
                None => Err(CommitTopicError::NotFound),
                Some(t) => Ok(TopicFacts { pending, ..t }),
            }
        }),
{
    if !is_moderator {
        return Err(CommitTopicError::NotAuthorized);
    }
    match found {
        None => Err(CommitTopicError::NotFound),
        Some(t) => Ok(TopicFacts { pending, ..t }),
    }
}

/// Why a subject could not be moved into a group.
#[derive(Debug, Clone, Copy, PartialEq, Eq, Structural)]
pub enum MoveTopicError {
    NotFound,
    NotAuthorized,
    GroupNotFound,
    WrongSection,
}

/// Whether a moderator may move a subject into a group, and the subject as it
/// then stands: the group must be found and belong to the subject's section.
/// `group_section` is the section of the group, when the group is found.
pub fn move_verdict(is_moderator: bool, found: Option<TopicFacts>, group_id: u128, group_section: Option<u128>) -> (r: Result<TopicFacts, MoveTopicError>)
    ensures
        r == (if !is_moderator {
            Err::<TopicFacts, MoveTopicError>(MoveTopicError::NotAuthorized)
        } else {
            match found {
                None => Err(MoveTopicError::NotFound),
                Some(t) => match group_section {
                    None => Err(MoveTopicError::GroupNotFound),
                    Some(s) => if s != t.section_id {
                        Err(MoveTopicError::WrongSection)
                    } else {
                        Ok(TopicFacts { group_id: Some(group_id), ..t })
                    },
                },
            }
        }),
{
    if !is_moderator {
        return Err(MoveTopicError::NotAuthorized);
    }
    let t = match found {
        None => return Err(MoveTopicError::NotFound),
        Some(t) => t,
    };
    match group_section {
        None => Err(MoveTopicError::GroupNotFound),
        Some(s) => {
            if s != t.section_id {
                Err(MoveTopicError::WrongSection)
            } else {
                Ok(TopicFacts { group_id: Some(group_id), ..t })
            }
        },
    }
}

} // verus!
