//! Who is told of what: mentions, watched subjects, and reading notices.
use vstd::prelude::*;
use crate::board::content::contains_id;

verus! {

/// The members, in order, told that they were mentioned: each name that
/// belongs to a member, unless that member wrote the post or was told already.
/// `found[i]` is the member the `i`-th name belongs to, if any.
pub open spec fn mentioned_to_tell(found: Seq<Option<u128>>, actor_id: u128, already_told: Seq<u128>) -> Seq<u128>
    decreases found.len(),
{
    if found.len() == 0 {
        Seq::empty()
    } else {
        let rest = mentioned_to_tell(found.drop_last(), actor_id, already_told);
        match found.last() {
            Some(id) => if id != actor_id && !already_told.contains(id) {
                rest.push(id)
            } else {
                rest
            },
            None => rest,
        }
    }
}

/// The members to tell of a mention, in order.
pub fn mentions_to_notify(found: &Vec<Option<u128>>, actor_id: u128, already_told: &Vec<u128>) -> (r: Vec<u128>)
    ensures
        r@ == mentioned_to_tell(found@, actor_id, already_told@),
{
    let mut r: Vec<u128> = Vec::new();
    let mut i: usize = 0;
    while i < found.len()
        invariant
            i <= found@.len(),
            r@ == mentioned_to_tell(found@.subrange(0, i as int), actor_id, already_told@),
        decreases found@.len() - i,
    {
        assert(found@.subrange(0, i + 1).drop_last() =~= found@.subrange(0, i as int));
        match found[i] {
            Some(id) => {
                if id != actor_id && !contains_id(already_told, id) {
                    r.push(id);
                }
            },
            None => {},
        }
        i = i + 1;
    }
    assert(found@.subrange(0, found@.len() as int) =~= found@);
    r
}

/// Every member a remark names is told of it unless they wrote it or were told
/// already, whatever names come before or after theirs; and no one else is told.
pub proof fn every_member_named_is_told(found: Seq<Option<u128>>, actor_id: u128, already_told: Seq<u128>)
    ensures
        forall|k: int|
            0 <= k < found.len() && (#[trigger] found[k]) is Some && found[k]->0 != actor_id
                && !already_told.contains(found[k]->0) ==> mentioned_to_tell(found, actor_id, already_told).contains(
                found[k]->0,
            ),
        forall|j: int|
            0 <= j < mentioned_to_tell(found, actor_id, already_told).len() ==> {
                let id = #[trigger] mentioned_to_tell(found, actor_id, already_told)[j];
                &&& id != actor_id
                &&& !already_told.contains(id)
                &&& found.contains(Some(id))
            },
    decreases found.len(),
{
    if found.len() > 0 {
        let pre = found.drop_last();
        let rest = mentioned_to_tell(pre, actor_id, already_told);
        let r = mentioned_to_tell(found, actor_id, already_told);
        every_member_named_is_told(pre, actor_id, already_told);
        assert forall|k: int|
            0 <= k < found.len() && (#[trigger] found[k]) is Some && found[k]->0 != actor_id
                && !already_told.contains(found[k]->0) implies r.contains(found[k]->0) by {
            if k < found.len() - 1 {
                assert(pre[k] == found[k]);
                assert(rest.contains(found[k]->0));
                let w = choose|w: int| 0 <= w < rest.len() && rest[w] == found[k]->0;
                if r != rest {
                    assert(r[w] == rest[w]);
                }
            } else {
                assert(r[rest.len() as int] == found[k]->0);
            }
        }
        assert forall|j: int| 0 <= j < r.len() implies {
            let id = #[trigger] r[j];
            &&& id != actor_id
            &&& !already_told.contains(id)
            &&& found.contains(Some(id))
        } by {
            if j < rest.len() {
                assert(r[j] == rest[j]);
                let id = rest[j];
                let w = choose|w: int| 0 <= w < pre.len() && pre[w] == Some(id);
                assert(found[w] == Some(id));
            } else {
                assert(found[found.len() - 1] == Some(r[j]));
            }
        }
    }
}

/// The watchers of a subject, in order, told of a new remark: all but its
/// writer and the member told of it already.
pub open spec fn watchers_to_tell(watchers: Seq<u128>, actor_id: u128, already_told: u128) -> Seq<u128>
    decreases watchers.len(),
{
    if watchers.len() == 0 {
        Seq::empty()
    } else {
        let rest = watchers_to_tell(watchers.drop_last(), actor_id, already_told);
        let w = watchers.last();
        if w != actor_id && w != already_told {
            rest.push(w)
        } else {
            rest
        }
    }
}

/// The watchers to tell of a new remark, in order.
pub fn watchers_to_notify(watchers: &Vec<u128>, actor_id: u128, already_told: u128) -> (r: Vec<u128>)
    ensures
        r@ == watchers_to_tell(watchers@, actor_id, already_told),
{
    let mut r: Vec<u128> = Vec::new();
    let mut i: usize = 0;
    while i < watchers.len()
        invariant
            i <= watchers@.len(),
            r@ == watchers_to_tell(watchers@.subrange(0, i as int), actor_id, already_told),
        decreases watchers@.len() - i,
    {
        assert(watchers@.subrange(0, i + 1).drop_last() =~= watchers@.subrange(0, i as int));
        let w = watchers[i];
        if w != actor_id && w != already_told {
            r.push(w);
        }
        i = i + 1;
    }
    assert(watchers@.subrange(0, watchers@.len() as int) =~= watchers@);
    r
}

/// The writer of a remark is never told of it as a watcher, nor is the member
/// told of it already.
pub proof fn watchers_never_include_the_writer(watchers: Seq<u128>, actor_id: u128, already_told: u128)
    ensures
        !watchers_to_tell(watchers, actor_id, already_told).contains(actor_id),
        !watchers_to_tell(watchers, actor_id, already_told).contains(already_told),
    decreases watchers.len(),
{
    if watchers.len() > 0 {
        watchers_never_include_the_writer(watchers.drop_last(), actor_id, already_told);
        let rest = watchers_to_tell(watchers.drop_last(), actor_id, already_told);
        let w = watchers.last();
        if w != actor_id && w != already_told {
            assert forall|k: int| 0 <= k < rest.push(w).len() implies rest.push(w)[k] != actor_id && rest.push(w)[k] != already_told by {
                if k < rest.len() {
                    assert(rest.push(w)[k] == rest[k]);
                    assert(rest.contains(rest[k]));
                }
            }
        }
    }
}

/// Why a notice could not be marked read.
#[derive(Debug, Clone, Copy, PartialEq, Eq, Structural)]
pub enum MarkReadError {
    NotFound,
}

/// Whether a notice may be marked read: it must be found and be addressed to
/// the reader; a notice to someone else is as good as not found.
pub fn mark_read_verdict(recipient_of_notice: Option<u128>, reader_id: u128) -> (r: Result<(), MarkReadError>)
    ensures
        r == (match recipient_of_notice {
            Some(to) => if to == reader_id {
                Ok::<(), MarkReadError>(())
            } else {
                Err(MarkReadError::NotFound)
            },
            None => Err(MarkReadError::NotFound),
        }),
{
    match recipient_of_notice {
        Some(to) => {
            if to == reader_id {
                Ok(())
            } else {
                Err(MarkReadError::NotFound)
            }
        },
        None => Err(MarkReadError::NotFound),
    }
}

} // verus!
