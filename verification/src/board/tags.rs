//! Tags: who describes them, tags that stand for others, and following a
//! chain of such tags to the tag it ends at.
use vstd::prelude::*;
use crate::text::same_text;

verus! {

/// Why a tag could not be described or made to stand for another.
#[derive(Debug, Clone, Copy, PartialEq, Eq, Structural)]
pub enum TagError {
    NotAuthorized,
    MeansItself,
}

/// Whether a tag may be described: only by a moderator.
pub fn describe_verdict(is_moderator: bool) -> (r: Result<(), TagError>)
    ensures
        r == (if is_moderator { Ok::<(), TagError>(()) } else { Err(TagError::NotAuthorized) }),
{
    if is_moderator {
        Ok(())
    } else {
        Err(TagError::NotAuthorized)
    }
}

/// Whether a tag may be made to stand for another: only by a moderator, and
/// never for itself.
pub fn synonym_verdict(is_moderator: bool, slug: &str, means: &str) -> (r: Result<(), TagError>)
    ensures
        r == (if !is_moderator {
            Err::<(), TagError>(TagError::NotAuthorized)
        } else if slug@ == means@ {
            Err(TagError::MeansItself)
        } else {
            Ok(())
        }),
{
    if !is_moderator {
        return Err(TagError::NotAuthorized);
    }
    if same_text(slug, means) {
        return Err(TagError::MeansItself);
    }
    Ok(())
}

/// The most tags a chain of meanings is followed through.
pub const MAX_HOPS: u32 = 8;

/// A search along a chain of tags, each standing for the next: the tags met so
/// far, the tag reached, and the number of steps taken.
pub struct MeaningSearch {
    seen: Vec<String>,
    current: String,
    hops: u32,
}

/// Where a search along a chain of tags stands: the tag to look up next, or
/// the tag the chain ends at.
pub enum MeaningStep {
    Ask(MeaningSearch),
    Settled(String),
}

/// Whether the texts of a sequence are all different.
pub open spec fn distinct_texts(s: Seq<Seq<char>>) -> bool {
    forall|i: int, j: int| 0 <= i < j < s.len() ==> s[i] != s[j]
}

impl MeaningSearch {
    #[verifier::type_invariant]
    spec fn well_formed(self) -> bool {
        &&& self.seen@.len() > 0
        &&& self.seen@.last()@ == self.current@
        &&& self.hops < MAX_HOPS
        &&& self.seen@.len() == self.hops + 1
        &&& distinct_texts(self.seen@.map_values(|s: String| s@))
    }

    /// The tags met so far, in order.
    pub closed spec fn seen_spec(self) -> Seq<Seq<char>> {
        self.seen@.map_values(|s: String| s@)
    }

    /// The tag reached.
    pub closed spec fn current_spec(self) -> Seq<char> {
        self.current@
    }

    /// The steps taken so far.
    pub closed spec fn hops_spec(self) -> nat {
        self.hops as nat
    }

    /// A search starting at a tag, about to look it up.
    pub fn start(slug: &str) -> (r: MeaningSearch)
        ensures
            r.seen_spec() == seq![slug@],
            r.current_spec() == slug@,
            r.hops_spec() == 0,
    {
        let mut seen: Vec<String> = Vec::new();
        seen.push(slug.to_owned());
        let r = MeaningSearch { seen, current: slug.to_owned(), hops: 0 };
        assert(r.seen@.map_values(|s: String| s@) =~= seq![slug@]);
        r
    }

    /// The tag to look up next.
    pub fn current(&self) -> (r: &str)
        ensures
            r@ == self.current_spec(),
    {
        self.current.as_str()
    }

    /// The steps taken so far; never more than the most a chain is followed.
    pub fn hops(&self) -> (r: u32)
        ensures
            r == self.hops_spec(),
            r < MAX_HOPS,
            self.seen_spec().len() == r + 1,
            distinct_texts(self.seen_spec()),
            self.seen_spec().last() == self.current_spec(),
    {
        proof { use_type_invariant(self); }
        self.hops
    }

    /// One step: `found` is what looking up the current tag gave: no tag, a tag
    /// that stands for nothing else, or the tag it stands for. The chain ends at
    /// the current tag when there is nothing further or the next tag was met
    /// already; after the last step allowed it ends at the next tag.
    pub fn step(self, found: Option<Option<String>>) -> (r: MeaningStep)
        ensures
            step_taken(self, found, r),
    {
        proof { use_type_invariant(&self); }
        let next = match found {
            Some(Some(n)) => n,
            _ => return MeaningStep::Settled(self.current),
        };
        let mut i: usize = 0;
        while i < self.seen.len()
            invariant
                i <= self.seen@.len(),
                found == Some(Some(next)),
                forall|k: int| 0 <= k < i ==> self.seen@[k]@ != next@,
            decreases self.seen@.len() - i,
        {
            if same_text(self.seen[i].as_str(), next.as_str()) {
                proof {
                    assert(self.seen_spec()[i as int] == next@);
                    assert(self.seen_spec().contains(next@));
                }
                return MeaningStep::Settled(self.current);
            }
            i = i + 1;
        }
        proof {
            assert(!self.seen_spec().contains(next@)) by {
                if self.seen_spec().contains(next@) {
                    let k = choose|k: int| 0 <= k < self.seen_spec().len() && self.seen_spec()[k] == next@;
                    assert(self.seen@[k]@ == next@);
                }
            }
        }
        if self.hops + 1 >= MAX_HOPS {
            return MeaningStep::Settled(next);
        }
        let ghost old_seen = self.seen_spec();
        let MeaningSearch { seen, current: _, hops } = self;
        let mut seen = seen;
        let copy = next.clone();
        seen.push(copy);
        proof {
            assert(seen@.map_values(|s: String| s@) =~= old_seen.push(next@));
        }
        MeaningStep::Ask(MeaningSearch { seen, current: next, hops: hops + 1 })
    }
}

/// Whether `r` is the step a search takes on what looking up its current tag gave.
pub open spec fn step_taken(s: MeaningSearch, found: Option<Option<String>>, r: MeaningStep) -> bool {
    match found {
        Some(Some(n)) => if s.seen_spec().contains(n@) {
            r matches MeaningStep::Settled(c) && c@ == s.current_spec()
        } else if s.hops_spec() + 1 >= MAX_HOPS {
            r matches MeaningStep::Settled(c) && c@ == n@
        } else {
            r matches MeaningStep::Ask(t) && t.seen_spec() == s.seen_spec().push(n@)
                && t.current_spec() == n@ && t.hops_spec() == s.hops_spec() + 1
        },
        _ => r matches MeaningStep::Settled(c) && c@ == s.current_spec(),
    }
}

} // verus!
