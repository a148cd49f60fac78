//! What members may do to one another: bans, warnings, ignoring, private
//! remarks, and who may shape sections and groups.
use vstd::prelude::*;
use crate::board::model::{kept, Member};

verus! {

/// Why an act of enforcement was refused.
#[derive(Debug, Clone, Copy, PartialEq, Eq, Structural)]
pub enum EnforcementError {
    NotAuthorized,
    UserNotFound,
    NotYourself,
}

/// Whether a moderator may ban or warn a member: only a moderator, never
/// themselves, and only a member who is found.
pub fn sanction_verdict(moderator: &Member, target_id: u128, target_found: bool) -> (r: Result<(), EnforcementError>)
    ensures
        r == (if !moderator.is_moderator {
            Err::<(), EnforcementError>(EnforcementError::NotAuthorized)
        } else if moderator.id == target_id {
            Err(EnforcementError::NotYourself)
        } else if !target_found {
            Err(EnforcementError::UserNotFound)
        } else {
            Ok(())
        }),
{
    if !moderator.is_moderator {
        return Err(EnforcementError::NotAuthorized);
    }
    if moderator.id == target_id {
        return Err(EnforcementError::NotYourself);
    }
    if !target_found {
        return Err(EnforcementError::UserNotFound);
    }
    Ok(())
}

/// Whether an act only moderators may do is done by one.
pub fn require_moderator(actor: &Member) -> (r: Result<(), EnforcementError>)
    ensures
        r == (if actor.is_moderator {
            Ok::<(), EnforcementError>(())
        } else {
            Err(EnforcementError::NotAuthorized)
        }),
{
    if actor.is_moderator {
        Ok(())
    } else {
        Err(EnforcementError::NotAuthorized)
    }
}

/// Whether a moderator may promote a member, and the member as promoted.
pub fn promote_verdict(moderator: &Member, target: Option<Member>) -> (r: Result<Member, EnforcementError>)
    ensures
        r == (if !moderator.is_moderator {
            Err::<Member, EnforcementError>(EnforcementError::NotAuthorized)
        } else {
            match target {
                None => Err(EnforcementError::UserNotFound),
                Some(t) => Ok(Member { is_moderator: true, ..t }),
            }
        }),
{
    require_moderator(moderator)?;
    match target {
        None => Err(EnforcementError::UserNotFound),
        Some(t) => Ok(Member { is_moderator: true, ..t }),
    }
}

/// Whether a member may ignore another: never themselves, and only a member who is found.
pub fn ignore_verdict(actor: &Member, target_id: u128, target_found: bool) -> (r: Result<(), EnforcementError>)
    ensures
        r == (if actor.id == target_id {
            Err::<(), EnforcementError>(EnforcementError::NotYourself)
        } else if !target_found {
            Err(EnforcementError::UserNotFound)
        } else {
            Ok(())
        }),
{
    if actor.id == target_id {
        return Err(EnforcementError::NotYourself);
    }
    if !target_found {
        return Err(EnforcementError::UserNotFound);
    }
    Ok(())
}

/// Which warnings acknowledging changes: the positions, in order, of those not yet acknowledged.
pub fn warnings_to_acknowledge(acknowledged: &Vec<bool>) -> (r: Vec<usize>)
    ensures
        r@ == kept(acknowledged@.map_values(|a: bool| !a)),
{
    let ghost flags = acknowledged@.map_values(|a: bool| !a);
    let mut r: Vec<usize> = Vec::new();
    let mut i: usize = 0;
    while i < acknowledged.len()
        invariant
            i <= acknowledged@.len(),
            flags == acknowledged@.map_values(|a: bool| !a),
            r@ == kept(flags.subrange(0, i as int)),
        decreases acknowledged@.len() - i,
    {
        assert(flags.subrange(0, i + 1).drop_last() =~= flags.subrange(0, i as int));
        if !acknowledged[i] {
            r.push(i);
        }
        i = i + 1;
    }
    assert(flags.subrange(0, acknowledged@.len() as int) =~= flags);
    r
}

/// Why a private remark about a member was refused.
#[derive(Debug, Clone, Copy, PartialEq, Eq, Structural)]
pub enum RemarkError {
    SubjectNotFound,
    NotYourself,
}

/// Whether a member may keep a remark about another: never about themselves,
/// and only about a member who is found.
pub fn remark_verdict(author: &Member, subject_id: u128, subject_found: bool) -> (r: Result<(), RemarkError>)
    ensures
        r == (if author.id == subject_id {
            Err::<(), RemarkError>(RemarkError::NotYourself)
        } else if !subject_found {
            Err(RemarkError::SubjectNotFound)
        } else {
            Ok(())
        }),
{
    if author.id == subject_id {
        return Err(RemarkError::NotYourself);
    }
    if !subject_found {
        return Err(RemarkError::SubjectNotFound);
    }
    Ok(())
}

/// Why a section could not be made or changed.
#[derive(Debug, Clone, Copy, PartialEq, Eq, Structural)]
pub enum SectionError {
    NotAuthorized,
    SlugTaken,
    NotFound,
}

/// Why a group could not be changed.
#[derive(Debug, Clone, Copy, PartialEq, Eq, Structural)]
pub enum GroupEditError {
    NotAuthorized,
    NotFound,
}

/// Why a group could not be made.
#[derive(Debug, Clone, Copy, PartialEq, Eq, Structural)]
pub enum CreateGroupError {
    SectionNotFound,
    NotAuthorized,
    SlugTaken,
}

/// Whether a section may be made: only by a moderator, and only under an address no section has.
pub fn create_section_verdict(is_moderator: bool, slug_taken: bool) -> (r: Result<(), SectionError>)
    ensures
        r == (if !is_moderator {
            Err::<(), SectionError>(SectionError::NotAuthorized)
        } else if slug_taken {
            Err(SectionError::SlugTaken)
        } else {
            Ok(())
        }),
{
    if !is_moderator {
        return Err(SectionError::NotAuthorized);
    }
    if slug_taken {
        return Err(SectionError::SlugTaken);
    }
    Ok(())
}

/// Whether a section may be renamed or given a new rule: only by a moderator,
/// and only a section that is found.
pub fn edit_section_verdict(is_moderator: bool, found: bool) -> (r: Result<(), SectionError>)
    ensures
        r == (if !is_moderator {
            Err::<(), SectionError>(SectionError::NotAuthorized)
        } else if !found {
            Err(SectionError::NotFound)
        } else {
            Ok(())
        }),
{
    if !is_moderator {
        return Err(SectionError::NotAuthorized);
    }
    if !found {
        return Err(SectionError::NotFound);
    }
    Ok(())
}

/// Whether a group may be renamed: only by a moderator, and only a group
/// found in a section that is found.
pub fn rename_group_verdict(is_moderator: bool, section_found: bool, group_found: bool) -> (r: Result<(), GroupEditError>)
    ensures
        r == (if !is_moderator {
            Err::<(), GroupEditError>(GroupEditError::NotAuthorized)
        } else if !section_found || !group_found {
            Err(GroupEditError::NotFound)
        } else {
            Ok(())
        }),
{
    if !is_moderator {
        return Err(GroupEditError::NotAuthorized);
    }
    if !section_found {
        return Err(GroupEditError::NotFound);
    }
    if !group_found {
        return Err(GroupEditError::NotFound);
    }
    Ok(())
}

/// Whether a group may be made: only by a moderator, in a section that is
/// found, under an address no group of that section has.
pub fn create_group_verdict(is_moderator: bool, section_found: bool, slug_taken: bool) -> (r: Result<(), CreateGroupError>)
    ensures
        r == (if !is_moderator {
            Err::<(), CreateGroupError>(CreateGroupError::NotAuthorized)
        } else if !section_found {
            Err(CreateGroupError::SectionNotFound)
        } else if slug_taken {
            Err(CreateGroupError::SlugTaken)
        } else {
            Ok(())
        }),
{
    if !is_moderator {
        return Err(CreateGroupError::NotAuthorized);
    }
    if !section_found {
        return Err(CreateGroupError::SectionNotFound);
    }
    if slug_taken {
        return Err(CreateGroupError::SlugTaken);
    }
    Ok(())
}

/// The reason a sweep of fallen standing gives for the bans it makes.
pub const FALLEN_REASON: &'static str = "standing fell to the floor";

/// The members a sweep of fallen standing bans: of those at or below the
/// floor, each who is active, not a moderator, and not banned already.
pub open spec fn fallen(members: Seq<Member>, banned: Seq<bool>) -> Seq<u128>
    decreases members.len(),
{
    if members.len() == 0 || banned.len() != members.len() {
        Seq::empty()
    } else {
        let rest = fallen(members.drop_last(), banned.drop_last());
        let m = members.last();
        if m.active && !m.is_moderator && !banned.last() {
            rest.push(m.id)
        } else {
            rest
        }
    }
}

/// The members to ban for fallen standing, in order; `banned[i]` says whether
/// `members[i]` is banned already.
pub fn to_ban_for_standing(members: &Vec<Member>, banned: &Vec<bool>) -> (r: Vec<u128>)
    requires
        members@.len() == banned@.len(),
    ensures
        r@ == fallen(members@, banned@),
{
    let mut r: Vec<u128> = Vec::new();
    let mut i: usize = 0;
    while i < members.len()
        invariant
            i <= members@.len(),
            members@.len() == banned@.len(),
            r@ == fallen(members@.subrange(0, i as int), banned@.subrange(0, i as int)),
        decreases members@.len() - i,
    {
        assert(members@.subrange(0, i + 1).drop_last() =~= members@.subrange(0, i as int));
        assert(banned@.subrange(0, i + 1).drop_last() =~= banned@.subrange(0, i as int));
        let m = members[i];
        if m.active && !m.is_moderator && !banned[i] {
            r.push(m.id);
        }
        i = i + 1;
    }
    assert(members@.subrange(0, members@.len() as int) =~= members@);
    assert(banned@.subrange(0, banned@.len() as int) =~= banned@);
    r
}

/// A sweep never bans a moderator, a member who left, or a member banned already.
pub proof fn fallen_spares_moderators(members: Seq<Member>, banned: Seq<bool>, id: u128)
    requires
        members.len() == banned.len(),
        fallen(members, banned).contains(id),
    ensures
        exists|i: int|
            0 <= i < members.len() && (#[trigger] members[i]).id == id && members[i].active
                && !members[i].is_moderator && !banned[i],
    decreases members.len(),
{
    let rest = fallen(members.drop_last(), banned.drop_last());
    let m = members.last();
    if m.active && !m.is_moderator && !banned.last() && m.id == id {
        assert(members[members.len() - 1] == m);
    } else {
        if m.active && !m.is_moderator && !banned.last() {
            let k = choose|k: int| 0 <= k < rest.push(m.id).len() && rest.push(m.id)[k] == id;
            assert(k < rest.len());
            assert(rest[k] == id);
        }
        assert(rest.contains(id));
        fallen_spares_moderators(members.drop_last(), banned.drop_last(), id);
        let i = choose|i: int|
            0 <= i < members.drop_last().len() && (#[trigger] members.drop_last()[i]).id == id && members.drop_last()[i].active
                && !members.drop_last()[i].is_moderator && !banned.drop_last()[i];
        assert(members[i] == members.drop_last()[i]);
    }
}

} // verus!
