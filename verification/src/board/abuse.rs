//! Keeping abuse off the board: address blocks, slow mode for authors of low
//! standing, rate limits per account and per address, and challenges.
use vstd::prelude::*;

verus! {

/// Posts an address may make within the rate window.
pub const RATE_LIMIT_MAX: u64 = 120;
/// Posts an account may make within the rate window.
pub const ACCOUNT_RATE_LIMIT_MAX: u64 = 5;
/// The rate window, in seconds.
pub const RATE_LIMIT_WINDOW: i64 = 60;
/// Below this score an author is held to slow mode.
pub const SLOW_MODE_SCORE_FLOOR: i32 = 5;
/// The least time between two posts of an author in slow mode, in seconds.
pub const SLOW_MODE_INTERVAL: i64 = 120;

/// The limits the board holds posting to; windows and intervals in seconds.
#[derive(Debug, Clone, Copy, PartialEq, Eq, Structural)]
pub struct Limits {
    pub rate_limit_max: u64,
    pub account_rate_limit_max: u64,
    pub rate_limit_window: i64,
    pub slow_mode_score_floor: i32,
    pub slow_mode_interval: i64,
}

impl Default for Limits {
    fn default() -> (r: Limits)
        ensures
            r.rate_limit_max == RATE_LIMIT_MAX,
            r.account_rate_limit_max == ACCOUNT_RATE_LIMIT_MAX,
            r.rate_limit_window == RATE_LIMIT_WINDOW,
            r.slow_mode_score_floor == SLOW_MODE_SCORE_FLOOR,
            r.slow_mode_interval == SLOW_MODE_INTERVAL,
    {
        Limits {
            rate_limit_max: RATE_LIMIT_MAX,
            account_rate_limit_max: ACCOUNT_RATE_LIMIT_MAX,
            rate_limit_window: RATE_LIMIT_WINDOW,
            slow_mode_score_floor: SLOW_MODE_SCORE_FLOOR,
            slow_mode_interval: SLOW_MODE_INTERVAL,
        }
    }
}

/// Why posting or registering was refused.
#[derive(Debug, Clone, Copy, PartialEq, Eq, Structural)]
pub enum AbuseError {
    NotAuthorized,
    AddressBlocked,
    RateLimited,
    SlowMode,
    ChallengeRequired,
}

/// When a challenge must be answered.
#[derive(Debug, Clone, Copy, PartialEq, Eq, Structural)]
pub struct ChallengeRules {
    pub on_register: bool,
    pub below_floor: bool,
}

impl Default for ChallengeRules {
    fn default() -> (r: ChallengeRules)
        ensures
            !r.on_register,
            !r.below_floor,
    {
        ChallengeRules { on_register: false, below_floor: false }
    }
}

/// What an address block does to posts from the address while it holds.
#[derive(Debug, Clone, Copy, PartialEq, Eq, Structural)]
pub enum BlockMode {
    Refuse,
    Challenge,
    Allow,
}

/// An address block as it stands at the moment of posting.
#[derive(Debug, Clone, Copy, PartialEq, Eq, Structural)]
pub struct BlockState {
    pub active: bool,
    pub mode: BlockMode,
}

/// What is known of a post about to be made: who posts and from where, and
/// what the board's records answered.
#[derive(Debug, Clone, Copy, PartialEq, Eq, Structural)]
pub struct PostingFacts {
    pub score: i32,
    pub is_moderator: bool,
    pub block: Option<BlockState>,
    pub challenge_passed: bool,
    pub last_post: Option<i64>,
    pub posts_by_user: u64,
    pub posts_by_address: u64,
}

/// Whether the address block refuses the post outright.
pub open spec fn refused_by_block(block: Option<BlockState>) -> bool {
    match block {
        Some(b) => b.active && b.mode == BlockMode::Refuse,
        None => false,
    }
}

/// Whether the poster must answer a challenge: an author below the floor when
/// the rules ask it, or anyone from an address whose block asks it; never a moderator.
pub open spec fn challenge_needed_spec(
    score: i32,
    is_moderator: bool,
    block: Option<BlockState>,
    limits: Limits,
    rules: ChallengeRules,
) -> bool {
    let below = rules.below_floor && score < limits.slow_mode_score_floor;
    let by_block = match block {
        Some(b) => b.active && b.mode == BlockMode::Challenge,
        None => false,
    };
    (below || by_block) && !is_moderator
}

/// What posting comes to: refused by a block, by a failed challenge, by slow
/// mode, by the account's rate or the address's rate, in this order; allowed otherwise.
pub open spec fn posting_verdict_spec(f: PostingFacts, now: int, limits: Limits, rules: ChallengeRules) -> Result<(), AbuseError> {
    if refused_by_block(f.block) {
        Err(AbuseError::AddressBlocked)
    } else if challenge_needed_spec(f.score, f.is_moderator, f.block, limits, rules)
        && !f.challenge_passed {
        Err(AbuseError::ChallengeRequired)
    } else if !f.is_moderator && f.score < limits.slow_mode_score_floor && (match f.last_post {
        Some(last) => last > now - limits.slow_mode_interval,
        None => false,
    }) {
        Err(AbuseError::SlowMode)
    } else if !f.is_moderator && f.posts_by_user >= limits.account_rate_limit_max {
        Err(AbuseError::RateLimited)
    } else if !f.is_moderator && f.posts_by_address >= limits.rate_limit_max {
        Err(AbuseError::RateLimited)
    } else {
        Ok(())
    }
}

/// Whether registering passes: only when the rules ask for a challenge must it be answered.
pub fn registration_verdict(rules: ChallengeRules, challenge_passed: bool) -> (r: Result<(), AbuseError>)
    ensures
        r == (if !rules.on_register || challenge_passed {
            Ok::<(), AbuseError>(())
        } else {
            Err(AbuseError::ChallengeRequired)
        }),
{
    if !rules.on_register {
        return Ok(());
    }
    if challenge_passed {
        return Ok(());
    }
    Err(AbuseError::ChallengeRequired)
}

/// Whether the poster must be asked to answer a challenge.
pub fn challenge_needed(
    score: i32,
    is_moderator: bool,
    block: Option<BlockState>,
    limits: Limits,
    rules: ChallengeRules,
) -> (r: bool)
    ensures
        r == challenge_needed_spec(score, is_moderator, block, limits, rules),
{
    let mut challenged = rules.below_floor && score < limits.slow_mode_score_floor;
    match block {
        Some(b) => {
            if b.active && b.mode == BlockMode::Challenge {
                challenged = true;
            }
        },
        None => {},
    }
    challenged && !is_moderator
}

/// The moment from which posts count toward the rate limits.
pub fn rate_window_start(now: i64, limits: Limits) -> (r: i64)
    requires
        i64::MIN <= now - limits.rate_limit_window <= i64::MAX,
    ensures
        r == now - limits.rate_limit_window,
{
    now - limits.rate_limit_window
}

/// Whether a post may be made, given what the records answered. The
/// challenge's answer matters only where `challenge_needed` asks for one.
pub fn posting_verdict(f: PostingFacts, now: i64, limits: Limits, rules: ChallengeRules) -> (r: Result<(), AbuseError>)
    ensures
        r == posting_verdict_spec(f, now as int, limits, rules),
{
    if let Some(b) = f.block {
        if b.active && b.mode == BlockMode::Refuse {
            return Err(AbuseError::AddressBlocked);
        }
    }
    if challenge_needed(f.score, f.is_moderator, f.block, limits, rules) && !f.challenge_passed {
        return Err(AbuseError::ChallengeRequired);
    }
    if !f.is_moderator && f.score < limits.slow_mode_score_floor {
        if let Some(last) = f.last_post {
            let earliest: i128 = now as i128 - limits.slow_mode_interval as i128;
            if (last as i128) > earliest {
                return Err(AbuseError::SlowMode);
            }
        }
    }
    if !f.is_moderator {
        if f.posts_by_user >= limits.account_rate_limit_max {
            return Err(AbuseError::RateLimited);
        }
        if f.posts_by_address >= limits.rate_limit_max {
            return Err(AbuseError::RateLimited);
        }
    }
    Ok(())
}

/// A moderator is never held by slow mode, rate limits or challenges; only an
/// address block that refuses stops them.
pub proof fn moderator_posts_unless_refused(f: PostingFacts, now: int, limits: Limits, rules: ChallengeRules)
    requires
        f.is_moderator,
    ensures
        posting_verdict_spec(f, now, limits, rules) == (if refused_by_block(f.block) {
            Err::<(), AbuseError>(AbuseError::AddressBlocked)
        } else {
            Ok(())
        }),
{
}

/// An author at or above the slow-mode floor is never refused for slow mode.
pub proof fn established_author_is_not_slowed(f: PostingFacts, now: int, limits: Limits, rules: ChallengeRules)
    requires
        f.score >= limits.slow_mode_score_floor,
    ensures
        posting_verdict_spec(f, now, limits, rules) != Err::<(), AbuseError>(AbuseError::SlowMode),
{
}

/// An author at or above the slow-mode floor who is neither blocked nor
/// challenged is refused exactly when their account, or their address, has
/// reached its rate limit; one busy account does not stop another.
pub proof fn established_author_is_held_only_by_rates(f: PostingFacts, now: int, limits: Limits, rules: ChallengeRules)
    requires
        !f.is_moderator,
        f.score >= limits.slow_mode_score_floor,
        !refused_by_block(f.block),
        !challenge_needed_spec(f.score, f.is_moderator, f.block, limits, rules),
    ensures
        posting_verdict_spec(f, now, limits, rules) == (if f.posts_by_user >= limits.account_rate_limit_max
            || f.posts_by_address >= limits.rate_limit_max {
            Err::<(), AbuseError>(AbuseError::RateLimited)
        } else {
            Ok(())
        }),
{
}

/// The rate limits hold every poster who is not a moderator, whatever their
/// score: once neither a block, nor an unanswered challenge, nor slow mode has
/// refused the post, it is refused as rate-limited whenever the account has
/// reached its limit or the address has reached its ceiling, and allowed
/// otherwise.
pub proof fn rates_hold_every_member_whatever_their_score(
    f: PostingFacts,
    now: int,
    limits: Limits,
    rules: ChallengeRules,
)
    requires
        !f.is_moderator,
        !(match f.block {
            Some(b) => b.active && b.mode == BlockMode::Refuse,
            None => false,
        }),
        !challenge_needed_spec(f.score, f.is_moderator, f.block, limits, rules) || f.challenge_passed,
        !(f.score < limits.slow_mode_score_floor && (match f.last_post {
            Some(last) => last > now - limits.slow_mode_interval,
            None => false,
        })),
    ensures
        (f.posts_by_user >= limits.account_rate_limit_max || f.posts_by_address >= limits.rate_limit_max)
            ==> posting_verdict_spec(f, now, limits, rules) == Err::<(), AbuseError>(AbuseError::RateLimited),
        !(f.posts_by_user >= limits.account_rate_limit_max || f.posts_by_address >= limits.rate_limit_max)
            ==> posting_verdict_spec(f, now, limits, rules) == Ok::<(), AbuseError>(()),
{
}

/// A block that does not hold now counts for nothing: it asks no challenge and
/// refuses nothing, so the poster is answered exactly as if no block were found.
pub proof fn a_lapsed_block_counts_for_nothing(
    f: PostingFacts,
    b: BlockState,
    now: int,
    limits: Limits,
    rules: ChallengeRules,
)
    requires
        !b.active,
        f.block == Some(b),
    ensures
        challenge_needed_spec(f.score, f.is_moderator, Some(b), limits, rules) == (rules.below_floor
            && f.score < limits.slow_mode_score_floor && !f.is_moderator),
        posting_verdict_spec(f, now, limits, rules) == posting_verdict_spec(
            PostingFacts { block: None, ..f },
            now,
            limits,
            rules,
        ),
{
}

/// Whether only a moderator is acting; otherwise the act is not authorized.
pub fn require_moderator(is_moderator: bool) -> (r: Result<(), AbuseError>)
    ensures
        r == (if is_moderator { Ok::<(), AbuseError>(()) } else { Err(AbuseError::NotAuthorized) }),
{
    if is_moderator {
        Ok(())
    } else {
        Err(AbuseError::NotAuthorized)
    }
}

/// A post traced to an address: a subject or a remark.
#[derive(Debug, Clone, Copy, PartialEq, Eq, Structural)]
pub enum PostRef {
    Topic(u128),
    Comment(u128),
}

/// Which posts a sweep of an address takes down: of the posts traced to the
/// address, in order, each one that is still found and not taken down
/// already; a post traced more than once is taken down the first time only.
/// `found[i]` says whether post `refs[i]` is found, and if so whether it is
/// taken down already.
pub open spec fn swept(refs: Seq<PostRef>, found: Seq<Option<bool>>) -> Seq<PostRef>
    decreases refs.len(),
{
    if refs.len() == 0 || found.len() != refs.len() {
        Seq::empty()
    } else {
        let rest = swept(refs.drop_last(), found.drop_last());
        if found.last() == Some(false) && !rest.contains(refs.last()) {
            rest.push(refs.last())
        } else {
            rest
        }
    }
}

/// Whether no post occurs twice in `s`.
pub open spec fn each_once(s: Seq<PostRef>) -> bool {
    forall|a: int, b: int| #![trigger s[a], s[b]] 0 <= a < b < s.len() ==> s[a] != s[b]
}

/// What the lookups of the traced posts give once the posts of `taken` are
/// taken down.
pub open spec fn after_sweep(refs: Seq<PostRef>, found: Seq<Option<bool>>, taken: Seq<PostRef>) -> Seq<Option<bool>> {
    Seq::new(found.len(), |i: int| if taken.contains(refs[i]) { Some(true) } else { found[i] })
}

proof fn lemma_swept_facts(refs: Seq<PostRef>, found: Seq<Option<bool>>)
    requires
        refs.len() == found.len(),
    ensures
        each_once(swept(refs, found)),
        forall|x: PostRef|
            #![trigger swept(refs, found).contains(x)]
            swept(refs, found).contains(x) <==> exists|i: int|
                0 <= i < refs.len() && #[trigger] refs[i] == x && found[i] == Some(false),
    decreases refs.len(),
{
    if refs.len() > 0 {
        let r0 = refs.drop_last();
        let f0 = found.drop_last();
        let rest = swept(r0, f0);
        lemma_swept_facts(r0, f0);
        let last = refs.last();
        let out = swept(refs, found);
        if found.last() == Some(false) && !rest.contains(last) {
            assert forall|a: int, b: int| #![trigger out[a], out[b]] 0 <= a < b < out.len() implies out[a] != out[b] by {
                if b == rest.len() {
                    assert(rest.contains(rest[a]));
                } else {
                    assert(out[a] == rest[a] && out[b] == rest[b]);
                }
            }
        }
        assert forall|x: PostRef| #[trigger] out.contains(x) <==> exists|i: int|
            0 <= i < refs.len() && #[trigger] refs[i] == x && found[i] == Some(false) by {
            if out.contains(x) {
                if rest.contains(x) {
                    let i = choose|i: int| 0 <= i < r0.len() && #[trigger] r0[i] == x && f0[i] == Some(false);
                    assert(refs[i] == x && found[i] == Some(false));
                } else {
                    let k = choose|k: int| 0 <= k < out.len() && out[k] == x;
                    if k < rest.len() {
                        assert(out[k] == rest[k]);
                        assert(rest.contains(x));
                    }
                    assert(refs[refs.len() - 1] == x && found[found.len() - 1] == Some(false));
                }
            }
            if exists|i: int| 0 <= i < refs.len() && #[trigger] refs[i] == x && found[i] == Some(false) {
                let i = choose|i: int| 0 <= i < refs.len() && #[trigger] refs[i] == x && found[i] == Some(false);
                if i < refs.len() - 1 {
                    assert(r0[i] == x && f0[i] == Some(false));
                    assert(rest.contains(x));
                    let k = choose|k: int| 0 <= k < rest.len() && rest[k] == x;
                    if found.last() == Some(false) && !rest.contains(last) {
                        assert(out[k] == x);
                    }
                } else {
                    if !rest.contains(last) {
                        assert(out[rest.len() as int] == x);
                    }
                }
            }
        }
    }
}

/// A sweep takes down each post once, and a second sweep of the same address,
/// made once the first one's posts are taken down, takes down nothing.
pub proof fn a_second_sweep_takes_nothing(refs: Seq<PostRef>, found: Seq<Option<bool>>)
    requires
        refs.len() == found.len(),
    ensures
        each_once(swept(refs, found)),
        swept(refs, after_sweep(refs, found, swept(refs, found))) == Seq::<PostRef>::empty(),
{
    let taken = swept(refs, found);
    let again = after_sweep(refs, found, taken);
    lemma_swept_facts(refs, found);
    lemma_swept_facts(refs, again);
    let second = swept(refs, again);
    if second.len() > 0 {
        assert(second.contains(second[0]));
        let i = choose|i: int| 0 <= i < refs.len() && #[trigger] refs[i] == second[0] && again[i] == Some(false);
        assert(!taken.contains(refs[i]));
        assert(found[i] == Some(false));
        assert(taken.contains(refs[i]));
    }
}

/// The posts a moderator's sweep of an address takes down; only a moderator may sweep.
pub fn posts_to_remove(is_moderator: bool, refs: &Vec<PostRef>, found: &Vec<Option<bool>>) -> (r: Result<Vec<PostRef>, AbuseError>)
    requires
        refs@.len() == found@.len(),
    ensures
        r is Ok <==> is_moderator,
        r is Err ==> r->Err_0 == AbuseError::NotAuthorized,
        r is Ok ==> r->Ok_0@ == swept(refs@, found@) && each_once(r->Ok_0@),
{
    if !is_moderator {
        return Err(AbuseError::NotAuthorized);
    }
    let mut out: Vec<PostRef> = Vec::new();
    let mut i: usize = 0;
    while i < refs.len()
        invariant
            i <= refs@.len(),
            refs@.len() == found@.len(),
            out@ == swept(refs@.subrange(0, i as int), found@.subrange(0, i as int)),
        decreases refs@.len() - i,
    {
        assert(refs@.subrange(0, i + 1).drop_last() =~= refs@.subrange(0, i as int));
        assert(found@.subrange(0, i + 1).drop_last() =~= found@.subrange(0, i as int));
        if found[i] == Some(false) {
            let x = refs[i];
            let mut k: usize = 0;
            let mut seen = false;
            while k < out.len()
                invariant
                    k <= out@.len(),
                    seen <==> exists|j: int| 0 <= j < k && out@[j] == x,
                decreases out@.len() - k,
            {
                if out[k] == x {
                    seen = true;
                }
                k = k + 1;
            }
            if !seen {
                out.push(x);
            }
        }
        i = i + 1;
    }
    assert(refs@.subrange(0, refs@.len() as int) =~= refs@);
    assert(found@.subrange(0, found@.len() as int) =~= found@);
    proof { lemma_swept_facts(refs@, found@); }
    Ok(out)
}

/// Whether an address is blocked now: a block is found and holds now.
pub fn is_address_blocked(block: Option<BlockState>) -> (r: bool)
    ensures
        r == (match block {
            Some(b) => b.active,
            None => false,
        }),
{
    match block {
        Some(b) => b.active,
        None => false,
    }
}

} // verus!
