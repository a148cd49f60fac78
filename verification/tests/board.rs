use tcbs::board::abuse::{
    challenge_needed, is_address_blocked, posting_verdict, posts_to_remove, registration_verdict,
    require_moderator, AbuseError, BlockMode, BlockState, ChallengeRules, Limits, PostRef, PostingFacts,
    ACCOUNT_RATE_LIMIT_MAX, RATE_LIMIT_MAX, SLOW_MODE_INTERVAL, SLOW_MODE_SCORE_FLOOR,
};
use tcbs::board::access::{
    admit_verdict, attempts_verdict, issue_verdict, new_network_message, operator_verdict,
    email_change_verdict, redeem_verdict, register_verdict, reset_is_sent, reset_message, sign_in_verdict, spend_verdict,
    AdmissionError, IssueError, FakeHasher, FakeMailer, Message, InvitationSettings, InvitationState, OperatorError,
    OperatorSettings, PasswordHasher, PlainDigest, RedeemError, ChangeEmailError, RegisterError, SignInError,
    attempt_window_start, avatar_verdict, bio_verdict, bookmark_verdict, change_password_verdict,
    session_member, watch_verdict, AvatarLookupError, BookmarkError, ChangePasswordError,
    UpdateBioError, WatchError, SignInLimits, SpendError, SIGN_IN_ATTEMPT_MAX, SIGN_IN_ATTEMPT_WINDOW, TokenDigest, TokenPurpose, TokenState, TooManyAttempts,
};
use tcbs::board::archive::{
    count_by_month, count_months, months_with_topics, ArchiveMonth, Moment, MonthCount, MonthError,
};
use tcbs::board::content::{
    adjustment_applies, attach_verdict, comment_verdict, remove_image_verdict, AttachError, create_poll_verdict, delete_verdict, deletion_delta,
    edit_verdict, give_back_delta, history_verdict, HistoryError, CreatePollError, DeleteError, reaction_delta, unignored, vote_verdict, EditError,
    ParentFacts, PostCommentError, VoteError,
};
use tcbs::board::flags::{
    moderator_mark_verdict, order_sticky_first, publish_verdict, resolve_verdict, visible_to,
    with_sticky, FlagError,
};
use tcbs::board::model::{Member, TopicFacts};
use tcbs::board::notices::{mark_read_verdict, mentions_to_notify, watchers_to_notify, MarkReadError};
use tcbs::board::paging::{Page, Paged};
use tcbs::board::people::{
    create_group_verdict, create_section_verdict, edit_section_verdict, remark_verdict,
    CreateGroupError, RemarkError, rename_group_verdict, GroupEditError, SectionError,
    ignore_verdict, promote_verdict, require_moderator as require_moderator_to_act,
    sanction_verdict, to_ban_for_standing, warnings_to_acknowledge, EnforcementError,
};
use tcbs::board::reports::{
    close_verdict, list_reports_verdict, report_target, report_verdict, ReportError, ReportTarget,
    REPORTS_PER_HOUR,
};
use tcbs::board::tags::{describe_verdict, synonym_verdict, MeaningSearch, MeaningStep, TagError};
use tcbs::board::topics::{
    commit_verdict, move_verdict, postscore_verdict, shown, topic_admission, CommitTopicError,
    CreateTopicError, MoveTopicError, SetPostscoreError, Visibility,
};

const JUNE_1_2024: i64 = 1717200000;
const JULY_1_2024: i64 = 1719792000;
const JANUARY_1_2025: i64 = 1735689600;
const DAY: i64 = 86400;

fn utc(at: i64) -> Moment {
    Moment { at, offset: 0 }
}

#[test]
fn a_month_is_within_the_calendar() {
    assert!(ArchiveMonth::new(2024, 1).is_ok());
    assert!(ArchiveMonth::new(2024, 12).is_ok());
    assert_eq!(ArchiveMonth::new(2024, 0), Err(MonthError));
    assert_eq!(ArchiveMonth::new(2024, 13), Err(MonthError));
    assert_eq!(ArchiveMonth::new(1969, 6), Err(MonthError));
}

#[test]
fn a_month_spans_from_its_first_day_to_the_next() {
    let june = ArchiveMonth::new(2024, 6).unwrap();
    assert_eq!(june.starts_at(), JUNE_1_2024);
    assert_eq!(june.ends_before(), JULY_1_2024);
}

#[test]
fn december_rolls_into_the_next_year() {
    let december = ArchiveMonth::new(2024, 12).unwrap();
    assert_eq!(december.next(), ArchiveMonth::new(2025, 1).unwrap());
    assert_eq!(december.ends_before(), JANUARY_1_2025);
}

#[test]
fn a_month_is_read_off_a_moment() {
    assert_eq!(
        ArchiveMonth::of(utc(JUNE_1_2024 + 16 * DAY)),
        ArchiveMonth::new(2024, 6).unwrap()
    );
    assert_eq!(ArchiveMonth::of(utc(JULY_1_2024 - 1)), ArchiveMonth::new(2024, 6).unwrap());
    assert_eq!(ArchiveMonth::of(utc(0)), ArchiveMonth::new(1970, 1).unwrap());
}

fn topic(id: u128, author: u128, at: i64, pending: bool) -> TopicFacts {
    TopicFacts {
        id,
        section_id: 0,
        group_id: None,
        author_id: author,
        created_at: utc(at),
        pending,
        draft: false,
        sticky: false,
        deleted: false,
    }
}

#[test]
fn months_are_listed_newest_first_with_their_counts() {
    let topics = vec![
        topic(1, 1, JUNE_1_2024 + DAY, false),
        topic(2, 1, JUNE_1_2024 + 19 * DAY, false),
        topic(3, 1, JUNE_1_2024 - 23 * DAY, false),
    ];
    let months = months_with_topics(&topics, &Visibility::moderator());
    assert_eq!(
        months,
        vec![
            MonthCount { month: ArchiveMonth::new(2024, 6).unwrap(), topics: 2 },
            MonthCount { month: ArchiveMonth::new(2024, 5).unwrap(), topics: 1 },
        ]
    );
}

#[test]
fn a_queued_subject_is_counted_only_for_those_who_may_see_it() {
    let topics = vec![
        topic(1, 1, JUNE_1_2024 + DAY, false),
        topic(2, 1, JUNE_1_2024 + 2 * DAY, true),
    ];
    assert_eq!(months_with_topics(&topics, &Visibility::anonymous())[0].topics, 1);
    assert_eq!(months_with_topics(&topics, &Visibility::moderator())[0].topics, 2);
}

#[test]
fn counting_months_of_nothing_is_empty_and_years_order_before_months() {
    assert!(count_by_month(&vec![]).is_empty());
    let counted = count_by_month(&vec![utc(JANUARY_1_2025), utc(JUNE_1_2024), utc(JANUARY_1_2025 + 5)]);
    assert_eq!(counted.len(), 2);
    assert_eq!(counted[0].month, ArchiveMonth::new(2025, 1).unwrap());
    assert_eq!(counted[0].topics, 2);
    assert_eq!(counted[1].month, ArchiveMonth::new(2024, 6).unwrap());
}

fn paged(items: usize, number: u32, size: u32, total: u64) -> Paged<u32> {
    Paged::new(
        (0..items as u32).collect(),
        Page::parse(number, size).unwrap(),
        total,
    )
}

#[test]
fn reports_where_it_sits_in_the_whole_list() {
    let first = paged(10, 1, 10, 25);
    assert_eq!(first.total_pages(), 3);
    assert!(first.has_next());
    assert!(!first.has_previous());

    let middle = paged(10, 2, 10, 25);
    assert!(middle.has_next());
    assert!(middle.has_previous());

    let last = paged(5, 3, 10, 25);
    assert!(!last.has_next());
    assert!(last.has_previous());
}

#[test]
fn an_empty_list_is_one_page_with_nothing_after_it() {
    let empty = paged(0, 1, 10, 0);
    assert_eq!(empty.total_pages(), 1);
    assert!(!empty.has_next());
    assert!(!empty.has_previous());
}

#[test]
fn a_page_of_no_size_or_number_zero_is_refused() {
    assert!(Page::parse(0, 10).is_none());
    assert!(Page::parse(1, 0).is_none());
    assert_eq!(Page::parse(3, 10).unwrap().offset(), 20);
    assert_eq!(paged(0, 1, 10, 30).total_pages(), 3);
    assert_eq!(paged(0, 1, 10, 31).total_pages(), 4);
}

#[test]
fn registration_is_open_unless_the_operator_closes_it() {
    assert!(!InvitationSettings::default().required);
}

fn facts(score: i32, moderator: bool) -> PostingFacts {
    PostingFacts {
        score,
        is_moderator: moderator,
        block: None,
        challenge_passed: false,
        last_post: None,
        posts_by_user: 0,
        posts_by_address: 0,
    }
}

#[test]
fn a_clean_address_and_user_pass() {
    let f = facts(SLOW_MODE_SCORE_FLOOR, false);
    assert_eq!(posting_verdict(f, 1000, Limits::default(), ChallengeRules::default()), Ok(()));
}

#[test]
fn an_active_address_block_refuses_everyone() {
    let mut f = facts(100, true);
    f.block = Some(BlockState { active: true, mode: BlockMode::Refuse });
    assert_eq!(
        posting_verdict(f, 1000, Limits::default(), ChallengeRules::default()),
        Err(AbuseError::AddressBlocked)
    );
    f.block = Some(BlockState { active: false, mode: BlockMode::Refuse });
    assert_eq!(posting_verdict(f, 1000, Limits::default(), ChallengeRules::default()), Ok(()));
}

#[test]
fn a_low_standing_author_must_wait_out_slow_mode() {
    let mut f = facts(0, false);
    f.last_post = Some(1000);
    assert_eq!(
        posting_verdict(f, 1030, Limits::default(), ChallengeRules::default()),
        Err(AbuseError::SlowMode)
    );
    assert_eq!(
        posting_verdict(f, 1000 + SLOW_MODE_INTERVAL + 1, Limits::default(), ChallengeRules::default()),
        Ok(())
    );
    let mut established = facts(SLOW_MODE_SCORE_FLOOR, false);
    established.last_post = Some(1000);
    assert_eq!(posting_verdict(established, 1001, Limits::default(), ChallengeRules::default()), Ok(()));
}

#[test]
fn rates_and_challenges_hold_everyone_but_moderators() {
    let mut f = facts(50, false);
    f.posts_by_user = 5;
    assert_eq!(
        posting_verdict(f, 1000, Limits::default(), ChallengeRules::default()),
        Err(AbuseError::RateLimited)
    );
    f.posts_by_user = 0;
    f.posts_by_address = 120;
    assert_eq!(
        posting_verdict(f, 1000, Limits::default(), ChallengeRules::default()),
        Err(AbuseError::RateLimited)
    );
    let mut m = facts(0, true);
    m.posts_by_user = 500;
    m.last_post = Some(999);
    assert_eq!(posting_verdict(m, 1000, Limits::default(), ChallengeRules::default()), Ok(()));
    let rules = ChallengeRules { on_register: false, below_floor: true };
    let low = facts(0, false);
    assert!(challenge_needed(low.score, false, None, Limits::default(), rules));
    assert_eq!(posting_verdict(low, 1000, Limits::default(), rules), Err(AbuseError::ChallengeRequired));
    let block = Some(BlockState { active: true, mode: BlockMode::Challenge });
    assert!(challenge_needed(50, false, block, Limits::default(), ChallengeRules::default()));
    assert!(!challenge_needed(50, true, block, Limits::default(), ChallengeRules::default()));
    assert_eq!(registration_verdict(ChallengeRules::default(), false), Ok(()));
    assert_eq!(
        registration_verdict(ChallengeRules { on_register: true, below_floor: false }, false),
        Err(AbuseError::ChallengeRequired)
    );
    assert!(is_address_blocked(Some(BlockState { active: true, mode: BlockMode::Allow })));
    assert!(!is_address_blocked(None));
}

#[test]
fn a_sweep_takes_down_what_is_still_up() {
    let refs = vec![PostRef::Topic(1), PostRef::Comment(2), PostRef::Comment(3)];
    let found = vec![Some(false), Some(true), None];
    assert_eq!(posts_to_remove(true, &refs, &found), Ok(vec![PostRef::Topic(1)]));
    assert_eq!(posts_to_remove(false, &refs, &found), Err(AbuseError::NotAuthorized));
}

fn member(id: u128, moderator: bool) -> Member {
    Member { id, is_moderator: moderator, may_correct: moderator, score: 0, active: true }
}

#[test]
fn a_subject_from_a_plain_member_starts_queued_and_a_queued_one_is_hidden() {
    assert_eq!(topic_admission(true, true, &member(1, false)), Ok(true));
    assert_eq!(topic_admission(true, true, &member(1, true)), Ok(false));
    assert_eq!(topic_admission(false, true, &member(1, true)), Err(CreateTopicError::SectionNotFound));
    assert_eq!(topic_admission(true, false, &member(1, false)), Err(CreateTopicError::Restricted));
    let author = member(7, false);
    let queued = topic(1, 7, 0, true);
    assert!(Visibility::of(Some(&author)).allows(&queued));
    assert!(!Visibility::of(Some(&member(8, false))).allows(&queued));
    assert!(!Visibility::anonymous().allows(&queued));
    assert!(Visibility::moderator().allows(&queued));
    let list = vec![queued, topic(2, 8, 0, false)];
    assert_eq!(Visibility::anonymous().visible(&list), vec![1]);
}

#[test]
fn a_move_stays_within_the_section() {
    let t = topic(1, 7, 0, false);
    assert_eq!(move_verdict(false, Some(t), 9, Some(0)), Err(MoveTopicError::NotAuthorized));
    assert_eq!(move_verdict(true, None, 9, Some(0)), Err(MoveTopicError::NotFound));
    assert_eq!(move_verdict(true, Some(t), 9, None), Err(MoveTopicError::GroupNotFound));
    assert_eq!(move_verdict(true, Some(t), 9, Some(5)), Err(MoveTopicError::WrongSection));
    assert_eq!(move_verdict(true, Some(t), 9, Some(0)).unwrap().group_id, Some(9));
}

#[test]
fn sticky_topics_come_first_and_the_rest_keep_their_order() {
    let mut stuck = topic(2, 1, 0, false);
    stuck.sticky = true;
    let ordered = order_sticky_first(vec![topic(1, 1, 0, false), stuck, topic(3, 1, 0, false)]);
    let ids: Vec<u128> = ordered.iter().map(|t| t.id).collect();
    assert_eq!(ids, vec![2, 1, 3]);
}

#[test]
fn a_draft_is_visible_only_to_its_author_and_published_by_them() {
    let mut draft = topic(1, 7, 0, false);
    draft.draft = true;
    assert!(visible_to(&draft, Some(&member(7, false))));
    assert!(!visible_to(&draft, Some(&member(8, true))));
    assert!(!visible_to(&draft, None));
    assert_eq!(publish_verdict(&member(8, false), Some(draft)), Err(FlagError::NotAuthorized));
    assert!(!publish_verdict(&member(7, false), Some(draft)).unwrap().draft);
    assert_eq!(publish_verdict(&member(7, false), None), Err(FlagError::NotFound));
}

#[test]
fn a_remark_tells_the_author_it_answers_but_never_the_writer() {
    assert_eq!(comment_verdict(Some(1), true, true, 10, None, None, 2), Ok(Some(1)));
    assert_eq!(comment_verdict(Some(1), true, true, 10, None, None, 1), Ok(None));
    let parent = ParentFacts { topic_id: 10, author_id: 3 };
    assert_eq!(comment_verdict(Some(1), true, true, 10, Some(5), Some(parent), 2), Ok(Some(3)));
    assert_eq!(
        comment_verdict(Some(1), true, true, 11, Some(5), Some(parent), 2),
        Err(PostCommentError::ParentInDifferentTopic)
    );
    assert_eq!(
        comment_verdict(Some(1), true, true, 10, Some(5), None, 2),
        Err(PostCommentError::ParentNotFound)
    );
    assert_eq!(comment_verdict(None, true, true, 10, None, None, 2), Err(PostCommentError::TopicNotFound));
    assert_eq!(comment_verdict(Some(1), false, true, 10, None, None, 2), Err(PostCommentError::TopicNotFound));
    assert_eq!(comment_verdict(Some(1), true, false, 10, None, None, 2), Err(PostCommentError::Restricted));
}

#[test]
fn edits_belong_to_authors_and_correctors_and_not_to_removed_posts() {
    assert_eq!(edit_verdict(&member(1, false), None), Err(EditError::NotFound));
    assert_eq!(edit_verdict(&member(2, false), Some((1, false))), Err(EditError::NotAuthorized));
    assert_eq!(edit_verdict(&member(2, true), Some((1, false))), Ok(()));
    assert_eq!(edit_verdict(&member(1, false), Some((1, true))), Err(EditError::Deleted));
}

#[test]
fn switching_a_reaction_reverses_the_previous_one() {
    assert_eq!(reaction_delta(1, 2, None, Some(1)), 1);
    assert_eq!(reaction_delta(1, 2, Some(2), Some(-1)), -3);
    assert_eq!(reaction_delta(1, 2, Some(1), None), -1);
    assert_eq!(reaction_delta(1, 1, None, Some(5)), 0);
}

#[test]
fn votes_count_only_for_answers_of_the_poll() {
    let options = vec![1u128, 2];
    assert_eq!(vote_verdict(Some(&options), 2), Ok(()));
    assert_eq!(vote_verdict(Some(&options), 3), Err(VoteError::UnknownOption));
    assert_eq!(vote_verdict(None, 1), Err(VoteError::PollNotFound));
}

#[test]
fn ignored_authors_drop_out_of_recent_activity() {
    assert_eq!(unignored(&vec![1, 2, 1, 3], &vec![1]), vec![1, 3]);
    assert_eq!(unignored(&vec![1, 2], &vec![]), vec![0, 1]);
}

#[test]
fn watchers_and_mentions_skip_the_writer_and_who_was_told() {
    assert_eq!(watchers_to_notify(&vec![1, 2, 3, 4], 2, 3), vec![1, 4]);
    assert_eq!(mentions_to_notify(&vec![Some(5), None, Some(2), Some(6)], 2, &vec![6]), vec![5]);
    assert_eq!(mark_read_verdict(Some(1), 1), Ok(()));
    assert_eq!(mark_read_verdict(Some(1), 2), Err(MarkReadError::NotFound));
    assert_eq!(mark_read_verdict(None, 2), Err(MarkReadError::NotFound));
}

#[test]
fn sanctions_take_a_moderator_and_another_member_who_exists() {
    assert_eq!(sanction_verdict(&member(1, false), 2, true), Err(EnforcementError::NotAuthorized));
    assert_eq!(sanction_verdict(&member(1, true), 1, true), Err(EnforcementError::NotYourself));
    assert_eq!(sanction_verdict(&member(1, true), 2, false), Err(EnforcementError::UserNotFound));
    assert_eq!(sanction_verdict(&member(1, true), 2, true), Ok(()));
}

#[test]
fn standing_sweeps_spare_moderators_the_departed_and_the_banned() {
    let mut gone = member(3, false);
    gone.active = false;
    let members = vec![member(1, false), member(2, true), gone, member(4, false)];
    assert_eq!(to_ban_for_standing(&members, &vec![false, false, false, true]), vec![1]);
}

#[test]
fn reports_point_at_what_exists_and_are_limited() {
    assert_eq!(report_target(1, None, None, true), Ok(ReportTarget::Topic(1)));
    assert_eq!(report_target(1, None, None, false), Err(ReportError::TargetNotFound));
    assert_eq!(report_target(1, Some(2), Some(1), false), Ok(ReportTarget::Comment(1, 2)));
    assert_eq!(report_target(1, Some(2), Some(9), true), Err(ReportError::TargetNotFound));
    assert_eq!(report_verdict(true, 0), Err(ReportError::AlreadyReported));
    assert_eq!(report_verdict(false, 10), Err(ReportError::TooMany));
    assert_eq!(report_verdict(false, 9), Ok(()));
}

#[test]
fn invitations_admit_only_by_a_usable_code_when_codes_are_required() {
    assert_eq!(admit_verdict(false, false, None), Ok(()));
    assert_eq!(admit_verdict(true, false, None), Err(AdmissionError::CodeRequired));
    assert_eq!(
        admit_verdict(true, true, None),
        Err(AdmissionError::CodeNotUsable(SpendError::Unknown))
    );
    let spent = InvitationState { spent: true, spendable: true };
    let lapsed = InvitationState { spent: false, spendable: false };
    let fresh = InvitationState { spent: false, spendable: true };
    assert_eq!(spend_verdict(Some(spent), true), Err(SpendError::AlreadySpent));
    assert_eq!(spend_verdict(Some(lapsed), true), Err(SpendError::Expired));
    assert_eq!(spend_verdict(Some(fresh), false), Err(SpendError::AlreadySpent));
    assert_eq!(spend_verdict(Some(fresh), true), Ok(InvitationState { spent: true, ..fresh }));
    let settings = InvitationSettings::default();
    assert!(issue_verdict(4, &settings).is_ok());
    assert!(issue_verdict(5, &settings).is_err());
    assert_eq!(settings.lifetime, 7 * DAY);
}

#[test]
fn sign_in_codes_and_limits() {
    assert_eq!(sign_in_verdict(None, true), Err(SignInError::NotFound));
    assert_eq!(sign_in_verdict(Some(false), true), Err(SignInError::NotFound));
    assert_eq!(sign_in_verdict(Some(true), false), Err(SignInError::WrongPassword));
    assert_eq!(sign_in_verdict(Some(true), true), Ok(()));
    assert_eq!(attempts_verdict(10, SignInLimits::default()), Err(TooManyAttempts));
    assert_eq!(attempts_verdict(9, SignInLimits::default()), Ok(()));
    let reset = TokenState { purpose: TokenPurpose::PasswordReset, redeemable: true };
    assert_eq!(
        redeem_verdict(Some(reset), TokenPurpose::PasswordReset, true),
        Ok(TokenState { redeemable: false, ..reset })
    );
    assert_eq!(redeem_verdict(Some(reset), TokenPurpose::Activation, true), Err(RedeemError::Unusable));
    assert_eq!(redeem_verdict(None, TokenPurpose::Activation, true), Err(RedeemError::Unusable));
    assert_eq!(register_verdict(true, true), Err(RegisterError::UsernameTaken));
    assert_eq!(register_verdict(false, true), Err(RegisterError::EmailTaken));
    assert_eq!(operator_verdict(true, true, false), Ok(false));
    assert_eq!(operator_verdict(false, false, true), Err(OperatorError::InvalidUsername));
    assert_eq!(operator_verdict(true, false, false), Err(OperatorError::InvalidEmail));
    let settings = OperatorSettings::default();
    assert_eq!(settings.username, "admin");
    assert_eq!(settings.email, "admin@example.com");
}

#[test]
fn test_hashers_and_messages_say_what_they_hold() {
    assert_eq!(FakeHasher.hash("pw"), "hashed:pw");
    assert!(FakeHasher.verify("pw", "hashed:pw"));
    assert!(!FakeHasher.verify("pw", "hashed:px"));
    assert_eq!(PlainDigest.digest("s"), "digest:s");
    let m = reset_message("a@example.com", "123");
    assert_eq!(m.subject, "Reset your password");
    assert_eq!(m.body, "Use this code to choose a new password: 123");
    let n = new_network_message("a@example.com", "203.0.113.10");
    assert_eq!(n.body, "Your account was used from 203.0.113.10.");
}

fn follow(search: MeaningSearch, answers: &[Option<Option<&str>>]) -> String {
    let mut step = MeaningStep::Ask(search);
    let mut i = 0;
    loop {
        match step {
            MeaningStep::Settled(slug) => return slug,
            MeaningStep::Ask(s) => {
                let found = answers[i].map(|o| o.map(|x| x.to_owned()));
                i += 1;
                step = s.step(found);
            }
        }
    }
}

#[test]
fn a_chain_of_meanings_is_followed_to_the_end_and_a_circle_stops() {
    assert_eq!(follow(MeaningSearch::start("rust"), &[None]), "rust");
    assert_eq!(follow(MeaningSearch::start("rust"), &[Some(None)]), "rust");
    assert_eq!(
        follow(MeaningSearch::start("rs"), &[Some(Some("rustlang")), Some(Some("rust")), Some(None)]),
        "rust"
    );
    assert_eq!(
        follow(MeaningSearch::start("one"), &[Some(Some("two")), Some(Some("one"))]),
        "two"
    );
    let long: Vec<Option<Option<&str>>> = vec![
        Some(Some("b")), Some(Some("c")), Some(Some("d")), Some(Some("e")),
        Some(Some("f")), Some(Some("g")), Some(Some("h")), Some(Some("i")),
        Some(Some("j")),
    ];
    assert_eq!(follow(MeaningSearch::start("a"), &long), "i");
    assert_eq!(synonym_verdict(true, "rust", "rust"), Err(TagError::MeansItself));
    assert_eq!(synonym_verdict(false, "rs", "rust"), Err(TagError::NotAuthorized));
    assert_eq!(synonym_verdict(true, "rs", "rust"), Ok(()));
}

#[test]
fn a_test_mailer_gives_back_what_it_was_handed_in_order() {
    let mut mailer = FakeMailer::new();
    assert!(mailer.sent().is_empty());
    mailer.record(&Message {
        to: "ann@example.com".to_owned(),
        subject: "first".to_owned(),
        body: "one".to_owned(),
    });
    mailer.record(&reset_message("bob@example.com", "s3cret"));
    let sent = mailer.sent();
    assert_eq!(sent.len(), 2);
    assert_eq!(sent[0].to, "ann@example.com");
    assert_eq!(sent[0].subject, "first");
    assert_eq!(sent[0].body, "one");
    assert_eq!(sent[1].to, "bob@example.com");
    assert!(sent[1].body.contains("s3cret"));
}

fn challenged_below_floor() -> ChallengeRules {
    ChallengeRules { on_register: false, below_floor: true }
}

fn established() -> PostingFacts {
    facts(SLOW_MODE_SCORE_FLOOR, false)
}

#[test]
fn a_lapsed_address_block_allows_posting() {
    let mut f = facts(0, false);
    f.block = Some(BlockState { active: false, mode: BlockMode::Refuse });
    assert_eq!(posting_verdict(f, 7200, Limits::default(), ChallengeRules::default()), Ok(()));
}

#[test]
fn slow_mode_clears_after_the_interval() {
    let mut f = facts(0, false);
    f.last_post = Some(0);
    assert_eq!(
        posting_verdict(f, SLOW_MODE_INTERVAL + 1, Limits::default(), ChallengeRules::default()),
        Ok(())
    );
}

#[test]
fn an_established_author_is_not_slowed() {
    let mut f = facts(60, false);
    f.last_post = Some(0);
    assert_eq!(posting_verdict(f, 1, Limits::default(), ChallengeRules::default()), Ok(()));
}

#[test]
fn a_moderator_is_not_slowed_or_rated() {
    let mut f = facts(0, true);
    f.last_post = Some(0);
    f.posts_by_address = RATE_LIMIT_MAX + 5;
    assert_eq!(posting_verdict(f, 1, Limits::default(), ChallengeRules::default()), Ok(()));
}

#[test]
fn an_address_over_the_rate_is_refused() {
    let mut f = established();
    f.posts_by_address = RATE_LIMIT_MAX;
    assert_eq!(
        posting_verdict(f, 0, Limits::default(), ChallengeRules::default()),
        Err(AbuseError::RateLimited)
    );
}

#[test]
fn a_rate_under_the_limit_passes() {
    let f = established();
    assert_eq!(posting_verdict(f, 0, Limits::default(), ChallengeRules::default()), Ok(()));
}

#[test]
fn a_plain_user_cannot_block_an_address() {
    assert_eq!(require_moderator(false), Err(AbuseError::NotAuthorized));
    assert_eq!(require_moderator(true), Ok(()));
}

#[test]
fn a_plain_user_cannot_lift_an_address_block() {
    assert_eq!(require_moderator(false), Err(AbuseError::NotAuthorized));
}

#[test]
fn an_account_is_limited_before_the_address_ceiling_bites() {
    let mut f = established();
    f.posts_by_user = ACCOUNT_RATE_LIMIT_MAX;
    f.posts_by_address = ACCOUNT_RATE_LIMIT_MAX;
    assert_eq!(
        posting_verdict(f, 0, Limits::default(), ChallengeRules::default()),
        Err(AbuseError::RateLimited)
    );
}

#[test]
fn one_busy_account_does_not_silence_another_on_the_same_address() {
    let mut noisy = established();
    noisy.posts_by_user = ACCOUNT_RATE_LIMIT_MAX;
    noisy.posts_by_address = ACCOUNT_RATE_LIMIT_MAX;
    assert_eq!(
        posting_verdict(noisy, 0, Limits::default(), ChallengeRules::default()),
        Err(AbuseError::RateLimited)
    );
    let mut quiet = established();
    quiet.posts_by_address = ACCOUNT_RATE_LIMIT_MAX;
    assert_eq!(posting_verdict(quiet, 0, Limits::default(), ChallengeRules::default()), Ok(()));
}

#[test]
fn the_address_ceiling_still_holds_against_many_accounts() {
    let mut fresh = established();
    fresh.posts_by_address = RATE_LIMIT_MAX;
    assert_eq!(
        posting_verdict(fresh, 0, Limits::default(), ChallengeRules::default()),
        Err(AbuseError::RateLimited)
    );
}

#[test]
fn the_address_ceiling_is_looser_than_the_account_limit() {
    assert!(RATE_LIMIT_MAX > ACCOUNT_RATE_LIMIT_MAX);
}

#[test]
fn nothing_is_challenged_while_the_rules_are_off() {
    let f = facts(0, false);
    assert!(!challenge_needed(0, false, None, Limits::default(), ChallengeRules::default()));
    assert_eq!(posting_verdict(f, 0, Limits::default(), ChallengeRules::default()), Ok(()));
}

#[test]
fn a_low_standing_author_must_answer_when_the_rule_is_on() {
    let mut f = facts(0, false);
    assert_eq!(
        posting_verdict(f, 0, Limits::default(), challenged_below_floor()),
        Err(AbuseError::ChallengeRequired)
    );
    f.challenge_passed = true;
    assert_eq!(posting_verdict(f, 0, Limits::default(), challenged_below_floor()), Ok(()));
}

#[test]
fn an_established_author_is_never_challenged_by_standing() {
    assert!(!challenge_needed(
        SLOW_MODE_SCORE_FLOOR,
        false,
        None,
        Limits::default(),
        challenged_below_floor()
    ));
    assert_eq!(posting_verdict(established(), 0, Limits::default(), challenged_below_floor()), Ok(()));
}

#[test]
fn a_block_in_challenge_mode_asks_instead_of_refusing() {
    let mut f = established();
    f.block = Some(BlockState { active: true, mode: BlockMode::Challenge });
    assert_eq!(
        posting_verdict(f, 0, Limits::default(), ChallengeRules::default()),
        Err(AbuseError::ChallengeRequired)
    );
    f.challenge_passed = true;
    assert_eq!(posting_verdict(f, 0, Limits::default(), ChallengeRules::default()), Ok(()));
}

#[test]
fn a_block_in_allow_mode_lets_the_write_through() {
    let mut f = established();
    f.block = Some(BlockState { active: true, mode: BlockMode::Allow });
    assert_eq!(posting_verdict(f, 0, Limits::default(), ChallengeRules::default()), Ok(()));
}

#[test]
fn a_moderator_is_never_challenged() {
    let mut f = facts(0, true);
    f.block = Some(BlockState { active: true, mode: BlockMode::Challenge });
    assert_eq!(posting_verdict(f, 0, Limits::default(), challenged_below_floor()), Ok(()));
}

#[test]
fn registration_asks_only_when_the_rule_is_on() {
    assert_eq!(registration_verdict(ChallengeRules::default(), false), Ok(()));
    let rules = ChallengeRules { on_register: true, below_floor: false };
    assert_eq!(registration_verdict(rules, false), Err(AbuseError::ChallengeRequired));
    assert_eq!(registration_verdict(rules, true), Ok(()));
}

const TOPIC: u128 = 7;
const TOPIC_AUTHOR: u128 = 1;

#[test]
fn notifies_the_topic_author_of_a_new_comment() {
    assert_eq!(
        comment_verdict(Some(TOPIC_AUTHOR), true, true, TOPIC, None, None, 2),
        Ok(Some(TOPIC_AUTHOR))
    );
}

#[test]
fn notifies_the_parent_author_of_a_reply() {
    let parent = ParentFacts { topic_id: TOPIC, author_id: 3 };
    assert_eq!(
        comment_verdict(Some(TOPIC_AUTHOR), true, true, TOPIC, Some(40), Some(parent), 2),
        Ok(Some(3))
    );
}

#[test]
fn does_not_notify_you_about_your_own_comment() {
    assert_eq!(
        comment_verdict(Some(TOPIC_AUTHOR), true, true, TOPIC, None, None, TOPIC_AUTHOR),
        Ok(None)
    );
}

#[test]
fn rejects_posting_to_an_unknown_topic() {
    assert_eq!(
        comment_verdict(None, true, true, TOPIC, None, None, 2),
        Err(PostCommentError::TopicNotFound)
    );
}

#[test]
fn rejects_replying_to_an_unknown_parent() {
    assert_eq!(
        comment_verdict(Some(TOPIC_AUTHOR), true, true, TOPIC, Some(40), None, 2),
        Err(PostCommentError::ParentNotFound)
    );
}

#[test]
fn rejects_a_parent_from_a_different_topic() {
    let foreign = ParentFacts { topic_id: TOPIC + 1, author_id: 3 };
    assert_eq!(
        comment_verdict(Some(TOPIC_AUTHOR), true, true, TOPIC, Some(40), Some(foreign), 2),
        Err(PostCommentError::ParentInDifferentTopic)
    );
}

#[test]
fn even_a_moderator_is_refused_when_comments_are_closed() {
    assert_eq!(
        comment_verdict(Some(TOPIC_AUTHOR), true, false, TOPIC, None, None, 9),
        Err(PostCommentError::Restricted)
    );
}

#[test]
fn a_reader_reports_a_topic() {
    assert_eq!(report_target(TOPIC, None, None, true), Ok(ReportTarget::Topic(TOPIC)));
    assert_eq!(report_verdict(false, 0), Ok(()));
}

#[test]
fn a_reader_reports_a_comment() {
    assert_eq!(
        report_target(TOPIC, Some(40), Some(TOPIC), true),
        Ok(ReportTarget::Comment(TOPIC, 40))
    );
}

#[test]
fn reporting_an_unknown_target_is_refused() {
    assert_eq!(report_target(TOPIC, None, None, false), Err(ReportError::TargetNotFound));
    assert_eq!(report_target(TOPIC, Some(40), None, true), Err(ReportError::TargetNotFound));
}

#[test]
fn reporting_the_same_post_twice_is_refused_while_it_is_open() {
    assert_eq!(report_verdict(true, 1), Err(ReportError::AlreadyReported));
}

#[test]
fn another_reader_may_report_the_same_post() {
    assert_eq!(report_verdict(false, 0), Ok(()));
}

#[test]
fn a_reader_may_not_flood_reports() {
    assert_eq!(report_verdict(false, REPORTS_PER_HOUR), Err(ReportError::TooMany));
    assert_eq!(report_verdict(false, REPORTS_PER_HOUR - 1), Ok(()));
}

#[test]
fn only_a_moderator_sees_the_queue() {
    assert_eq!(list_reports_verdict(false), Err(ReportError::NotAuthorized));
    assert_eq!(list_reports_verdict(true), Ok(()));
}

#[test]
fn closing_a_closed_report_is_refused() {
    assert_eq!(close_verdict(true, Some(false)), Err(ReportError::AlreadyClosed));
    assert_eq!(close_verdict(true, Some(true)), Ok(()));
}

#[test]
fn a_plain_user_cannot_close_a_report() {
    assert_eq!(close_verdict(false, Some(true)), Err(ReportError::NotAuthorized));
}

#[test]
fn closing_an_unknown_report_is_refused() {
    assert_eq!(close_verdict(true, None), Err(ReportError::NotFound));
}

#[test]
fn reporting_a_comment_from_another_topic_is_refused() {
    assert_eq!(report_target(TOPIC, Some(40), Some(TOPIC + 1), true), Err(ReportError::TargetNotFound));
}

const AUTHOR: u128 = 1;

#[test]
fn author_edits_own_topic() {
    assert_eq!(edit_verdict(&member(AUTHOR, false), Some((AUTHOR, false))), Ok(()));
}

#[test]
fn moderator_edits_another_authors_topic() {
    assert_eq!(edit_verdict(&member(9, true), Some((AUTHOR, false))), Ok(()));
}

#[test]
fn stranger_cannot_edit_someone_elses_topic() {
    assert_eq!(edit_verdict(&member(2, false), Some((AUTHOR, false))), Err(EditError::NotAuthorized));
}

#[test]
fn rejects_editing_an_unknown_topic() {
    assert_eq!(edit_verdict(&member(AUTHOR, false), None), Err(EditError::NotFound));
}

#[test]
fn rejects_editing_a_deleted_topic() {
    assert_eq!(edit_verdict(&member(AUTHOR, false), Some((AUTHOR, true))), Err(EditError::Deleted));
}

#[test]
fn author_edits_own_comment() {
    assert_eq!(edit_verdict(&member(AUTHOR, false), Some((AUTHOR, false))), Ok(()));
}

#[test]
fn stranger_cannot_edit_someone_elses_comment() {
    assert_eq!(edit_verdict(&member(3, false), Some((AUTHOR, false))), Err(EditError::NotAuthorized));
}

#[test]
fn rejects_editing_a_deleted_comment() {
    assert_eq!(edit_verdict(&member(AUTHOR, false), Some((AUTHOR, true))), Err(EditError::Deleted));
}

#[test]
fn rejects_editing_an_unknown_comment() {
    assert_eq!(edit_verdict(&member(AUTHOR, false), None), Err(EditError::NotFound));
}

const FRESH: InvitationState = InvitationState { spent: false, spendable: true };

#[test]
fn a_code_is_spent_exactly_once() {
    assert_eq!(spend_verdict(Some(FRESH), true), Ok(InvitationState { spent: true, ..FRESH }));
    let spent = InvitationState { spent: true, spendable: true };
    assert_eq!(spend_verdict(Some(spent), true), Err(SpendError::AlreadySpent));
}

#[test]
fn only_the_first_writer_claims_it() {
    assert_eq!(spend_verdict(Some(FRESH), true), Ok(InvitationState { spent: true, ..FRESH }));
    assert_eq!(spend_verdict(Some(FRESH), false), Err(SpendError::AlreadySpent));
}

#[test]
fn a_code_nobody_issued_is_refused() {
    assert_eq!(spend_verdict(None, true), Err(SpendError::Unknown));
}

#[test]
fn a_code_past_its_expiry_is_refused() {
    let lapsed = InvitationState { spent: false, spendable: false };
    assert_eq!(spend_verdict(Some(lapsed), true), Err(SpendError::Expired));
}

#[test]
fn an_issuer_may_not_leave_more_than_the_settings_allow_outstanding() {
    let settings = InvitationSettings::default();
    assert_eq!(issue_verdict(settings.max_outstanding - 1, &settings), Ok(()));
    assert_eq!(issue_verdict(settings.max_outstanding, &settings), Err(IssueError::TooManyOutstanding));
}

#[test]
fn nobody_needs_a_code_while_registration_is_open() {
    assert_eq!(admit_verdict(false, false, None), Ok(()));
}

#[test]
fn a_code_is_demanded_once_the_operator_closes_registration() {
    assert_eq!(admit_verdict(true, false, None), Err(AdmissionError::CodeRequired));
}

#[test]
fn a_valid_code_admits_whoever_holds_it() {
    assert_eq!(admit_verdict(true, true, Some(FRESH)), Ok(()));
}

#[test]
fn a_code_that_cannot_be_spent_admits_nobody() {
    let spent = InvitationState { spent: true, spendable: true };
    assert_eq!(
        admit_verdict(true, true, Some(spent)),
        Err(AdmissionError::CodeNotUsable(SpendError::AlreadySpent))
    );
    assert_eq!(
        admit_verdict(true, true, None),
        Err(AdmissionError::CodeNotUsable(SpendError::Unknown))
    );
}

#[test]
fn an_expired_code_admits_nobody() {
    let lapsed = InvitationState { spent: false, spendable: false };
    assert_eq!(
        admit_verdict(true, true, Some(lapsed)),
        Err(AdmissionError::CodeNotUsable(SpendError::Expired))
    );
}

#[test]
fn a_wrong_code_is_refused_even_while_registration_is_open() {
    assert_eq!(
        admit_verdict(false, true, None),
        Err(AdmissionError::CodeNotUsable(SpendError::Unknown))
    );
}

fn mail_if_sent(member_active: Option<bool>, to: &str, secret: &str) -> FakeMailer {
    let mut mailer = FakeMailer::new();
    if reset_is_sent(member_active) {
        mailer.record(&reset_message(to, secret));
    }
    mailer
}

#[test]
fn a_reset_request_mails_a_code_to_the_address() {
    let sent = mail_if_sent(Some(true), "owner@example.com", "secret-code").sent();
    assert_eq!(sent.len(), 1);
    assert_eq!(sent[0].to, "owner@example.com");
    assert_eq!(sent[0].subject, "Reset your password");
    assert!(sent[0].body.contains("secret-code"));
}

#[test]
fn an_unknown_address_is_answered_the_same_way_and_mails_nothing() {
    assert!(mail_if_sent(None, "nobody@example.com", "secret-code").sent().is_empty());
    assert!(mail_if_sent(Some(false), "owner@example.com", "secret-code").sent().is_empty());
}

#[test]
fn only_the_digest_of_the_code_is_stored() {
    let stored = PlainDigest.digest("secret-code");
    assert_eq!(stored, "digest:secret-code");
    assert!(!stored.contains("secret-code_plain"));
}

fn reset_code(redeemable: bool) -> TokenState {
    TokenState { purpose: TokenPurpose::PasswordReset, redeemable }
}

#[test]
fn a_code_cannot_be_used_twice() {
    assert_eq!(
        redeem_verdict(Some(reset_code(true)), TokenPurpose::PasswordReset, true),
        Ok(reset_code(false))
    );
    assert_eq!(
        redeem_verdict(Some(reset_code(false)), TokenPurpose::PasswordReset, true),
        Err(RedeemError::Unusable)
    );
}

#[test]
fn an_expired_code_is_refused() {
    assert_eq!(
        redeem_verdict(Some(reset_code(false)), TokenPurpose::PasswordReset, true),
        Err(RedeemError::Unusable)
    );
}

#[test]
fn a_wrong_code_is_refused() {
    assert_eq!(redeem_verdict(None, TokenPurpose::PasswordReset, true), Err(RedeemError::Unusable));
}

#[test]
fn an_activation_code_cannot_reset_a_password() {
    let activation = TokenState { purpose: TokenPurpose::Activation, redeemable: true };
    assert_eq!(
        redeem_verdict(Some(activation), TokenPurpose::PasswordReset, true),
        Err(RedeemError::Unusable)
    );
    assert_eq!(
        redeem_verdict(Some(activation), TokenPurpose::Activation, true),
        Ok(TokenState { redeemable: false, ..activation })
    );
}

#[test]
fn an_address_already_in_use_is_refused() {
    assert_eq!(email_change_verdict(true), Err(ChangeEmailError::AddressTaken));
    assert_eq!(email_change_verdict(false), Ok(()));
}

#[test]
fn rejects_creation_in_an_unknown_section() {
    assert_eq!(topic_admission(false, true, &member(1, false)), Err(CreateTopicError::SectionNotFound));
}

#[test]
fn get_topic_returns_none_for_unknown_id() {
    assert!(!shown(None, &Visibility::moderator()));
}

#[test]
fn a_low_score_user_is_refused_in_a_restricted_section() {
    assert_eq!(topic_admission(true, false, &member(1, false)), Err(CreateTopicError::Restricted));
}

#[test]
fn a_moderator_can_post_in_a_restricted_section() {
    assert_eq!(topic_admission(true, true, &member(9, true)), Ok(false));
}

#[test]
fn a_moderator_can_set_a_topics_comment_restriction() {
    assert_eq!(postscore_verdict(true, true), Ok(()));
}

#[test]
fn a_plain_user_cannot_set_a_topics_restriction() {
    assert_eq!(postscore_verdict(false, true), Err(SetPostscoreError::NotAuthorized));
}

#[test]
fn setting_a_restriction_on_an_unknown_topic_fails() {
    assert_eq!(postscore_verdict(true, false), Err(SetPostscoreError::NotFound));
}

#[test]
fn a_topic_from_a_plain_user_starts_pending() {
    assert_eq!(topic_admission(true, true, &member(1, false)), Ok(true));
    let queued = topic(1, 1, 0, true);
    assert!(!shown(Some(queued), &Visibility::anonymous()));
    assert!(shown(Some(queued), &Visibility::moderator()));
}

#[test]
fn an_author_sees_their_own_queued_topic_but_a_stranger_does_not() {
    let author = member(1, false);
    let stranger = member(2, false);
    let queued = topic(5, 1, 0, true);
    assert!(shown(Some(queued), &Visibility::of(Some(&author))));
    assert!(!shown(Some(queued), &Visibility::of(Some(&stranger))));
    assert!(!shown(Some(queued), &Visibility::anonymous()));
    assert_eq!(Visibility::of(Some(&author)).visible(&vec![queued]), vec![0]);
    assert!(Visibility::of(Some(&stranger)).visible(&vec![queued]).is_empty());
}

#[test]
fn a_moderator_topic_starts_committed() {
    assert_eq!(topic_admission(true, true, &member(9, true)), Ok(false));
}

#[test]
fn a_moderator_commits_and_uncommits_a_topic() {
    let queued = topic(5, 1, 0, true);
    let committed = commit_verdict(true, Some(queued), false).unwrap();
    assert!(!committed.pending);
    let uncommitted = commit_verdict(true, Some(committed), true).unwrap();
    assert!(uncommitted.pending);
    assert_eq!(commit_verdict(false, Some(queued), false), Err(CommitTopicError::NotAuthorized));
    assert_eq!(commit_verdict(true, None, false), Err(CommitTopicError::NotFound));
}

#[test]
fn a_moderator_moves_a_topic_between_groups_in_one_section() {
    let t = topic(5, 1, 0, false);
    let moved = move_verdict(true, Some(t), 77, Some(t.section_id)).unwrap();
    assert_eq!(moved.group_id, Some(77));
    assert_eq!(move_verdict(true, Some(t), 78, None), Err(MoveTopicError::GroupNotFound));
}

#[test]
fn a_move_rejects_a_group_in_another_section() {
    let t = topic(5, 1, 0, false);
    assert_eq!(move_verdict(true, Some(t), 77, Some(t.section_id + 1)), Err(MoveTopicError::WrongSection));
}

fn draft_by(author: u128, id: u128) -> TopicFacts {
    let mut t = topic(id, author, 0, false);
    t.draft = true;
    t
}

#[test]
fn an_author_publishes_their_own_draft() {
    let published = publish_verdict(&member(1, false), Some(draft_by(1, 1))).unwrap();
    assert!(!published.draft);
    assert_eq!(published.id, 1);
}

#[test]
fn another_account_cannot_publish_someone_elses_draft() {
    assert_eq!(publish_verdict(&member(2, false), Some(draft_by(1, 2))), Err(FlagError::NotAuthorized));
}

#[test]
fn a_draft_is_visible_only_to_its_author() {
    let draft = draft_by(1, 3);
    assert!(visible_to(&draft, Some(&member(1, false))));
    assert!(!visible_to(&draft, Some(&member(2, false))));
    assert!(!visible_to(&draft, None));
}

#[test]
fn a_published_topic_is_visible_to_anyone() {
    let t = topic(4, 1, 0, false);
    assert!(visible_to(&t, None));
    assert!(visible_to(&t, Some(&member(2, false))));
}

#[test]
fn only_a_moderator_makes_a_topic_sticky() {
    assert_eq!(moderator_mark_verdict(false, true), Err(FlagError::NotAuthorized));
    assert_eq!(moderator_mark_verdict(true, true), Ok(()));
    assert!(with_sticky(topic(5, 1, 0, false), true).sticky);
}

#[test]
fn only_a_moderator_keeps_a_topic_off_the_front() {
    assert_eq!(moderator_mark_verdict(false, true), Err(FlagError::NotAuthorized));
    assert_eq!(moderator_mark_verdict(true, true), Ok(()));
}

#[test]
fn the_author_or_a_moderator_marks_a_thread_resolved() {
    let t = topic(6, 1, 0, false);
    assert_eq!(resolve_verdict(&member(2, false), Some(t)), Err(FlagError::NotAuthorized));
    assert_eq!(resolve_verdict(&member(1, false), Some(t)), Ok(()));
    assert_eq!(resolve_verdict(&member(99, true), Some(t)), Ok(()));
}

#[test]
fn flagging_an_unknown_topic_is_refused() {
    assert_eq!(moderator_mark_verdict(true, false), Err(FlagError::NotFound));
    assert_eq!(resolve_verdict(&member(1, false), None), Err(FlagError::NotFound));
}

#[test]
fn a_stranger_cannot_add_a_poll_to_someone_elses_topic() {
    assert_eq!(
        create_poll_verdict::<()>(&member(2, false), Some(1), false),
        Err(CreatePollError::NotTheAuthor)
    );
    assert_eq!(create_poll_verdict::<()>(&member(1, false), Some(1), false), Ok(()));
}

#[test]
fn a_topic_holds_at_most_one_poll() {
    assert_eq!(
        create_poll_verdict::<()>(&member(1, false), Some(1), true),
        Err(CreatePollError::AlreadyExists)
    );
}

#[test]
fn rejects_a_poll_on_an_unknown_topic() {
    assert_eq!(create_poll_verdict::<()>(&member(1, false), None, false), Err(CreatePollError::TopicNotFound));
}

#[test]
fn rejects_a_vote_for_an_option_from_another_poll() {
    let options = vec![1u128, 2];
    assert_eq!(vote_verdict(Some(&options), 3), Err(VoteError::UnknownOption));
    assert_eq!(vote_verdict(Some(&options), 2), Ok(()));
}

#[test]
fn rejects_a_vote_when_the_topic_has_no_poll() {
    assert_eq!(vote_verdict(None, 1), Err(VoteError::PollNotFound));
}

fn keeper() -> Member {
    member(1, true)
}

fn plain_member() -> Member {
    member(2, false)
}

#[test]
fn a_plain_user_cannot_ban_anyone() {
    assert_eq!(sanction_verdict(&plain_member(), 1, true), Err(EnforcementError::NotAuthorized));
}

#[test]
fn a_moderator_cannot_ban_themselves() {
    assert_eq!(sanction_verdict(&keeper(), 1, true), Err(EnforcementError::NotYourself));
}

#[test]
fn banning_an_unknown_user_is_refused() {
    assert_eq!(sanction_verdict(&keeper(), 3, false), Err(EnforcementError::UserNotFound));
}

#[test]
fn only_a_moderator_lifts_a_ban() {
    assert_eq!(require_moderator_to_act(&plain_member()), Err(EnforcementError::NotAuthorized));
    assert_eq!(require_moderator_to_act(&keeper()), Ok(()));
}

#[test]
fn a_moderator_promotes_another_user() {
    let promoted = promote_verdict(&keeper(), Some(plain_member())).unwrap();
    assert!(promoted.is_moderator);
    assert_eq!(promoted.id, 2);
}

#[test]
fn a_plain_user_cannot_promote_anyone() {
    assert_eq!(promote_verdict(&plain_member(), Some(keeper())), Err(EnforcementError::NotAuthorized));
}

#[test]
fn a_plain_user_cannot_warn() {
    assert_eq!(sanction_verdict(&plain_member(), 1, true), Err(EnforcementError::NotAuthorized));
}

#[test]
fn acknowledging_marks_every_outstanding_warning() {
    assert_eq!(warnings_to_acknowledge(&vec![false, true, false]), vec![0, 2]);
    assert!(warnings_to_acknowledge(&vec![true, true]).is_empty());
}

#[test]
fn ignoring_yourself_is_refused() {
    assert_eq!(ignore_verdict(&keeper(), 1, true), Err(EnforcementError::NotYourself));
    assert_eq!(ignore_verdict(&keeper(), 2, true), Ok(()));
    assert_eq!(ignore_verdict(&keeper(), 3, false), Err(EnforcementError::UserNotFound));
}

#[test]
fn a_clean_account_may_try_to_sign_in() {
    assert_eq!(attempts_verdict(0, SignInLimits::default()), Ok(()));
}

#[test]
fn too_many_failures_stop_further_attempts() {
    assert_eq!(attempts_verdict(SIGN_IN_ATTEMPT_MAX, SignInLimits::default()), Err(TooManyAttempts));
    assert_eq!(attempts_verdict(SIGN_IN_ATTEMPT_MAX - 1, SignInLimits::default()), Ok(()));
}

#[test]
fn failures_outside_the_window_do_not_count() {
    let now: i64 = 10_000;
    let later = now + SIGN_IN_ATTEMPT_WINDOW + 1;
    assert!(attempt_window_start(later, SignInLimits::default()) > now);
}

#[test]
fn the_first_sign_in_from_an_address_is_noticed() {
    let message = new_network_message("owner_02@example.com", "203.0.113.10");
    assert_eq!(message.to, "owner_02@example.com");
    assert_eq!(message.subject, "A new sign-in");
    assert!(message.body.contains("203.0.113.10"));
}

#[test]
fn moderator_can_delete_a_topic() {
    assert_eq!(delete_verdict(true, true), Ok(()));
}

#[test]
fn plain_user_cannot_delete_a_topic() {
    assert_eq!(delete_verdict(false, true), Err(DeleteError::NotAuthorized));
}

#[test]
fn rejects_deleting_an_unknown_topic() {
    assert_eq!(delete_verdict(true, false), Err(DeleteError::NotFound));
}

#[test]
fn moderator_can_delete_a_comment() {
    assert_eq!(delete_verdict(true, true), Ok(()));
}

#[test]
fn plain_user_cannot_delete_a_comment() {
    assert_eq!(delete_verdict(false, true), Err(DeleteError::NotAuthorized));
}

#[test]
fn the_penalty_the_moderator_chose_is_what_the_author_pays() {
    assert_eq!(deletion_delta(-7), -7);
    assert!(adjustment_applies(deletion_delta(-7), true));
}

#[test]
fn a_penalty_of_nothing_costs_the_author_nothing() {
    assert_eq!(deletion_delta(0), 0);
    assert!(!adjustment_applies(deletion_delta(0), true));
}

#[test]
fn a_first_approval_earns() {
    assert_eq!(reaction_delta(1, 2, None, Some(3)), 3);
}

#[test]
fn clearing_a_reaction_returns_the_score() {
    assert_eq!(reaction_delta(1, 2, Some(3), None), -3);
    assert_eq!(reaction_delta(1, 2, None, Some(3)) + reaction_delta(1, 2, Some(3), None), 0);
}

#[test]
fn reacting_to_your_own_post_changes_nothing() {
    assert_eq!(reaction_delta(1, 1, None, Some(3)), 0);
    assert!(!adjustment_applies(reaction_delta(1, 1, None, Some(3)), true));
}

#[test]
fn an_unknown_author_is_ignored() {
    assert!(!adjustment_applies(-5, false));
}

#[test]
fn a_penalty_given_back_undoes_it() {
    assert_eq!(deletion_delta(-5) + give_back_delta(-5), 0);
}

#[test]
fn an_operator_says_what_a_tag_is_for() {
    assert_eq!(describe_verdict(true), Ok(()));
}

#[test]
fn nobody_else_may_describe_one() {
    assert_eq!(describe_verdict(false), Err(TagError::NotAuthorized));
    assert_eq!(synonym_verdict(false, "rs", "rust"), Err(TagError::NotAuthorized));
}

#[test]
fn one_tag_may_be_made_to_mean_another() {
    assert_eq!(synonym_verdict(true, "rs", "rust"), Ok(()));
}

#[test]
fn a_tag_that_means_nothing_else_means_itself() {
    assert_eq!(follow(MeaningSearch::start("rust"), &[None]), "rust");
}

#[test]
fn a_tag_may_not_be_made_to_mean_itself() {
    assert_eq!(synonym_verdict(true, "rust", "rust"), Err(TagError::MeansItself));
}

#[test]
fn a_chain_of_meanings_is_followed_to_the_end() {
    assert_eq!(
        follow(MeaningSearch::start("rs"), &[Some(Some("rustlang")), Some(Some("rust")), Some(None)]),
        "rust"
    );
}

#[test]
fn a_circle_of_meanings_does_not_spin_forever() {
    assert_eq!(follow(MeaningSearch::start("a"), &[Some(Some("b")), Some(Some("a"))]), "b");
}

#[test]
fn an_operator_makes_a_section() {
    assert_eq!(create_section_verdict(true, false), Ok(()));
}

#[test]
fn nobody_else_may_make_one() {
    assert_eq!(create_section_verdict(false, false), Err(SectionError::NotAuthorized));
}

#[test]
fn a_slug_is_not_taken_twice() {
    assert_eq!(create_section_verdict(true, true), Err(SectionError::SlugTaken));
}

#[test]
fn an_operator_renames_a_section() {
    assert_eq!(edit_section_verdict(true, true), Ok(()));
}

#[test]
fn nobody_else_may_rename_one() {
    assert_eq!(edit_section_verdict(false, true), Err(SectionError::NotAuthorized));
}

#[test]
fn renaming_one_that_is_not_there_is_refused() {
    assert_eq!(edit_section_verdict(true, false), Err(SectionError::NotFound));
}

#[test]
fn nobody_else_may_set_it() {
    assert_eq!(edit_section_verdict(false, true), Err(SectionError::NotAuthorized));
}

#[test]
fn an_operator_renames_a_group() {
    assert_eq!(rename_group_verdict(true, true, true), Ok(()));
}

#[test]
fn nobody_else_may_rename_a_group() {
    assert_eq!(rename_group_verdict(false, true, true), Err(GroupEditError::NotAuthorized));
}

#[test]
fn renaming_a_group_that_is_not_there_is_refused() {
    assert_eq!(rename_group_verdict(true, true, false), Err(GroupEditError::NotFound));
    assert_eq!(rename_group_verdict(true, false, true), Err(GroupEditError::NotFound));
}

const WRITER: u128 = 10;

#[test]
fn somebody_named_is_told() {
    assert_eq!(mentions_to_notify(&vec![Some(2)], WRITER, &vec![]), vec![2]);
}

#[test]
fn naming_yourself_tells_you_nothing() {
    assert!(mentions_to_notify(&vec![Some(WRITER)], WRITER, &vec![]).is_empty());
}

#[test]
fn somebody_already_told_is_not_told_twice() {
    assert!(mentions_to_notify(&vec![Some(2)], WRITER, &vec![2]).is_empty());
}

#[test]
fn a_name_nobody_answers_to_is_passed_over() {
    assert_eq!(mentions_to_notify(&vec![None, Some(3)], WRITER, &vec![]), vec![3]);
}

#[test]
fn a_body_naming_nobody_tells_nobody() {
    assert!(mentions_to_notify(&vec![], WRITER, &vec![]).is_empty());
}

#[test]
fn a_new_comment_tells_the_watchers() {
    assert_eq!(watchers_to_notify(&vec![2, 3], WRITER, 0), vec![2, 3]);
}

#[test]
fn a_watcher_is_not_told_about_their_own_comment() {
    assert_eq!(watchers_to_notify(&vec![2, WRITER], WRITER, 0), vec![2]);
}

#[test]
fn a_watcher_already_told_as_a_reply_is_not_told_twice() {
    assert_eq!(watchers_to_notify(&vec![2, 3], WRITER, 3), vec![2]);
}

#[test]
fn watching_an_unknown_topic_is_refused() {
    assert_eq!(watch_verdict(false), Err(WatchError::TopicNotFound));
    assert_eq!(watch_verdict(true), Ok(()));
}

#[test]
fn marks_an_own_notification_read() {
    assert_eq!(mark_read_verdict(Some(2), 2), Ok(()));
}

#[test]
fn refuses_to_mark_someone_elses_notification_read() {
    assert_eq!(mark_read_verdict(Some(2), 3), Err(MarkReadError::NotFound));
}

#[test]
fn refuses_to_mark_an_unknown_notification_read() {
    assert_eq!(mark_read_verdict(None, 3), Err(MarkReadError::NotFound));
}

const IMAGE_LIMIT: u64 = 4;

#[test]
fn an_author_attaches_an_image_to_their_own_subject() {
    assert_eq!(attach_verdict::<()>(&member(1, false), Some(1), 0, IMAGE_LIMIT), Ok(()));
}

#[test]
fn a_moderator_may_attach_to_somebody_elses() {
    assert_eq!(attach_verdict::<()>(&member(9, true), Some(1), 0, IMAGE_LIMIT), Ok(()));
}

#[test]
fn a_stranger_may_not() {
    assert_eq!(
        attach_verdict::<()>(&member(2, false), Some(1), 0, IMAGE_LIMIT),
        Err(AttachError::NotAuthorized)
    );
}

#[test]
fn attaching_to_a_subject_that_is_not_there_is_refused() {
    assert_eq!(attach_verdict::<()>(&member(1, false), None, 0, IMAGE_LIMIT), Err(AttachError::TopicNotFound));
}

#[test]
fn a_subject_may_not_carry_more_than_the_limit() {
    assert_eq!(
        attach_verdict::<()>(&member(1, false), Some(1), IMAGE_LIMIT, IMAGE_LIMIT),
        Err(AttachError::TooMany)
    );
    assert_eq!(attach_verdict::<()>(&member(1, false), Some(1), IMAGE_LIMIT - 1, IMAGE_LIMIT), Ok(()));
}

#[test]
fn whoever_attached_it_may_take_it_away() {
    assert_eq!(remove_image_verdict::<()>(&member(1, false), Some(1)), Ok(()));
}

#[test]
fn a_moderator_may_take_it_away_too_and_a_stranger_may_not() {
    assert_eq!(remove_image_verdict::<()>(&member(9, true), Some(1)), Ok(()));
    assert_eq!(remove_image_verdict::<()>(&member(2, false), Some(1)), Err(AttachError::NotAuthorized));
}

#[test]
fn an_empty_instance_gets_an_operator() {
    assert_eq!(operator_verdict(true, false, true), Ok(true));
}

#[test]
fn starting_again_leaves_the_existing_one_alone() {
    assert_eq!(operator_verdict(true, true, true), Ok(false));
}

#[test]
fn the_name_and_password_come_from_configuration() {
    let settings = OperatorSettings::default();
    assert_eq!(settings.username, "admin");
    assert_eq!(settings.password, "admin");
}

#[test]
fn a_name_no_account_could_have_is_refused() {
    assert_eq!(operator_verdict(false, false, true), Err(OperatorError::InvalidUsername));
}

#[test]
fn an_address_no_account_could_have_is_refused() {
    assert_eq!(operator_verdict(true, false, false), Err(OperatorError::InvalidEmail));
}

#[test]
fn the_password_is_not_held_in_the_clear() {
    let stored = FakeHasher.hash(&OperatorSettings::default().password);
    assert_ne!(stored, "admin");
    assert!(FakeHasher.verify("admin", &stored));
}

#[test]
fn a_reader_writes_a_note_about_someone() {
    assert_eq!(remark_verdict(&member(1, false), 2, true), Ok(()));
}

#[test]
fn a_note_about_yourself_is_refused() {
    assert_eq!(remark_verdict(&member(1, false), 1, true), Err(RemarkError::NotYourself));
}

#[test]
fn a_note_about_an_unknown_account_is_refused() {
    assert_eq!(remark_verdict(&member(1, false), 3, false), Err(RemarkError::SubjectNotFound));
}

fn standing(id: u128, moderator: bool, active: bool) -> Member {
    Member { id, is_moderator: moderator, may_correct: moderator, score: -100, active }
}

#[test]
fn blocks_an_account_that_reached_the_floor() {
    assert_eq!(to_ban_for_standing(&vec![standing(1, false, true)], &vec![false]), vec![1]);
}

#[test]
fn never_blocks_a_moderator() {
    assert!(to_ban_for_standing(&vec![standing(1, true, true)], &vec![false]).is_empty());
}

#[test]
fn skips_an_account_that_is_already_banned() {
    assert!(to_ban_for_standing(&vec![standing(1, false, true)], &vec![true]).is_empty());
}

#[test]
fn skips_an_account_that_left() {
    assert!(to_ban_for_standing(&vec![standing(1, false, false)], &vec![false]).is_empty());
}

#[test]
fn running_twice_blocks_once() {
    let members = vec![standing(1, false, true)];
    assert_eq!(to_ban_for_standing(&members, &vec![false]), vec![1]);
    assert!(to_ban_for_standing(&members, &vec![true]).is_empty());
}

#[test]
fn changes_the_password_when_the_current_one_matches() {
    assert_eq!(change_password_verdict(FakeHasher.verify("old", &FakeHasher.hash("old"))), Ok(()));
}

#[test]
fn refuses_a_wrong_current_password_and_changes_nothing() {
    assert_eq!(
        change_password_verdict(FakeHasher.verify("wrong", &FakeHasher.hash("old"))),
        Err(ChangePasswordError::WrongPassword)
    );
}

#[test]
fn registers_new_user() {
    assert_eq!(register_verdict(false, false), Ok(()));
}

#[test]
fn rejects_taken_username() {
    assert_eq!(register_verdict(true, false), Err(RegisterError::UsernameTaken));
}

#[test]
fn rejects_taken_email() {
    assert_eq!(register_verdict(false, true), Err(RegisterError::EmailTaken));
}

#[test]
fn signs_in_with_correct_password() {
    assert_eq!(sign_in_verdict(Some(true), FakeHasher.verify("pw", &FakeHasher.hash("pw"))), Ok(()));
}

#[test]
fn rejects_wrong_password() {
    assert_eq!(sign_in_verdict(Some(true), false), Err(SignInError::WrongPassword));
}

#[test]
fn sign_in_rejects_unknown_user() {
    assert_eq!(sign_in_verdict(None, false), Err(SignInError::NotFound));
}

#[test]
fn refuses_a_deregistered_account_as_if_it_did_not_exist() {
    assert_eq!(sign_in_verdict(Some(false), true), Err(SignInError::NotFound));
}

#[test]
fn current_user_returns_none_for_unknown_token() {
    assert!(!session_member(None, Some(true)));
}

#[test]
fn current_user_returns_none_for_expired_session() {
    assert!(!session_member(Some(false), Some(true)));
}

#[test]
fn current_user_returns_user_for_valid_session() {
    assert!(session_member(Some(true), Some(true)));
}

#[test]
fn current_user_returns_none_for_a_deregistered_account() {
    assert!(!session_member(Some(true), Some(false)));
}

#[test]
fn stores_and_returns_an_avatar() {
    assert_eq!(avatar_verdict(true, true), Ok(()));
}

#[test]
fn clearing_removes_it() {
    assert_eq!(avatar_verdict(true, false), Err(AvatarLookupError::NoAvatar));
    assert_eq!(avatar_verdict(false, false), Err(AvatarLookupError::UserNotFound));
}

#[test]
fn rejects_saving_an_unknown_topic() {
    assert_eq!(bookmark_verdict(false), Err(BookmarkError::TopicNotFound));
    assert_eq!(bookmark_verdict(true), Ok(()));
}

#[test]
fn sets_the_bio_on_an_existing_user() {
    assert_eq!(bio_verdict(true), Ok(()));
}

#[test]
fn profile_rejects_unknown_user() {
    assert_eq!(bio_verdict(false), Err(UpdateBioError::NotFound));
}

#[test]
fn asking_about_something_that_is_not_there_is_refused() {
    assert_eq!(history_verdict(false), Err(HistoryError::NotFound));
    assert_eq!(history_verdict(true), Ok(()));
}

#[test]
fn a_moderator_creates_a_group_in_a_section() {
    assert_eq!(create_group_verdict(true, true, false), Ok(()));
}

#[test]
fn a_plain_user_cannot_create_a_group() {
    assert_eq!(create_group_verdict(false, true, false), Err(CreateGroupError::NotAuthorized));
}

#[test]
fn a_duplicate_slug_is_refused() {
    assert_eq!(create_group_verdict(true, true, true), Err(CreateGroupError::SlugTaken));
}

#[test]
fn an_unknown_section_is_refused() {
    assert_eq!(create_group_verdict(true, false, false), Err(CreateGroupError::SectionNotFound));
}

#[test]
fn hides_items_from_authors_the_viewer_ignores() {
    assert_eq!(unignored(&vec![1, 2, 1], &vec![1]), vec![1]);
}

#[test]
fn an_anonymous_viewer_sees_everything() {
    assert_eq!(unignored(&vec![1, 2, 1], &vec![]), vec![0, 1, 2]);
}

const AUGUST_1_2024: i64 = 1722470400;

#[test]
fn a_month_nobody_posted_in_is_not_listed() {
    let topics = vec![topic(1, 1, JUNE_1_2024 + DAY, false), topic(2, 1, AUGUST_1_2024 + DAY, false)];
    let months: Vec<ArchiveMonth> =
        months_with_topics(&topics, &Visibility::moderator()).iter().map(|c| c.month).collect();
    assert_eq!(months, vec![ArchiveMonth::new(2024, 8).unwrap(), ArchiveMonth::new(2024, 6).unwrap()]);
}

#[test]
fn the_first_moment_of_a_month_belongs_to_it_and_the_last_does_not() {
    let june = ArchiveMonth::new(2024, 6).unwrap();
    assert_eq!(ArchiveMonth::of(utc(june.starts_at())), june);
    assert_eq!(ArchiveMonth::of(utc(june.ends_before() - 1)), june);
    assert_eq!(ArchiveMonth::of(utc(june.ends_before())), june.next());
    assert_eq!(june.ends_before(), JULY_1_2024);
}

#[test]
fn a_queued_subject_stays_out_of_a_month_for_a_stranger() {
    let queued = topic(1, 1, JUNE_1_2024 + DAY, true);
    assert!(months_with_topics(&vec![queued], &Visibility::of(Some(&member(2, false)))).is_empty());
    assert_eq!(months_with_topics(&vec![queued], &Visibility::of(Some(&member(1, false))))[0].topics, 1);
}

#[test]
fn a_month_with_nothing_in_it_is_empty_rather_than_an_error() {
    assert!(months_with_topics(&vec![], &Visibility::anonymous()).is_empty());
}

#[test]
fn the_months_of_the_archive_add_up_to_every_subject_shown() {
    let topics = vec![
        topic(1, 1, JUNE_1_2024 + DAY, false),
        topic(2, 1, JULY_1_2024 + DAY, true),
        topic(3, 2, JULY_1_2024 + 2 * DAY, false),
        topic(4, 2, JANUARY_1_2025, false),
        topic(5, 1, JUNE_1_2024 + 3 * DAY, false),
    ];
    let total: u64 = months_with_topics(&topics, &Visibility::anonymous()).iter().map(|c| c.topics).sum();
    assert_eq!(total, 4);
    let all: u64 = months_with_topics(&topics, &Visibility::moderator()).iter().map(|c| c.topics).sum();
    assert_eq!(all, 5);
}

#[test]
fn removing_again_takes_nothing_more() {
    let refs = vec![PostRef::Topic(1), PostRef::Comment(2)];
    let first = posts_to_remove(true, &refs, &vec![Some(false), Some(true)]).unwrap();
    assert_eq!(first.len(), 1);
    let second = posts_to_remove(true, &refs, &vec![Some(true), Some(true)]).unwrap();
    assert!(second.is_empty());
}

#[test]
fn a_post_traced_twice_is_taken_down_once() {
    let refs = vec![PostRef::Topic(1), PostRef::Comment(4), PostRef::Topic(1)];
    let found = vec![Some(false), Some(false), Some(false)];
    assert_eq!(posts_to_remove(true, &refs, &found), Ok(vec![PostRef::Topic(1), PostRef::Comment(4)]));
}

#[test]
fn a_code_once_spent_is_spent_for_everyone_after() {
    let spent = spend_verdict(Some(FRESH), true).unwrap();
    assert!(spent.spent);
    assert_eq!(spend_verdict(Some(spent), true), Err(SpendError::AlreadySpent));
    assert_eq!(
        admit_verdict(true, true, Some(spent)),
        Err(AdmissionError::CodeNotUsable(SpendError::AlreadySpent))
    );
}

#[test]
fn a_reset_code_works_once() {
    let used = redeem_verdict(Some(reset_code(true)), TokenPurpose::PasswordReset, true).unwrap();
    assert_eq!(redeem_verdict(Some(used), TokenPurpose::PasswordReset, true), Err(RedeemError::Unusable));
}

#[test]
fn an_interval_at_the_ends_of_the_clock_is_answered_without_overflow() {
    let limits = Limits { slow_mode_interval: i64::MIN, ..Limits::default() };
    let mut moderator = facts(0, true);
    moderator.last_post = Some(0);
    assert_eq!(posting_verdict(moderator, i64::MAX, limits, ChallengeRules::default()), Ok(()));
    let mut low = facts(0, false);
    low.last_post = Some(i64::MAX);
    assert_eq!(posting_verdict(low, i64::MAX, limits, ChallengeRules::default()), Ok(()));
    let mut established = facts(SLOW_MODE_SCORE_FLOOR, false);
    established.posts_by_user = ACCOUNT_RATE_LIMIT_MAX;
    assert_eq!(
        posting_verdict(established, i64::MAX, limits, ChallengeRules::default()),
        Err(AbuseError::RateLimited)
    );
}

#[test]
fn a_moment_falls_in_the_month_of_the_offset_it_was_recorded_at() {
    let late_june_in_new_york = Moment { at: JULY_1_2024 + 3600, offset: -4 * 3600 };
    assert_eq!(ArchiveMonth::of(late_june_in_new_york), ArchiveMonth::new(2024, 6).unwrap());
    let early_july_in_tokyo = Moment { at: JULY_1_2024 - 3600, offset: 9 * 3600 };
    assert_eq!(ArchiveMonth::of(early_july_in_tokyo), ArchiveMonth::new(2024, 7).unwrap());
    let counted = count_by_month(&vec![late_june_in_new_york, early_july_in_tokyo]);
    assert_eq!(counted[0], MonthCount { month: ArchiveMonth::new(2024, 7).unwrap(), topics: 1 });
    assert_eq!(counted[1], MonthCount { month: ArchiveMonth::new(2024, 6).unwrap(), topics: 1 });
}

#[test]
fn months_are_counted_newest_first_each_once() {
    let june = ArchiveMonth::new(2024, 6).unwrap();
    let may = ArchiveMonth::new(2024, 5).unwrap();
    let next_year = ArchiveMonth::new(2025, 1).unwrap();
    assert_eq!(
        count_months(&vec![june, may, next_year, june, june]),
        vec![
            MonthCount { month: next_year, topics: 1 },
            MonthCount { month: june, topics: 3 },
            MonthCount { month: may, topics: 1 },
        ]
    );
    assert!(count_months(&vec![]).is_empty());
}
