//! Getting in and staying in: invitations, registration, signing in and its
//! limits, sessions, codes sent by mail, and the operator's first account.
use vstd::prelude::*;

verus! {

/// Turns a password into what is stored of it, and checks a password against that.
pub trait PasswordHasher {
    fn hash(&self, plain: &str) -> String;

    fn verify(&self, plain: &str, hash: &str) -> bool;
}

/// Turns the secret of a mailed code into what is stored of it.
pub trait TokenDigest {
    fn digest(&self, secret: &str) -> String;
}

/// A message to send by mail.
#[derive(Debug, Clone, PartialEq, Eq)]
pub struct Message {
    pub to: String,
    pub subject: String,
    pub body: String,
}

/// A message that was sent, as a test mailer keeps it.
#[derive(Debug, Clone, PartialEq, Eq)]
pub struct SentMessage {
    pub to: String,
    pub subject: String,
    pub body: String,
}

/// `prefix` followed by `rest`, as a new string.
fn joined(prefix: &str, rest: &str) -> (r: String)
    ensures
        r@ == prefix@ + rest@,
{
    let mut out = prefix.to_owned();
    out.append(rest);
    out
}

/// A hasher for tests: a password `p` is stored as `hashed:p`.
pub struct FakeHasher;

impl PasswordHasher for FakeHasher {
    fn hash(&self, plain: &str) -> (r: String)
        ensures
            r@ == "hashed:"@ + plain@,
    {
        joined("hashed:", plain)
    }

    fn verify(&self, plain: &str, hash: &str) -> (r: bool)
        ensures
            r == (hash@ == "hashed:"@ + plain@),
    {
        let expected = joined("hashed:", plain);
        crate::text::same_text(hash, expected.as_str())
    }
}

/// A digest for tests: a secret `s` is stored as `digest:s`.
pub struct PlainDigest;

impl TokenDigest for PlainDigest {
    fn digest(&self, secret: &str) -> (r: String)
        ensures
            r@ == "digest:"@ + secret@,
    {
        joined("digest:", secret)
    }
}

/// A mailer for tests: it keeps every message handed to it, in order.
pub struct FakeMailer {
    kept: Vec<SentMessage>,
}

/// What a kept message holds, as it was handed over.
pub open spec fn as_sent(m: Message) -> SentMessage {
    SentMessage { to: m.to, subject: m.subject, body: m.body }
}

impl FakeMailer {
    /// The messages kept so far, oldest first.
    pub closed spec fn outbox(&self) -> Seq<SentMessage> {
        self.kept@
    }

    /// A mailer that has sent nothing.
    pub fn new() -> (r: FakeMailer)
        ensures
            r.outbox() == Seq::<SentMessage>::empty(),
    {
        FakeMailer { kept: Vec::new() }
    }

    /// Keeps `message` after those already sent.
    pub fn record(&mut self, message: &Message)
        ensures
            final(self).outbox() == old(self).outbox().push(as_sent(*message)),
    {
        let m = SentMessage {
            to: message.to.clone(),
            subject: message.subject.clone(),
            body: message.body.clone(),
        };
        self.kept.push(m);
    }

    /// Every message sent so far, oldest first.
    pub fn sent(&self) -> (r: Vec<SentMessage>)
        ensures
            r@ == self.outbox(),
    {
        let mut out: Vec<SentMessage> = Vec::new();
        let mut i: usize = 0;
        while i < self.kept.len()
            invariant
                i <= self.kept@.len(),
                out@ == self.kept@.take(i as int),
            decreases self.kept@.len() - i,
        {
            let k = &self.kept[i];
            let copy = SentMessage {
                to: k.to.clone(),
                subject: k.subject.clone(),
                body: k.body.clone(),
            };
            out.push(copy);
            proof {
                assert(self.kept@.take(i as int + 1) =~= self.kept@.take(i as int).push(self.kept@[i as int]));
            }
            i = i + 1;
        }
        proof {
            assert(self.kept@.take(self.kept@.len() as int) =~= self.kept@);
        }
        out
    }
}


/// The messages `messages` as a test mailer keeps them, in order.
pub open spec fn kept_as_sent(messages: Seq<Message>) -> Seq<SentMessage> {
    messages.map_values(|m: Message| as_sent(m))
}

proof fn lemma_outbox_prefix(mailers: Seq<FakeMailer>, messages: Seq<Message>, k: int)
    requires
        mailers.len() == messages.len() + 1,
        mailers[0].outbox() == Seq::<SentMessage>::empty(),
        forall|i: int|
            0 <= i < messages.len() ==> #[trigger] mailers[i + 1].outbox() == mailers[i].outbox().push(
                as_sent(messages[i]),
            ),
        0 <= k <= messages.len(),
    ensures
        mailers[k].outbox() == kept_as_sent(messages.take(k)),
    decreases k,
{
    if k == 0 {
        assert(kept_as_sent(messages.take(0)) =~= Seq::<SentMessage>::empty());
    } else {
        lemma_outbox_prefix(mailers, messages, k - 1);
        assert(mailers[(k - 1) + 1].outbox() == mailers[k - 1].outbox().push(as_sent(messages[k - 1])));
        assert(kept_as_sent(messages.take(k)) =~= kept_as_sent(messages.take(k - 1)).push(as_sent(messages[k - 1])));
    }
}

/// A test mailer handed messages one after another gives back every one of
/// them, as handed, in the order it was handed them.
pub proof fn the_outbox_keeps_every_message_in_order(mailers: Seq<FakeMailer>, messages: Seq<Message>)
    requires
        mailers.len() == messages.len() + 1,
        mailers[0].outbox() == Seq::<SentMessage>::empty(),
        forall|i: int|
            0 <= i < messages.len() ==> #[trigger] mailers[i + 1].outbox() == mailers[i].outbox().push(
                as_sent(messages[i]),
            ),
    ensures
        mailers.last().outbox() == kept_as_sent(messages),
{
    lemma_outbox_prefix(mailers, messages, messages.len() as int);
    assert(messages.take(messages.len() as int) =~= messages);
}

/// How newcomers are admitted; the lifetime of an invitation in seconds.
#[derive(Debug, Clone, Copy, PartialEq, Eq, Structural)]
pub struct InvitationSettings {
    pub required: bool,
    pub lifetime: i64,
    pub max_outstanding: u64,
}

impl Default for InvitationSettings {
    fn default() -> (r: InvitationSettings)
        ensures
            !r.required,
            r.lifetime == 7 * 86400,
            r.max_outstanding == 5,
    {
        InvitationSettings { required: false, lifetime: 7 * 86400, max_outstanding: 5 }
    }
}

/// Why an invitation could not be issued.
#[derive(Debug, Clone, Copy, PartialEq, Eq, Structural)]
pub enum IssueError {
    TooManyOutstanding,
}

/// Why an invitation code could not be spent.
#[derive(Debug, Clone, Copy, PartialEq, Eq, Structural)]
pub enum SpendError {
    Unknown,
    AlreadySpent,
    Expired,
}

/// Why a newcomer was not admitted.
#[derive(Debug, Clone, Copy, PartialEq, Eq, Structural)]
pub enum AdmissionError {
    CodeRequired,
    CodeNotUsable(SpendError),
}

/// An invitation as it stands now: spent already, and still within its lifetime.
#[derive(Debug, Clone, Copy, PartialEq, Eq, Structural)]
pub struct InvitationState {
    pub spent: bool,
    pub spendable: bool,
}

/// Whether a code is usable: it must name an invitation, not spent, not lapsed.
pub open spec fn usable_spec(found: Option<InvitationState>) -> Result<(), SpendError> {
    match found {
        None => Err(SpendError::Unknown),
        Some(s) => if s.spent {
            Err(SpendError::AlreadySpent)
        } else if !s.spendable {
            Err(SpendError::Expired)
        } else {
            Ok(())
        },
    }
}

/// Whether the invitation a code names may be spent.
pub fn usable(found: Option<InvitationState>) -> (r: Result<(), SpendError>)
    ensures
        r == usable_spec(found),
{
    match found {
        None => Err(SpendError::Unknown),
        Some(s) => {
            if s.spent {
                Err(SpendError::AlreadySpent)
            } else if !s.spendable {
                Err(SpendError::Expired)
            } else {
                Ok(())
            }
        },
    }
}

/// A newcomer let in, with the invitation they came by, if any.
#[derive(Debug, Clone, PartialEq, Eq)]
pub struct Admission<I> {
    invitation: Option<I>,
}

impl<I> Admission<I> {
    /// The newcomer's admission, by the invitation they came by, if any.
    pub fn granted(invitation: Option<I>) -> (r: Admission<I>)
        ensures
            r.invitation_spec() == invitation,
    {
        Admission { invitation }
    }

    /// The invitation the newcomer came by.
    pub closed spec fn invitation_spec(&self) -> Option<I> {
        self.invitation
    }

    /// The invitation the newcomer came by, if any.
    pub fn invitation(&self) -> (r: Option<&I>)
        ensures
            r == (match self.invitation_spec() {
                Some(i) => Some(&i),
                None => None::<&I>,
            }),
    {
        match &self.invitation {
            Some(i) => Some(i),
            None => None,
        }
    }
}

/// Whether a newcomer is admitted: without a code only while codes are not
/// required; with one only when it is usable. `found` is the invitation the
/// code names, when a code is given.
pub fn admit_verdict(required: bool, code_given: bool, found: Option<InvitationState>) -> (r: Result<(), AdmissionError>)
    ensures
        r == (if !code_given {
            if required {
                Err::<(), AdmissionError>(AdmissionError::CodeRequired)
            } else {
                Ok(())
            }
        } else {
            match usable_spec(found) {
                Ok(()) => Ok(()),
                Err(e) => Err(AdmissionError::CodeNotUsable(e)),
            }
        }),
{
    if !code_given {
        if required {
            return Err(AdmissionError::CodeRequired);
        }
        return Ok(());
    }
    match usable(found) {
        Ok(()) => Ok(()),
        Err(e) => Err(AdmissionError::CodeNotUsable(e)),
    }
}

/// Whether a member may issue another invitation: not while as many as the
/// settings allow are still outstanding.
pub fn issue_verdict(outstanding: u64, settings: &InvitationSettings) -> (r: Result<(), IssueError>)
    ensures
        r == (if outstanding >= settings.max_outstanding {
            Err::<(), IssueError>(IssueError::TooManyOutstanding)
        } else {
            Ok(())
        }),
{
    if outstanding >= settings.max_outstanding {
        Err(IssueError::TooManyOutstanding)
    } else {
        Ok(())
    }
}

/// What spending a code comes to: the code must be usable, and claiming it
/// must win; a claim lost to another newcomer counts as spent already. On
/// success, the invitation as it then stands: spent.
pub open spec fn spend_spec(found: Option<InvitationState>, claimed: bool) -> Result<InvitationState, SpendError> {
    match usable_spec(found) {
        Err(e) => Err(e),
        Ok(()) => if claimed {
            Ok(InvitationState { spent: true, ..found->0 })
        } else {
            Err(SpendError::AlreadySpent)
        },
    }
}

/// Spends a code, giving the invitation as it stands afterwards.
pub fn spend_verdict(found: Option<InvitationState>, claimed: bool) -> (r: Result<InvitationState, SpendError>)
    ensures
        r == spend_spec(found, claimed),
{
    usable(found)?;
    if !claimed {
        return Err(SpendError::AlreadySpent);
    }
    match found {
        Some(s) => Ok(InvitationState { spent: true, ..s }),
        None => Err(SpendError::Unknown),
    }
}

/// An invitation once spent can never be spent again.
pub proof fn a_spent_code_is_never_usable(found: Option<InvitationState>)
    requires
        found matches Some(s) && s.spent,
    ensures
        usable_spec(found) == Err::<(), SpendError>(SpendError::AlreadySpent),
{
}

/// A code is spent once: after it is spent, spending it again, by anyone,
/// fails as spent already, and it admits nobody.
pub proof fn a_code_is_spent_exactly_once(found: Option<InvitationState>, claimed: bool, claimed_again: bool)
    requires
        spend_spec(found, claimed) is Ok,
    ensures
        spend_spec(Some(spend_spec(found, claimed)->Ok_0), claimed_again) == Err::<InvitationState, SpendError>(
            SpendError::AlreadySpent,
        ),
        usable_spec(Some(spend_spec(found, claimed)->Ok_0)) == Err::<(), SpendError>(SpendError::AlreadySpent),
{
}

/// Why a mailed code could not be redeemed.
#[derive(Debug, Clone, Copy, PartialEq, Eq, Structural)]
pub enum RedeemError {
    Unusable,
}

/// Why an address could not be changed.
#[derive(Debug, Clone, Copy, PartialEq, Eq, Structural)]
pub enum ChangeEmailError {
    AddressTaken,
}

/// What a mailed code is for.
#[derive(Debug, Clone, Copy, PartialEq, Eq, Structural)]
pub enum TokenPurpose {
    PasswordReset,
    EmailChange,
    Activation,
}

/// A mailed code as it stands now: what it is for, and whether it may still be redeemed.
#[derive(Debug, Clone, Copy, PartialEq, Eq, Structural)]
pub struct TokenState {
    pub purpose: TokenPurpose,
    pub redeemable: bool,
}

/// What redeeming a code comes to: it must be found, be for what is asked,
/// still be redeemable, and its member must be found. On success, the code as
/// it then stands: used, so no longer redeemable.
pub open spec fn redeem_spec(token: Option<TokenState>, wanted: TokenPurpose, user_found: bool) -> Result<TokenState, RedeemError> {
    match token {
        Some(t) => if t.purpose == wanted && t.redeemable && user_found {
            Ok(TokenState { redeemable: false, ..t })
        } else {
            Err(RedeemError::Unusable)
        },
        None => Err(RedeemError::Unusable),
    }
}

/// Redeems a code, giving the code as it stands afterwards.
pub fn redeem_verdict(token: Option<TokenState>, wanted: TokenPurpose, user_found: bool) -> (r: Result<TokenState, RedeemError>)
    ensures
        r == redeem_spec(token, wanted, user_found),
{
    match token {
        Some(t) => {
            if t.purpose == wanted && t.redeemable && user_found {
                Ok(TokenState { redeemable: false, ..t })
            } else {
                Err(RedeemError::Unusable)
            }
        },
        None => Err(RedeemError::Unusable),
    }
}

/// A code for one purpose never redeems another.
pub proof fn a_code_serves_one_purpose(t: TokenState, wanted: TokenPurpose, user_found: bool)
    requires
        t.purpose != wanted,
    ensures
        redeem_spec(Some(t), wanted, user_found) == Err::<TokenState, RedeemError>(RedeemError::Unusable),
{
}

/// A mailed code is used once: once redeemed, redeeming it again, for any
/// purpose, fails.
pub proof fn a_code_is_used_once(
    token: Option<TokenState>,
    wanted: TokenPurpose,
    user_found: bool,
    wanted_again: TokenPurpose,
    user_found_again: bool,
)
    requires
        redeem_spec(token, wanted, user_found) is Ok,
    ensures
        redeem_spec(Some(redeem_spec(token, wanted, user_found)->Ok_0), wanted_again, user_found_again)
            == Err::<TokenState, RedeemError>(RedeemError::Unusable),
{
}

/// Whether an address may be taken up: not one another member has.
pub fn email_change_verdict(address_taken: bool) -> (r: Result<(), ChangeEmailError>)
    ensures
        r == (if address_taken {
            Err::<(), ChangeEmailError>(ChangeEmailError::AddressTaken)
        } else {
            Ok(())
        }),
{
    if address_taken {
        Err(ChangeEmailError::AddressTaken)
    } else {
        Ok(())
    }
}

/// Whether a reset of a forgotten password is mailed: only to an address of
/// an active member; otherwise nothing happens, and nothing tells who is a member.
pub fn reset_is_sent(member_active: Option<bool>) -> (r: bool)
    ensures
        r == (member_active == Some(true)),
{
    match member_active {
        Some(a) => a,
        None => false,
    }
}

/// The message that carries a code for a new password.
pub fn reset_message(to: &str, secret: &str) -> (r: Message)
    ensures
        r.to@ == to@,
        r.subject@ == "Reset your password"@,
        r.body@ == "Use this code to choose a new password: "@ + secret@,
{
    Message {
        to: to.to_owned(),
        subject: "Reset your password".to_owned(),
        body: joined("Use this code to choose a new password: ", secret),
    }
}

/// The message that carries a code to confirm a new address.
pub fn email_change_message(to: &str, secret: &str) -> (r: Message)
    ensures
        r.to@ == to@,
        r.subject@ == "Confirm your address"@,
        r.body@ == "Use this code to confirm this address: "@ + secret@,
{
    Message {
        to: to.to_owned(),
        subject: "Confirm your address".to_owned(),
        body: joined("Use this code to confirm this address: ", secret),
    }
}

/// The message that carries a code to confirm a newcomer's address.
pub fn activation_message(to: &str, secret: &str) -> (r: Message)
    ensures
        r.to@ == to@,
        r.subject@ == "Confirm your address"@,
        r.body@ == "Use this code to confirm your address: "@ + secret@,
{
    Message {
        to: to.to_owned(),
        subject: "Confirm your address".to_owned(),
        body: joined("Use this code to confirm your address: ", secret),
    }
}

/// The message that tells a member their account was used from a new address.
pub fn new_network_message(to: &str, address: &str) -> (r: Message)
    ensures
        r.to@ == to@,
        r.subject@ == "A new sign-in"@,
        r.body@ == "Your account was used from "@ + address@ + "."@,
{
    let mut body = joined("Your account was used from ", address);
    body.append(".");
    Message { to: to.to_owned(), subject: "A new sign-in".to_owned(), body }
}

/// Failed sign-ins allowed for a name from an address within the window.
pub const SIGN_IN_ATTEMPT_MAX: u64 = 10;
/// The window over which failed sign-ins count, in seconds.
pub const SIGN_IN_ATTEMPT_WINDOW: i64 = 900;

/// The limit on failed sign-ins; the window in seconds.
#[derive(Debug, Clone, Copy, PartialEq, Eq, Structural)]
pub struct SignInLimits {
    pub attempt_max: u64,
    pub attempt_window: i64,
}

impl Default for SignInLimits {
    fn default() -> (r: SignInLimits)
        ensures
            r.attempt_max == SIGN_IN_ATTEMPT_MAX,
            r.attempt_window == SIGN_IN_ATTEMPT_WINDOW,
    {
        SignInLimits { attempt_max: SIGN_IN_ATTEMPT_MAX, attempt_window: SIGN_IN_ATTEMPT_WINDOW }
    }
}

/// Too many failed sign-ins of late.
#[derive(Debug, Clone, Copy, PartialEq, Eq, Structural)]
pub struct TooManyAttempts;

/// Whether a sign-in may be tried: not once the failures within the window reach the limit.
pub fn attempts_verdict(failures: u64, limits: SignInLimits) -> (r: Result<(), TooManyAttempts>)
    ensures
        r == (if failures >= limits.attempt_max {
            Err::<(), TooManyAttempts>(TooManyAttempts)
        } else {
            Ok(())
        }),
{
    if failures >= limits.attempt_max {
        Err(TooManyAttempts)
    } else {
        Ok(())
    }
}

/// The moment from which failed sign-ins count.
pub fn attempt_window_start(now: i64, limits: SignInLimits) -> (r: i64)
    requires
        i64::MIN <= now - limits.attempt_window <= i64::MAX,
    ensures
        r == now - limits.attempt_window,
{
    now - limits.attempt_window
}

/// Why a sign-in failed.
#[derive(Debug, Clone, Copy, PartialEq, Eq, Structural)]
pub enum SignInError {
    NotFound,
    WrongPassword,
}

/// Whether a sign-in succeeds: the name must belong to an active member, and
/// the password must match. `active` is whether the member, when found, is active.
pub fn sign_in_verdict(active: Option<bool>, password_matches: bool) -> (r: Result<(), SignInError>)
    ensures
        r == (if active != Some(true) {
            Err::<(), SignInError>(SignInError::NotFound)
        } else if !password_matches {
            Err(SignInError::WrongPassword)
        } else {
            Ok(())
        }),
{
    match active {
        Some(true) => {
            if password_matches {
                Ok(())
            } else {
                Err(SignInError::WrongPassword)
            }
        },
        _ => Err(SignInError::NotFound),
    }
}

/// Whether a session names a signed-in member: the session must be found and
/// valid now, and its member found and active.
pub fn session_member(session_valid: Option<bool>, member_active: Option<bool>) -> (r: bool)
    ensures
        r == (session_valid == Some(true) && member_active == Some(true)),
{
    match session_valid {
        Some(true) => match member_active {
            Some(true) => true,
            _ => false,
        },
        _ => false,
    }
}

/// Why a newcomer could not register.
#[derive(Debug, Clone, Copy, PartialEq, Eq, Structural)]
pub enum RegisterError {
    UsernameTaken,
    EmailTaken,
}

/// Whether a newcomer may register: the name and the address must both be free.
pub fn register_verdict(username_taken: bool, email_taken: bool) -> (r: Result<(), RegisterError>)
    ensures
        r == (if username_taken {
            Err::<(), RegisterError>(RegisterError::UsernameTaken)
        } else if email_taken {
            Err(RegisterError::EmailTaken)
        } else {
            Ok(())
        }),
{
    if username_taken {
        return Err(RegisterError::UsernameTaken);
    }
    if email_taken {
        return Err(RegisterError::EmailTaken);
    }
    Ok(())
}

/// Why a password could not be changed.
#[derive(Debug, Clone, Copy, PartialEq, Eq, Structural)]
pub enum ChangePasswordError {
    WrongPassword,
}

/// Whether a password may be changed: the current one must match.
pub fn change_password_verdict(current_matches: bool) -> (r: Result<(), ChangePasswordError>)
    ensures
        r == (if current_matches {
            Ok::<(), ChangePasswordError>(())
        } else {
            Err(ChangePasswordError::WrongPassword)
        }),
{
    if current_matches {
        Ok(())
    } else {
        Err(ChangePasswordError::WrongPassword)
    }
}

/// The operator's first account.
#[derive(Debug, Clone, PartialEq, Eq)]
pub struct OperatorSettings {
    pub username: String,
    pub password: String,
    pub email: String,
}

impl Default for OperatorSettings {
    fn default() -> (r: OperatorSettings)
        ensures
            r.username@ == "admin"@,
            r.password@ == "admin"@,
            r.email@ == "admin@example.com"@,
    {
        OperatorSettings {
            username: "admin".to_owned(),
            password: "admin".to_owned(),
            email: "admin@example.com".to_owned(),
        }
    }
}

/// Why the operator's account could not be made.
#[derive(Debug, Clone, Copy, PartialEq, Eq, Structural)]
pub enum OperatorError {
    InvalidUsername,
    InvalidEmail,
}

/// Whether the operator's account is made: the name must be valid; an account
/// under it already means nothing is made; then the address must be valid.
/// `Ok(true)` means the account is made.
pub fn operator_verdict(username_valid: bool, exists: bool, email_valid: bool) -> (r: Result<bool, OperatorError>)
    ensures
        r == (if !username_valid {
            Err::<bool, OperatorError>(OperatorError::InvalidUsername)
        } else if exists {
            Ok(false)
        } else if !email_valid {
            Err(OperatorError::InvalidEmail)
        } else {
            Ok(true)
        }),
{
    if !username_valid {
        return Err(OperatorError::InvalidUsername);
    }
    if exists {
        return Ok(false);
    }
    if !email_valid {
        return Err(OperatorError::InvalidEmail);
    }
    Ok(true)
}

/// Why a member's picture could not be shown.
#[derive(Debug, Clone, Copy, PartialEq, Eq, Structural)]
pub enum AvatarLookupError {
    UserNotFound,
    NoAvatar,
}

/// Whether a picture is shown: the member must be found and have one.
pub fn avatar_verdict(user_found: bool, has_avatar: bool) -> (r: Result<(), AvatarLookupError>)
    ensures
        r == (if !user_found {
            Err::<(), AvatarLookupError>(AvatarLookupError::UserNotFound)
        } else if !has_avatar {
            Err(AvatarLookupError::NoAvatar)
        } else {
            Ok(())
        }),
{
    if !user_found {
        return Err(AvatarLookupError::UserNotFound);
    }
    if !has_avatar {
        return Err(AvatarLookupError::NoAvatar);
    }
    Ok(())
}

/// Why a subject could not be bookmarked.
#[derive(Debug, Clone, Copy, PartialEq, Eq, Structural)]
pub enum BookmarkError {
    TopicNotFound,
}

/// Why a subject could not be watched.
#[derive(Debug, Clone, Copy, PartialEq, Eq, Structural)]
pub enum WatchError {
    TopicNotFound,
}

/// Why a member's words about themselves could not be changed.
#[derive(Debug, Clone, Copy, PartialEq, Eq, Structural)]
pub enum UpdateBioError {
    NotFound,
}

/// Whether a subject may be bookmarked: only one that is found.
pub fn bookmark_verdict(found: bool) -> (r: Result<(), BookmarkError>)
    ensures
        r == (if found { Ok::<(), BookmarkError>(()) } else { Err(BookmarkError::TopicNotFound) }),
{
    if found {
        Ok(())
    } else {
        Err(BookmarkError::TopicNotFound)
    }
}

/// Whether a subject may be watched: only one that is found.
pub fn watch_verdict(found: bool) -> (r: Result<(), WatchError>)
    ensures
        r == (if found { Ok::<(), WatchError>(()) } else { Err(WatchError::TopicNotFound) }),
{
    if found {
        Ok(())
    } else {
        Err(WatchError::TopicNotFound)
    }
}

/// Whether a member's words about themselves may be changed: only a member who is found.
pub fn bio_verdict(found: bool) -> (r: Result<(), UpdateBioError>)
    ensures
        r == (if found { Ok::<(), UpdateBioError>(()) } else { Err(UpdateBioError::NotFound) }),
{
    if found {
        Ok(())
    } else {
        Err(UpdateBioError::NotFound)
    }
}

} // verus!
