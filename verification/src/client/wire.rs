//! What the client reads from the server and what it sends to it.
use vstd::prelude::*;
use crate::text::same_text;

verus! {

/// A section of the board as the server lists it.
#[derive(Debug, Clone, PartialEq, Eq)]
pub struct Section {
    pub slug: String,
    pub title: String,
    pub topics_score: String,
    pub may_post: bool,
}

/// A subject in a listing.
#[derive(Debug, Clone, PartialEq, Eq)]
pub struct Topic {
    pub id: String,
    pub section_slug: String,
    pub title: String,
    pub author_username: String,
    pub created_at: String,
    pub tags: Vec<String>,
    pub sticky: bool,
    pub resolved: bool,
    pub deleted: bool,
    pub pending: bool,
    pub draft: bool,
    pub postscore: i32,
}

/// A subject with its body and everything the server says of it.
#[derive(Debug, Clone, PartialEq, Eq)]
pub struct Subject {
    pub id: String,
    pub section_slug: String,
    pub group_slug: Option<String>,
    pub title: String,
    pub body: String,
    pub tags: Vec<String>,
    pub author_username: String,
    pub created_at: String,
    pub deleted: bool,
    pub deleted_reason: Option<String>,
    pub edited: bool,
    pub postscore: i32,
    pub pending: bool,
    pub draft: bool,
    pub sticky: bool,
    pub off_front: bool,
    pub resolved: bool,
    pub minor: bool,
    pub open_reports: u64,
}

/// A remark under a subject.
#[derive(Debug, Clone, PartialEq, Eq)]
pub struct Comment {
    pub id: String,
    pub topic_id: String,
    pub parent_id: Option<String>,
    pub body: String,
    pub author_username: String,
    pub created_at: String,
    pub deleted: bool,
    pub deleted_reason: Option<String>,
    pub edited: bool,
    pub ignored: bool,
}

/// An earlier wording of a subject or a remark.
#[derive(Debug, Clone, PartialEq, Eq)]
pub struct Version {
    pub id: String,
    pub title: Option<String>,
    pub body: String,
    pub editor: String,
    pub written_at: String,
}

/// One line of a difference between two wordings.
#[derive(Debug, Clone, PartialEq, Eq)]
pub struct Change {
    pub kind: String,
    pub line: String,
}

/// A new subject to be posted.
#[derive(Debug, Clone, PartialEq, Eq)]
pub struct NewSubject {
    pub title: String,
    pub body: String,
    pub tags: Vec<String>,
    pub group: Option<String>,
    pub challenge: Option<String>,
    pub draft: bool,
}

/// The texts of a sequence of strings.
pub open spec fn texts(v: Seq<String>) -> Seq<Seq<char>> {
    v.map_values(|s: String| s@)
}

/// The texts of a sequence of string slices.
pub open spec fn slice_texts(v: Seq<&str>) -> Seq<Seq<char>> {
    v.map_values(|s: &str| s@)
}

/// The text of an optional string.
pub open spec fn opt_text(o: Option<String>) -> Option<Seq<char>> {
    match o {
        Some(s) => Some(s@),
        None => None,
    }
}

/// Owned copies of a list of words, in the same order.
fn owned_words(words: &[&str]) -> (r: Vec<String>)
    ensures
        texts(r@) == slice_texts(words@),
{
    let mut r: Vec<String> = Vec::new();
    let mut i: usize = 0;
    while i < words.len()
        invariant
            i <= words@.len(),
            r@.len() == i,
            forall|k: int| 0 <= k < i ==> #[trigger] r@[k]@ == words@[k]@,
        decreases words@.len() - i,
    {
        r.push(words[i].to_owned());
        i = i + 1;
    }
    assert(texts(r@) =~= slice_texts(words@));
    r
}

impl NewSubject {
    /// A subject with a title and a body, no tags, no group, no answer, not a draft.
    pub fn new(title: &str, body: &str) -> (r: NewSubject)
        ensures
            r.title@ == title@,
            r.body@ == body@,
            r.tags@.len() == 0,
            r.group is None,
            r.challenge is None,
            !r.draft,
    {
        NewSubject {
            title: title.to_owned(),
            body: body.to_owned(),
            tags: Vec::new(),
            group: None,
            challenge: None,
            draft: false,
        }
    }

    /// The same subject with these tags in place of its own.
    pub fn tags(self, tags: &[&str]) -> (r: NewSubject)
        ensures
            texts(r.tags@) == slice_texts(tags@),
            r.title == self.title,
            r.body == self.body,
            r.group == self.group,
            r.challenge == self.challenge,
            r.draft == self.draft,
    {
        let mut s = self;
        s.tags = owned_words(tags);
        s
    }

    /// The same subject, posted into a group.
    pub fn group(self, slug: &str) -> (r: NewSubject)
        ensures
            opt_text(r.group) == Some(slug@),
            r.title == self.title,
            r.body == self.body,
            r.tags == self.tags,
            r.challenge == self.challenge,
            r.draft == self.draft,
    {
        let mut s = self;
        s.group = Some(slug.to_owned());
        s
    }

    /// The same subject with an answer to the challenge.
    pub fn challenge(self, answer: &str) -> (r: NewSubject)
        ensures
            opt_text(r.challenge) == Some(answer@),
            r.title == self.title,
            r.body == self.body,
            r.tags == self.tags,
            r.group == self.group,
            r.draft == self.draft,
    {
        let mut s = self;
        s.challenge = Some(answer.to_owned());
        s
    }

    /// The same subject, kept as a draft.
    pub fn draft(self) -> (r: NewSubject)
        ensures
            r.draft,
            r.title == self.title,
            r.body == self.body,
            r.tags == self.tags,
            r.group == self.group,
            r.challenge == self.challenge,
    {
        let mut s = self;
        s.draft = true;
        s
    }
}

/// A new remark to be posted.
#[derive(Debug, Clone, PartialEq, Eq)]
pub struct NewRemark {
    pub body: String,
    pub parent_id: Option<String>,
    pub challenge: Option<String>,
}

impl NewRemark {
    /// A remark with a body, answering nothing in particular.
    pub fn new(body: &str) -> (r: NewRemark)
        ensures
            r.body@ == body@,
            r.parent_id is None,
            r.challenge is None,
    {
        NewRemark { body: body.to_owned(), parent_id: None, challenge: None }
    }

    /// The same remark, as a reply to another.
    pub fn reply_to(self, parent_id: &str) -> (r: NewRemark)
        ensures
            opt_text(r.parent_id) == Some(parent_id@),
            r.body == self.body,
            r.challenge == self.challenge,
    {
        let mut s = self;
        s.parent_id = Some(parent_id.to_owned());
        s
    }

    /// The same remark with an answer to the challenge.
    pub fn challenge(self, answer: &str) -> (r: NewRemark)
        ensures
            opt_text(r.challenge) == Some(answer@),
            r.body == self.body,
            r.parent_id == self.parent_id,
    {
        let mut s = self;
        s.challenge = Some(answer.to_owned());
        s
    }
}

/// A new wording of a subject.
#[derive(Debug, Clone, PartialEq, Eq)]
pub struct SubjectEdit {
    pub title: String,
    pub body: String,
    pub tags: Vec<String>,
    pub minor: bool,
}

impl SubjectEdit {
    /// A new title and body, without tags, not minor.
    pub fn new(title: &str, body: &str) -> (r: SubjectEdit)
        ensures
            r.title@ == title@,
            r.body@ == body@,
            r.tags@.len() == 0,
            !r.minor,
    {
        SubjectEdit { title: title.to_owned(), body: body.to_owned(), tags: Vec::new(), minor: false }
    }

    /// The same edit with these tags in place of its own.
    pub fn tags(self, tags: &[&str]) -> (r: SubjectEdit)
        ensures
            texts(r.tags@) == slice_texts(tags@),
            r.title == self.title,
            r.body == self.body,
            r.minor == self.minor,
    {
        let mut s = self;
        s.tags = owned_words(tags);
        s
    }

    /// The same edit, marked minor.
    pub fn minor(self) -> (r: SubjectEdit)
        ensures
            r.minor,
            r.title == self.title,
            r.body == self.body,
            r.tags == self.tags,
    {
        let mut s = self;
        s.minor = true;
        s
    }
}

/// Why something is taken down, and what it costs its author.
#[derive(Debug, Clone, PartialEq, Eq)]
pub struct Removal {
    pub reason: String,
    pub penalty: Option<i32>,
}

impl Removal {
    /// A removal for a reason, at no particular cost.
    pub fn new(reason: &str) -> (r: Removal)
        ensures
            r.reason@ == reason@,
            r.penalty is None,
    {
        Removal { reason: reason.to_owned(), penalty: None }
    }

    /// The same removal, at this cost.
    pub fn penalty(self, penalty: i32) -> (r: Removal)
        ensures
            r.penalty == Some(penalty),
            r.reason == self.reason,
    {
        let mut s = self;
        s.penalty = Some(penalty);
        s
    }
}

/// Something a search found: a subject or a remark.
#[derive(Debug, Clone, PartialEq, Eq)]
pub enum Hit {
    Topic(Topic),
    Comment(Comment),
}

impl Hit {
    /// The kind of the hit in one word.
    pub fn kind(&self) -> (r: &'static str)
        ensures
            r@ == (match self {
                Hit::Topic(_) => "topic"@,
                Hit::Comment(_) => "comment"@,
            }),
    {
        match self {
            Hit::Topic(_) => "topic",
            Hit::Comment(_) => "comment",
        }
    }

    /// The subject, when the hit is one.
    pub fn subject(&self) -> (r: Option<&Topic>)
        ensures
            r == (match self {
                Hit::Topic(t) => Some(t),
                Hit::Comment(_) => None::<&Topic>,
            }),
    {
        match self {
            Hit::Topic(t) => Some(t),
            Hit::Comment(_) => None,
        }
    }

    /// The remark, when the hit is one.
    pub fn remark(&self) -> (r: Option<&Comment>)
        ensures
            r == (match self {
                Hit::Topic(_) => None::<&Comment>,
                Hit::Comment(c) => Some(c),
            }),
    {
        match self {
            Hit::Topic(_) => None,
            Hit::Comment(c) => Some(c),
        }
    }
}

/// A signed-in member as the server describes them.
#[derive(Debug, Clone, PartialEq, Eq)]
pub struct User {
    pub id: String,
    pub username: String,
    pub role: String,
}

/// Word that someone answered or mentioned.
#[derive(Debug, Clone, PartialEq, Eq)]
pub struct Notification {
    pub id: String,
    pub topic_id: String,
    pub topic_title: String,
    pub comment_id: String,
    pub actor_username: String,
    pub created_at: String,
    pub read: bool,
    pub kind: String,
}

/// How many notifications are unread.
#[derive(Debug, Clone, PartialEq, Eq)]
pub struct UnreadCount {
    pub unread: u64,
}

/// A month of the archive with the number of subjects posted in it.
#[derive(Debug, Clone, PartialEq, Eq)]
pub struct ArchiveMonth {
    pub year: i32,
    pub month: u8,
    pub topics: u64,
}

/// A tag with its description, the tag it stands for, and whether the reader follows it.
#[derive(Debug, Clone, PartialEq, Eq)]
pub struct Tag {
    pub slug: String,
    pub description: Option<String>,
    pub means: Option<String>,
    pub following: bool,
}

/// What anyone can see of a member.
#[derive(Debug, Clone, PartialEq, Eq)]
pub struct Profile {
    pub id: String,
    pub username: String,
    pub bio: Option<String>,
    pub score: i32,
    pub role: String,
}

/// A feed document with the type it came as.
#[derive(Debug, Clone, PartialEq, Eq)]
pub struct Feed {
    content_type: String,
    body: String,
}

/// The type a feed is taken as when the server names none.
pub open spec fn default_feed_type() -> Seq<char> {
    "application/atom+xml"@
}

/// The type a picture is taken as when the server names none.
pub open spec fn default_picture_type() -> Seq<char> {
    "application/octet-stream"@
}

/// A named type, or the given default when none was named.
pub open spec fn type_or(named: Option<String>, default: Seq<char>) -> Seq<char> {
    match named {
        Some(t) => t@,
        None => default,
    }
}

impl Feed {
    /// A feed as the server sent it; without a named type it is taken as Atom.
    pub fn received(content_type: Option<String>, body: String) -> (r: Feed)
        ensures
            r.content_type_spec() == type_or(content_type, default_feed_type()),
            r.body_spec() == body@,
    {
        let content_type = match content_type {
            Some(t) => t,
            None => "application/atom+xml".to_owned(),
        };
        Feed { content_type, body }
    }

    /// The type the feed came as.
    pub closed spec fn content_type_spec(&self) -> Seq<char> {
        self.content_type@
    }

    /// The text of the feed.
    pub closed spec fn body_spec(&self) -> Seq<char> {
        self.body@
    }

    /// The type the feed came as.
    pub fn content_type(&self) -> (r: &str)
        ensures
            r@ == self.content_type_spec(),
    {
        self.content_type.as_str()
    }

    /// The text of the feed.
    pub fn body(&self) -> (r: &str)
        ensures
            r@ == self.body_spec(),
    {
        self.body.as_str()
    }
}

/// A member's picture.
#[derive(Debug, Clone, PartialEq, Eq)]
pub struct Avatar {
    content_type: String,
    bytes: Vec<u8>,
}

impl Avatar {
    /// The picture of a member, as it came.
    pub fn from_picture(picture: Picture) -> (r: Avatar)
        ensures
            r.content_type_spec() == picture.content_type_spec(),
            r.bytes_spec() == picture.bytes_spec(),
    {
        Avatar { content_type: picture.content_type, bytes: picture.bytes }
    }

    /// The type the picture came as.
    pub closed spec fn content_type_spec(&self) -> Seq<char> {
        self.content_type@
    }

    /// The bytes of the picture.
    pub closed spec fn bytes_spec(&self) -> Seq<u8> {
        self.bytes@
    }

    /// The type the picture came as.
    pub fn content_type(&self) -> (r: &str)
        ensures
            r@ == self.content_type_spec(),
    {
        self.content_type.as_str()
    }

    /// The bytes of the picture.
    pub fn bytes(&self) -> (r: &[u8])
        ensures
            r@ == self.bytes_spec(),
    {
        self.bytes.as_slice()
    }
}

/// An image as the server sent it.
#[derive(Debug, Clone, PartialEq, Eq)]
pub struct Picture {
    content_type: String,
    bytes: Vec<u8>,
}

impl Picture {
    /// A picture as the server sent it; without a named type it is taken as raw bytes.
    pub fn received(content_type: Option<String>, bytes: Vec<u8>) -> (r: Picture)
        ensures
            r.content_type_spec() == type_or(content_type, default_picture_type()),
            r.bytes_spec() == bytes@,
    {
        let content_type = match content_type {
            Some(t) => t,
            None => "application/octet-stream".to_owned(),
        };
        Picture { content_type, bytes }
    }

    /// The type the picture came as.
    pub closed spec fn content_type_spec(&self) -> Seq<char> {
        self.content_type@
    }

    /// The bytes of the picture.
    pub closed spec fn bytes_spec(&self) -> Seq<u8> {
        self.bytes@
    }

    /// The type the picture came as.
    pub fn content_type(&self) -> (r: &str)
        ensures
            r@ == self.content_type_spec(),
    {
        self.content_type.as_str()
    }

    /// The bytes of the picture.
    pub fn bytes(&self) -> (r: &[u8])
        ensures
            r@ == self.bytes_spec(),
    {
        self.bytes.as_slice()
    }
}

/// An image attached to a subject.
#[derive(Debug, Clone, PartialEq, Eq)]
pub struct Image {
    pub id: String,
    pub content_type: String,
    pub uploaded_by: String,
}

/// A group within a section.
#[derive(Debug, Clone, PartialEq, Eq)]
pub struct Group {
    pub id: String,
    pub section_slug: String,
    pub name: String,
    pub slug: String,
}

/// One answer of a poll with its votes.
#[derive(Debug, Clone, PartialEq, Eq)]
pub struct PollOption {
    pub id: String,
    pub text: String,
    pub votes: u64,
}

/// A poll with its answers, the reader's own vote and the number of votes.
#[derive(Debug, Clone, PartialEq, Eq)]
pub struct Poll {
    pub id: String,
    pub topic_id: String,
    pub question: String,
    pub options: Vec<PollOption>,
    pub mine: Option<String>,
    pub total_votes: u64,
}

/// How many reactions of one kind something has.
#[derive(Debug, Clone, PartialEq, Eq)]
pub struct ReactionCount {
    pub kind: String,
    pub count: u64,
}

/// The reactions to something, and the reader's own.
#[derive(Debug, Clone, PartialEq, Eq)]
pub struct Reactions {
    pub counts: Vec<ReactionCount>,
    pub mine: Option<String>,
}

/// A signed-in session: the token and the cookie the server set.
#[derive(Debug, Clone, PartialEq, Eq)]
pub struct Session {
    token: String,
    cookie: String,
}

impl Session {
    /// A session from its token and the cookie that carried it.
    pub fn from_parts(token: String, cookie: String) -> (r: Session)
        ensures
            r.token_spec() == token@,
            r.cookie_spec() == cookie@,
    {
        Session { token, cookie }
    }

    /// The token of the session.
    pub closed spec fn token_spec(&self) -> Seq<char> {
        self.token@
    }

    /// The whole cookie the server set.
    pub closed spec fn cookie_spec(&self) -> Seq<char> {
        self.cookie@
    }

    /// The token of the session.
    pub fn token(&self) -> (r: &str)
        ensures
            r@ == self.token_spec(),
    {
        self.token.as_str()
    }

    /// The whole cookie the server set.
    pub fn cookie(&self) -> (r: &str)
        ensures
            r@ == self.cookie_spec(),
    {
        self.cookie.as_str()
    }
}

/// What a newcomer sends to register.
#[derive(Debug, Clone, Default)]
pub struct RegisterBody {
    pub username: String,
    pub email: String,
    pub password: String,
    pub challenge: Option<String>,
    pub invitation: Option<String>,
}

impl RegisterBody {
    /// A registration with a name, an address and a password, without code or answer.
    pub fn new(username: &str, email: &str, password: &str) -> (r: RegisterBody)
        ensures
            r.username@ == username@,
            r.email@ == email@,
            r.password@ == password@,
            r.challenge is None,
            r.invitation is None,
    {
        RegisterBody {
            username: username.to_owned(),
            email: email.to_owned(),
            password: password.to_owned(),
            challenge: None,
            invitation: None,
        }
    }

    /// The same registration with an invitation code.
    pub fn invitation(self, code: &str) -> (r: RegisterBody)
        ensures
            opt_text(r.invitation) == Some(code@),
            r.username == self.username,
            r.email == self.email,
            r.password == self.password,
            r.challenge == self.challenge,
    {
        let mut s = self;
        s.invitation = Some(code.to_owned());
        s
    }

    /// The same registration with an answer to the challenge.
    pub fn challenge(self, answer: &str) -> (r: RegisterBody)
        ensures
            opt_text(r.challenge) == Some(answer@),
            r.username == self.username,
            r.email == self.email,
            r.password == self.password,
            r.invitation == self.invitation,
    {
        let mut s = self;
        s.challenge = Some(answer.to_owned());
        s
    }
}

/// A remark set at its depth in a thread.
#[derive(Debug, Clone, PartialEq, Eq)]
pub struct Branch {
    pub comment: Comment,
    pub depth: usize,
}

/// Where a page sits in the whole list.
#[derive(Debug, Clone, PartialEq, Eq)]
pub struct PageInfo {
    pub number: u32,
    pub size: u32,
    pub total: u64,
    pub total_pages: u32,
    pub has_next: bool,
    pub has_previous: bool,
}

/// One page of a list.
#[derive(Debug, Clone, PartialEq, Eq)]
pub struct Paged<T> {
    pub items: Vec<T>,
    pub page: PageInfo,
}

/// The first position in `sections` whose address is `slug`.
pub open spec fn first_section_with(sections: Seq<Section>, slug: Seq<char>) -> Option<int>
    decreases sections.len(),
{
    if sections.len() == 0 {
        None
    } else if sections[0].slug@ == slug {
        Some(0)
    } else {
        match first_section_with(sections.drop_first(), slug) {
            Some(i) => Some(i + 1),
            None => None,
        }
    }
}

/// The section whose address is `slug`, the first one if several are.
pub fn find_section<'a>(sections: &'a [Section], slug: &str) -> (r: Option<&'a Section>)
    ensures
        r is None <==> first_section_with(sections@, slug@) is None,
        r is Some ==> *r->0 == sections@[first_section_with(sections@, slug@)->0],
{
    let mut i: usize = 0;
    while i < sections.len()
        invariant
            i <= sections@.len(),
            forall|k: int| 0 <= k < i ==> sections@[k].slug@ != slug@,
        decreases sections@.len() - i,
    {
        if same_text(sections[i].slug.as_str(), slug) {
            proof { lemma_first_section_is(sections@, slug@, i as int); }
            return Some(&sections[i]);
        }
        i = i + 1;
    }
    proof { lemma_no_section(sections@, slug@); }
    None
}

proof fn lemma_first_section_is(sections: Seq<Section>, slug: Seq<char>, i: int)
    requires
        0 <= i < sections.len(),
        sections[i].slug@ == slug,
        forall|k: int| 0 <= k < i ==> sections[k].slug@ != slug,
    ensures
        first_section_with(sections, slug) == Some(i),
    decreases i,
{
    if i > 0 {
        lemma_first_section_is(sections.drop_first(), slug, i - 1);
    }
}

proof fn lemma_no_section(sections: Seq<Section>, slug: Seq<char>)
    requires
        forall|k: int| 0 <= k < sections.len() ==> sections[k].slug@ != slug,
    ensures
        first_section_with(sections, slug) is None,
    decreases sections.len(),
{
    if sections.len() > 0 {
        lemma_no_section(sections.drop_first(), slug);
    }
}

} // verus!
