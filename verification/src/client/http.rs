//! What the client decides of what it sends and what comes back: the server's
//! address, whether an answer is a success, why a refusal came, and the
//! session a sign-in sets.
use vstd::prelude::*;
use crate::client::errors::ClientError;
use crate::client::wire::Session;
use crate::text::{is_prefix, push_char, starts_with};

verus! {

/// The name of the cookie that carries a session.
pub const SESSION_COOKIE: &'static str = "session";

/// Whether a status is a success: from 200 up to, not including, 300.
pub fn is_success(status: u16) -> (r: bool)
    ensures
        r == (200 <= status < 300),
{
    200 <= status && status < 300
}

/// What an answer amounts to before its body is read.
#[derive(Debug, Clone, Copy, PartialEq, Eq, Structural)]
pub enum Answer {
    /// Nothing is there, where that is an answer of its own.
    Missing,
    /// The server refused: the body may say why.
    Refused,
    /// The body holds what was asked.
    Accepted,
}

/// What an answer with this status amounts to; a 404 means "nothing there"
/// only where the request allows for it.
pub fn classify(status: u16, missing_allowed: bool) -> (r: Answer)
    ensures
        r == (if missing_allowed && status == 404 {
            Answer::Missing
        } else if !(200 <= status < 300) {
            Answer::Refused
        } else {
            Answer::Accepted
        }),
{
    if missing_allowed && status == 404 {
        Answer::Missing
    } else if !is_success(status) {
        Answer::Refused
    } else {
        Answer::Accepted
    }
}

/// The error for an answer that is not a success: the server's reason when it
/// gave one, else the bare status.
pub fn refusal(status: u16, reason: Option<String>) -> (r: ClientError)
    ensures
        r == (match reason {
            Some(why) => ClientError::Rejected { status, reason: why },
            None => ClientError::Status(status),
        }),
{
    match reason {
        Some(why) => ClientError::Rejected { status, reason: why },
        None => ClientError::Status(status),
    }
}

/// A text without the slashes it ends with.
pub open spec fn without_trailing_slashes(s: Seq<char>) -> Seq<char>
    decreases s.len(),
{
    if s.len() > 0 && s.last() == '/' {
        without_trailing_slashes(s.drop_last())
    } else {
        s
    }
}

/// Whether an address is one the client can talk to: it starts with `http://` or `https://`.
pub open spec fn is_http(s: Seq<char>) -> bool {
    is_prefix("http://"@, s) || is_prefix("https://"@, s)
}

proof fn lemma_trim_is_prefix(s: Seq<char>, k: int)
    requires
        0 <= k <= s.len(),
        forall|i: int| k <= i < s.len() ==> s[i] == '/',
        k == 0 || s[k - 1] != '/',
    ensures
        without_trailing_slashes(s) == s.take(k),
    decreases s.len(),
{
    if s.len() > 0 && s.last() == '/' {
        if k == s.len() {
            assert(s[k - 1] == s.last());
        }
        lemma_trim_is_prefix(s.drop_last(), k);
        assert(s.drop_last().take(k) =~= s.take(k));
    } else {
        if k < s.len() {
            assert(s[s.len() - 1] == '/');
        }
        assert(s.take(k) =~= s);
    }
}

/// The server's address as the client keeps it: without trailing slashes, and
/// only when it is an http or https address; otherwise the address as given is refused.
pub fn base_address(base: &str) -> (r: Result<String, ClientError>)
    ensures
        r is Ok <==> is_http(without_trailing_slashes(base@)),
        r is Ok ==> r->Ok_0@ == without_trailing_slashes(base@),
        r is Err ==> (r->Err_0 matches ClientError::BadBaseUrl(raw) && raw@ == base@),
{
    let n = base.unicode_len();
    let mut k = n;
    while k > 0 && base.get_char(k - 1) == '/'
        invariant
            n == base@.len(),
            k <= n,
            forall|i: int| k <= i < n ==> base@[i] == '/',
        decreases k,
    {
        k = k - 1;
    }
    proof { lemma_trim_is_prefix(base@, k as int); }
    let trimmed = base.substring_char(0, k);
    if !starts_with(trimmed, "http://") && !starts_with(trimmed, "https://") {
        return Err(ClientError::BadBaseUrl(base.to_owned()));
    }
    Ok(trimmed.to_owned())
}

/// The first of the cookies set whose name is the session's.
pub open spec fn first_session_cookie(values: Seq<String>) -> Option<String>
    decreases values.len(),
{
    if values.len() == 0 {
        None
    } else if is_prefix("session="@, values[0]@) {
        Some(values[0])
    } else {
        first_session_cookie(values.drop_first())
    }
}

proof fn lemma_first_cookie_at(values: Seq<String>, i: int)
    requires
        0 <= i < values.len(),
        is_prefix("session="@, values[i]@),
        forall|k: int| 0 <= k < i ==> !is_prefix("session="@, #[trigger] values[k]@),
    ensures
        first_session_cookie(values) == Some(values[i]),
    decreases i,
{
    if i > 0 {
        lemma_first_cookie_at(values.drop_first(), i - 1);
    }
}

proof fn lemma_no_cookie(values: Seq<String>)
    requires
        forall|k: int| 0 <= k < values.len() ==> !is_prefix("session="@, #[trigger] values[k]@),
    ensures
        first_session_cookie(values) is None,
    decreases values.len(),
{
    if values.len() > 0 {
        lemma_no_cookie(values.drop_first());
    }
}

/// The cookie that carries the session among those the server set, if any.
pub fn session_cookie_of(values: &Vec<String>) -> (r: Option<String>)
    ensures
        r == first_session_cookie(values@),
{
    let mut i: usize = 0;
    while i < values.len()
        invariant
            i <= values@.len(),
            forall|k: int| 0 <= k < i ==> !is_prefix("session="@, #[trigger] values@[k]@),
        decreases values@.len() - i,
    {
        if starts_with(values[i].as_str(), "session=") {
            proof { lemma_first_cookie_at(values@, i as int); }
            return Some(values[i].clone());
        }
        i = i + 1;
    }
    proof { lemma_no_cookie(values@); }
    None
}

/// The part of a cookie before its first `;`.
pub open spec fn cookie_pair(c: Seq<char>) -> Seq<char>
    decreases c.len(),
{
    if c.len() == 0 {
        c
    } else if cookie_pair(c.drop_last()).len() < c.len() - 1 {
        cookie_pair(c.drop_last())
    } else if c.last() == ';' {
        c.drop_last()
    } else {
        c
    }
}

/// The token a session cookie carries: what follows `session=` before the first `;`.
pub open spec fn token_of(c: Seq<char>) -> Seq<char> {
    if is_prefix("session="@, cookie_pair(c)) {
        cookie_pair(c).skip(8)
    } else {
        Seq::empty()
    }
}

proof fn lemma_cookie_pair(c: Seq<char>, k: int)
    requires
        0 <= k <= c.len(),
        forall|i: int| 0 <= i < k ==> c[i] != ';',
        k == c.len() || c[k] == ';',
    ensures
        cookie_pair(c) == c.take(k),
    decreases c.len(),
{
    if c.len() > 0 {
        if k < c.len() {
            lemma_cookie_pair(c.drop_last(), if k < c.len() - 1 { k } else { k });
            if k < c.len() - 1 {
                assert(c.drop_last().take(k) =~= c.take(k));
            } else {
                assert(c.drop_last() =~= c.take(k));
            }
        } else {
            lemma_cookie_pair(c.drop_last(), c.len() - 1);
            assert(c.drop_last().take(c.len() - 1) =~= c.drop_last());
            assert(c.take(k) =~= c);
        }
    }
}

/// The session a sign-in set: its cookie, and the token in it; an answer
/// without a session cookie is an unreadable one.
pub fn session_of(cookie: Option<String>) -> (r: Result<Session, ClientError>)
    ensures
        r is Ok <==> cookie is Some,
        r is Ok ==> r->Ok_0.cookie_spec() == cookie->0@ && r->Ok_0.token_spec() == token_of(cookie->0@),
        r is Err ==> (r->Err_0 matches ClientError::Detail(d) && d@ == "the board answered without a session"@),
{
    let cookie = match cookie {
        Some(c) => c,
        None => return Err(ClientError::Detail("the board answered without a session".to_owned())),
    };
    let n = cookie.as_str().unicode_len();
    let mut k: usize = 0;
    while k < n && cookie.as_str().get_char(k) != ';'
        invariant
            n == cookie@.len(),
            k <= n,
            forall|i: int| 0 <= i < k ==> cookie@[i] != ';',
        decreases n - k,
    {
        k = k + 1;
    }
    proof { lemma_cookie_pair(cookie@, k as int); }
    let pair = cookie.as_str().substring_char(0, k);
    proof {
        reveal_strlit("session=");
    }
    let token = if starts_with(pair, "session=") {
        pair.substring_char(8, k).to_owned()
    } else {
        String::new()
    };
    proof {
        reveal_strlit("session=");
        if is_prefix("session="@, pair@) {
            assert(pair@.subrange(8, k as int) =~= pair@.skip(8));
        }
    }
    Ok(Session::from_parts(token, cookie))
}

} // verus!
