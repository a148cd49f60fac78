//! Search criteria: what to look in, in which order, and the address that asks for it.
use vstd::prelude::*;
use crate::client::address::{encode_path, escaped_text};
use crate::text::same_text;

verus! {

/// What a search looks in.
#[derive(Debug, Clone, Copy, PartialEq, Eq, Structural)]
pub enum Scope {
    Everything,
    Topics,
    Comments,
}

/// The order in which a search lists what it found.
#[derive(Debug, Clone, Copy, PartialEq, Eq, Structural)]
pub enum Order {
    Relevance,
    Newest,
    Oldest,
}

/// The word by which a scope travels in an address.
pub open spec fn scope_label(s: Scope) -> Seq<char> {
    match s {
        Scope::Everything => "everything"@,
        Scope::Topics => "topics"@,
        Scope::Comments => "comments"@,
    }
}

/// The words in which a scope is shown to a reader.
pub open spec fn scope_words(s: Scope) -> Seq<char> {
    match s {
        Scope::Everything => "Everything"@,
        Scope::Topics => "Subjects"@,
        Scope::Comments => "Remarks"@,
    }
}

/// The scope a word names, if any.
pub open spec fn scope_named(raw: Seq<char>) -> Option<Scope> {
    if raw == "everything"@ {
        Some(Scope::Everything)
    } else if raw == "topics"@ {
        Some(Scope::Topics)
    } else if raw == "comments"@ {
        Some(Scope::Comments)
    } else {
        None
    }
}

/// The word by which an order travels in an address.
pub open spec fn order_label(o: Order) -> Seq<char> {
    match o {
        Order::Relevance => "relevance"@,
        Order::Newest => "newest"@,
        Order::Oldest => "oldest"@,
    }
}

/// The words in which an order is shown to a reader.
pub open spec fn order_words(o: Order) -> Seq<char> {
    match o {
        Order::Relevance => "Best fit"@,
        Order::Newest => "Newest first"@,
        Order::Oldest => "Oldest first"@,
    }
}

/// The order a word names, if any.
pub open spec fn order_named(raw: Seq<char>) -> Option<Order> {
    if raw == "relevance"@ {
        Some(Order::Relevance)
    } else if raw == "newest"@ {
        Some(Order::Newest)
    } else if raw == "oldest"@ {
        Some(Order::Oldest)
    } else {
        None
    }
}

impl Scope {
    pub const ALL: [Scope; 3] = [Scope::Everything, Scope::Topics, Scope::Comments];

    /// Reads a scope back from its word.
    pub fn parse(raw: &str) -> (r: Option<Scope>)
        ensures
            r == scope_named(raw@),
    {
        if same_text(raw, "everything") {
            Some(Scope::Everything)
        } else if same_text(raw, "topics") {
            Some(Scope::Topics)
        } else if same_text(raw, "comments") {
            Some(Scope::Comments)
        } else {
            None
        }
    }

    /// The word by which this scope travels in an address.
    pub fn label(self) -> (r: &'static str)
        ensures
            r@ == scope_label(self),
    {
        match self {
            Scope::Everything => "everything",
            Scope::Topics => "topics",
            Scope::Comments => "comments",
        }
    }

    /// The words in which this scope is shown.
    pub fn words(self) -> (r: &'static str)
        ensures
            r@ == scope_words(self),
    {
        match self {
            Scope::Everything => "Everything",
            Scope::Topics => "Subjects",
            Scope::Comments => "Remarks",
        }
    }
}

impl Order {
    pub const ALL: [Order; 3] = [Order::Relevance, Order::Newest, Order::Oldest];

    /// Reads an order back from its word.
    pub fn parse(raw: &str) -> (r: Option<Order>)
        ensures
            r == order_named(raw@),
    {
        if same_text(raw, "relevance") {
            Some(Order::Relevance)
        } else if same_text(raw, "newest") {
            Some(Order::Newest)
        } else if same_text(raw, "oldest") {
            Some(Order::Oldest)
        } else {
            None
        }
    }

    /// The word by which this order travels in an address.
    pub fn label(self) -> (r: &'static str)
        ensures
            r@ == order_label(self),
    {
        match self {
            Order::Relevance => "relevance",
            Order::Newest => "newest",
            Order::Oldest => "oldest",
        }
    }

    /// The words in which this order is shown.
    pub fn words(self) -> (r: &'static str)
        ensures
            r@ == order_words(self),
    {
        match self {
            Order::Relevance => "Best fit",
            Order::Newest => "Newest first",
            Order::Oldest => "Oldest first",
        }
    }
}

/// Every scope is read back from its own word, and its words are not empty.
pub proof fn scope_label_round_trip(s: Scope)
    ensures
        scope_named(scope_label(s)) == Some(s),
        scope_words(s).len() > 0,
{
    reveal_strlit("everything");
    reveal_strlit("topics");
    reveal_strlit("comments");
    reveal_strlit("Everything");
    reveal_strlit("Subjects");
    reveal_strlit("Remarks");
    assert("topics"@.len() != "everything"@.len());
    assert("comments"@.len() != "everything"@.len());
    assert("comments"@.len() != "topics"@.len());
}

/// Every order is read back from its own word, and its words are not empty.
pub proof fn order_label_round_trip(o: Order)
    ensures
        order_named(order_label(o)) == Some(o),
        order_words(o).len() > 0,
{
    reveal_strlit("relevance");
    reveal_strlit("newest");
    reveal_strlit("oldest");
    reveal_strlit("Best fit");
    reveal_strlit("Newest first");
    reveal_strlit("Oldest first");
    assert("newest"@.len() != "relevance"@.len());
    assert("oldest"@.len() != "relevance"@.len());
    assert("oldest"@[0] != "newest"@[0]);
}

/// A search: the words looked for, where, and in which order.
#[derive(Debug, Clone, PartialEq, Eq)]
pub struct Criteria {
    query: String,
    scope: Scope,
    order: Order,
}

impl View for Criteria {
    type V = (Seq<char>, Scope, Order);

    closed spec fn view(&self) -> (Seq<char>, Scope, Order) {
        (self.query@, self.scope, self.order)
    }
}

impl Criteria {
    /// A search for `query` in `scope`, listed in `order`.
    pub fn new(query: &str, scope: Scope, order: Order) -> (r: Criteria)
        ensures
            r@ == (query@, scope, order),
    {
        Criteria { query: query.to_owned(), scope, order }
    }

    /// A search read from an address: a scope or order that is missing or
    /// unknown falls back to everything, by relevance.
    pub fn parse(query: &str, scope: Option<&str>, order: Option<&str>) -> (r: Criteria)
        ensures
            r@.0 == query@,
            r@.1 == (match scope {
                Some(s) => match scope_named(s@) {
                    Some(k) => k,
                    None => Scope::Everything,
                },
                None => Scope::Everything,
            }),
            r@.2 == (match order {
                Some(o) => match order_named(o@) {
                    Some(k) => k,
                    None => Order::Relevance,
                },
                None => Order::Relevance,
            }),
    {
        let s = match scope {
            Some(raw) => match Scope::parse(raw) {
                Some(k) => k,
                None => Scope::Everything,
            },
            None => Scope::Everything,
        };
        let o = match order {
            Some(raw) => match Order::parse(raw) {
                Some(k) => k,
                None => Order::Relevance,
            },
            None => Order::Relevance,
        };
        Criteria::new(query, s, o)
    }

    /// The words looked for.
    pub fn query(&self) -> (r: &str)
        ensures
            r@ == self@.0,
    {
        self.query.as_str()
    }

    /// Where the search looks.
    pub fn scope(&self) -> (r: Scope)
        ensures
            r == self@.1,
    {
        self.scope
    }

    /// The order of the results.
    pub fn order(&self) -> (r: Order)
        ensures
            r == self@.2,
    {
        self.order
    }
}

/// The address of a search: the escaped words, the scope and the order.
pub open spec fn search_address_spec(c: (Seq<char>, Scope, Order)) -> Seq<char> {
    "/api/search?q="@ + escaped_text(c.0) + "&scope="@ + scope_label(c.1) + "&order="@
        + order_label(c.2)
}

/// The address that asks the server for a search.
pub fn search_address(criteria: &Criteria) -> (r: String)
    ensures
        r@ == search_address_spec(criteria@),
{
    let mut out = String::new();
    out.append("/api/search?q=");
    let q = encode_path(criteria.query());
    out.append(q.as_str());
    out.append("&scope=");
    out.append(criteria.scope().label());
    out.append("&order=");
    out.append(criteria.order().label());
    assert(out@ =~= search_address_spec(criteria@));
    out
}

} // verus!
