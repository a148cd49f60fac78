//! Setting remarks into a thread: each reply under the remark it answers,
//! siblings from the oldest, every remark at its depth.
use vstd::prelude::*;
use vstd::string::StringSliceAdditionalSpecFns;
use crate::client::wire::{Branch, Comment};
use crate::text::{bytes_equal, lex_less, lex_lt};

verus! {

/// The bytes of a text, as `str` compares them.
pub open spec fn utf8(s: Seq<char>) -> Seq<u8> {
    vstd::utf8::encode_utf8(s)
}

/// Whether remark `a` comes strictly before remark `b`: by the moment it was
/// written, then by its identifier, both compared as bytes.
pub open spec fn older(a: Comment, b: Comment) -> bool {
    lex_lt(utf8(a.created_at@), utf8(b.created_at@)) || (utf8(a.created_at@) == utf8(
        b.created_at@,
    ) && lex_lt(utf8(a.id@), utf8(b.id@)))
}

/// Whether some remark of `cs` has the identifier `id`.
pub open spec fn known(cs: Seq<Comment>, id: Seq<char>) -> bool {
    exists|j: int| 0 <= j < cs.len() && #[trigger] cs[j].id@ == id
}

/// Whether remark `i` starts a thread: it answers nothing, itself, or a remark that is not here.
pub open spec fn is_root(cs: Seq<Comment>, i: int) -> bool {
    match cs[i].parent_id {
        None => true,
        Some(p) => p@ == cs[i].id@ || !known(cs, p@),
    }
}

/// Whether remark `k` answers remark `i`.
pub open spec fn answers(cs: Seq<Comment>, k: int, i: int) -> bool {
    match cs[k].parent_id {
        None => false,
        Some(p) => p@ == cs[i].id@ && p@ != cs[k].id@,
    }
}

/// Whether remark `a` may stand before remark `b`: `b` is not older than `a`.
pub open spec fn not_after(a: Comment, b: Comment) -> bool {
    !older(b, a)
}

proof fn lemma_not_after_transitive(a: Comment, b: Comment, c: Comment)
    requires
        not_after(a, b),
        not_after(b, c),
    ensures
        not_after(a, c),
{
    let (ca, cb, cc) = (utf8(a.created_at@), utf8(b.created_at@), utf8(c.created_at@));
    let (ia, ib, ic) = (utf8(a.id@), utf8(b.id@), utf8(c.id@));
    if older(c, a) {
        if ca != cb {
            crate::text::lemma_lex_lt_total(ca, cb);
        }
        if cb != cc {
            crate::text::lemma_lex_lt_total(cb, cc);
        }
        if ia != ib {
            crate::text::lemma_lex_lt_total(ia, ib);
        }
        if ib != ic {
            crate::text::lemma_lex_lt_total(ib, ic);
        }
        if lex_lt(cc, ca) {
            if lex_lt(ca, cb) {
                crate::text::lemma_lex_lt_transitive(cc, ca, cb);
                crate::text::lemma_lex_lt_asymmetric(cc, cb);
            } else if ca == cb {
                crate::text::lemma_lex_lt_asymmetric(cc, cb);
            }
            if lex_lt(cb, cc) {
                crate::text::lemma_lex_lt_transitive(cb, cc, ca);
                crate::text::lemma_lex_lt_asymmetric(ca, cb);
            }
        } else {
            if lex_lt(ca, cb) {
                crate::text::lemma_lex_lt_asymmetric(cb, cc);
            }
            if lex_lt(ic, ia) && ib != ia && ib != ic {
                if lex_lt(ia, ib) {
                    crate::text::lemma_lex_lt_transitive(ic, ia, ib);
                    crate::text::lemma_lex_lt_asymmetric(ic, ib);
                }
                if lex_lt(ib, ic) {
                    crate::text::lemma_lex_lt_transitive(ib, ic, ia);
                    crate::text::lemma_lex_lt_asymmetric(ia, ib);
                }
            }
        }
    }
}

/// Whether the remarks at positions `s` stand from the oldest to the youngest.
pub open spec fn oldest_first(cs: Seq<Comment>, s: Seq<usize>) -> bool {
    forall|i: int, j: int| 0 <= i < j < s.len() ==> not_after(cs[s[i] as int], cs[s[j] as int])
}

proof fn lemma_insert_shape(cs: Seq<Comment>, s: Seq<usize>, x: usize) -> (j: int)
    ensures
        0 <= j <= s.len(),
        insert_by_age(cs, s, x) == s.insert(j, x),
        forall|k: int| j <= k < s.len() ==> older(cs[x as int], #[trigger] cs[s[k] as int]),
        j == 0 || !older(cs[x as int], cs[s[j - 1] as int]),
    decreases s.len(),
{
    if s.len() == 0 {
        assert(s.insert(0, x) =~= seq![x]);
        0
    } else if older(cs[x as int], cs[s.last() as int]) {
        let j = lemma_insert_shape(cs, s.drop_last(), x);
        assert(s.drop_last().insert(j, x).push(s.last()) =~= s.insert(j, x));
        assert forall|k: int| j <= k < s.len() implies older(cs[x as int], #[trigger] cs[s[k] as int]) by {
            if k < s.len() - 1 {
                assert(s[k] == s.drop_last()[k]);
            }
        }
        j
    } else {
        assert(s.push(x) =~= s.insert(s.len() as int, x));
        s.len() as int
    }
}

proof fn lemma_insert_keeps_order(cs: Seq<Comment>, s: Seq<usize>, x: usize)
    requires
        oldest_first(cs, s),
    ensures
        oldest_first(cs, insert_by_age(cs, s, x)),
{
    let j = lemma_insert_shape(cs, s, x);
    let r = s.insert(j, x);
    assert forall|a: int, b: int| 0 <= a < b < r.len() implies not_after(cs[r[a] as int], cs[r[b] as int]) by {
        if b < j {
            assert(r[a] == s[a] && r[b] == s[b]);
        } else if a > j {
            assert(r[a] == s[a - 1] && r[b] == s[b - 1]);
        } else if a == j {
            assert(r[b] == s[b - 1]);
            let xb = cs[x as int];
            assert(older(xb, cs[s[j] as int]));
            if b - 1 > j {
                assert(not_after(cs[s[j] as int], cs[s[b - 1] as int]));
                let (p, q) = (utf8(xb.created_at@), utf8(cs[s[j] as int].created_at@));
                crate::text::lemma_lex_lt_asymmetric(p, q);
                crate::text::lemma_lex_lt_asymmetric(utf8(xb.id@), utf8(cs[s[j] as int].id@));
                lemma_not_after_transitive(xb, cs[s[j] as int], cs[s[b - 1] as int]);
            } else {
                crate::text::lemma_lex_lt_asymmetric(utf8(xb.created_at@), utf8(cs[s[j] as int].created_at@));
                crate::text::lemma_lex_lt_asymmetric(utf8(xb.id@), utf8(cs[s[j] as int].id@));
            }
        } else if b == j {
            assert(r[a] == s[a]);
            if a < j - 1 {
                lemma_not_after_transitive(cs[s[a] as int], cs[s[j - 1] as int], cs[x as int]);
            }
        } else {
            assert(r[a] == s[a] && r[b] == s[b - 1]);
        }
    }
}

/// Ordering by age leaves the remarks from the oldest to the youngest: no
/// remark stands before an older one.
pub proof fn by_age_is_oldest_first(cs: Seq<Comment>, s: Seq<usize>)
    ensures
        oldest_first(cs, by_age(cs, s)),
        by_age(cs, s).len() == s.len(),
    decreases s.len(),
{
    lemma_by_age_len(cs, s);
    if s.len() > 0 {
        by_age_is_oldest_first(cs, s.drop_last());
        lemma_insert_keeps_order(cs, by_age(cs, s.drop_last()), s.last());
    }
}

/// The positions below `n` of the remarks that start a thread, in their order.
pub open spec fn roots_below(cs: Seq<Comment>, n: int) -> Seq<usize>
    decreases n,
{
    if n <= 0 {
        Seq::empty()
    } else if is_root(cs, n - 1) {
        roots_below(cs, n - 1).push((n - 1) as usize)
    } else {
        roots_below(cs, n - 1)
    }
}

/// The positions below `n` of the remarks that answer remark `i`, in their order.
pub open spec fn replies_below(cs: Seq<Comment>, i: int, n: int) -> Seq<usize>
    decreases n,
{
    if n <= 0 {
        Seq::empty()
    } else if answers(cs, n - 1, i) {
        replies_below(cs, i, n - 1).push((n - 1) as usize)
    } else {
        replies_below(cs, i, n - 1)
    }
}

/// `x` put into `s` after every remark that is not younger than it.
pub open spec fn insert_by_age(cs: Seq<Comment>, s: Seq<usize>, x: usize) -> Seq<usize>
    decreases s.len(),
{
    if s.len() == 0 {
        seq![x]
    } else if older(cs[x as int], cs[s.last() as int]) {
        insert_by_age(cs, s.drop_last(), x).push(s.last())
    } else {
        s.push(x)
    }
}

/// The stable ordering of the positions `s` from the oldest remark to the youngest.
pub open spec fn by_age(cs: Seq<Comment>, s: Seq<usize>) -> Seq<usize>
    decreases s.len(),
{
    if s.len() == 0 {
        Seq::empty()
    } else {
        insert_by_age(cs, by_age(cs, s.drop_last()), s.last())
    }
}

/// The remarks that start threads, oldest first.
pub open spec fn roots(cs: Seq<Comment>) -> Seq<usize> {
    by_age(cs, roots_below(cs, cs.len() as int))
}

/// The answers to remark `i`, oldest first.
pub open spec fn replies(cs: Seq<Comment>, i: int) -> Seq<usize> {
    by_age(cs, replies_below(cs, i, cs.len() as int))
}

/// Remark `i` at depth `d`, followed by its answers one level deeper, each with
/// its own answers; at most `fuel` levels are set.
pub open spec fn tree(cs: Seq<Comment>, i: usize, d: usize, fuel: nat) -> Seq<(usize, usize)>
    decreases fuel, 0int, 0int,
{
    if fuel == 0 {
        Seq::empty()
    } else {
        seq![(i, d)] + grove(cs, replies(cs, i as int), (d + 1) as usize, (fuel - 1) as nat)
    }
}

/// The trees of the remarks `l`, one after the other.
pub open spec fn grove(cs: Seq<Comment>, l: Seq<usize>, d: usize, fuel: nat) -> Seq<(usize, usize)>
    decreases fuel, 1int, l.len(),
{
    if l.len() == 0 {
        Seq::empty()
    } else {
        tree(cs, l[0], d, fuel) + grove(cs, l.drop_first(), d, fuel)
    }
}

/// The thread of a list of remarks, as positions and depths: every thread from
/// its oldest start, each remark followed by its answers. No chain of answers
/// is longer than the list itself.
pub open spec fn thread_spec(cs: Seq<Comment>) -> Seq<(usize, usize)> {
    grove(cs, roots(cs), 0, cs.len())
}

/// Positions of a stack that still wait to be set, the top first.
spec fn pending(cs: Seq<Comment>, st: Seq<(usize, usize)>, n: nat) -> Seq<(usize, usize)>
    decreases st.len(),
{
    if st.len() == 0 {
        Seq::empty()
    } else {
        tree(cs, st.last().0, st.last().1, (n - st.last().1) as nat) + pending(
            cs,
            st.drop_last(),
            n,
        )
    }
}

/// The positions `l`, all at depth `d`, as a stack whose top is `l[0]`.
spec fn stacked(l: Seq<usize>, d: usize) -> Seq<(usize, usize)>
    decreases l.len(),
{
    if l.len() == 0 {
        Seq::empty()
    } else {
        stacked(l.drop_first(), d).push((l[0], d))
    }
}

proof fn lemma_pending_stacked(
    cs: Seq<Comment>,
    st: Seq<(usize, usize)>,
    l: Seq<usize>,
    d: usize,
    n: nat,
)
    requires
        d <= n,
    ensures
        pending(cs, st + stacked(l, d), n) == grove(cs, l, d, (n - d) as nat) + pending(cs, st, n),
    decreases l.len(),
{
    if l.len() == 0 {
        assert(st + stacked(l, d) =~= st);
    } else {
        let rest = st + stacked(l.drop_first(), d);
        assert(st + stacked(l, d) =~= rest.push((l[0], d)));
        assert(rest.push((l[0], d)).drop_last() =~= rest);
        lemma_pending_stacked(cs, st, l.drop_first(), d, n);
        assert(pending(cs, st + stacked(l, d), n) =~= tree(cs, l[0], d, (n - d) as nat) + (grove(
            cs,
            l.drop_first(),
            d,
            (n - d) as nat,
        ) + pending(cs, st, n)));
    }
}

proof fn lemma_stacked_step(l: Seq<usize>, k: int, d: usize)
    requires
        0 < k <= l.len(),
    ensures
        stacked(l.subrange(k - 1, l.len() as int), d) == stacked(l.subrange(k, l.len() as int), d).push(
            (l[k - 1], d),
        ),
{
    assert(l.subrange(k - 1, l.len() as int).drop_first() =~= l.subrange(k, l.len() as int));
}

fn copy_text(s: &Option<String>) -> (r: Option<String>)
    ensures
        r == *s,
{
    match s {
        Some(t) => Some(t.clone()),
        None => None,
    }
}

fn copy_comment(c: &Comment) -> (r: Comment)
    ensures
        r == *c,
{
    Comment {
        id: c.id.clone(),
        topic_id: c.topic_id.clone(),
        parent_id: copy_text(&c.parent_id),
        body: c.body.clone(),
        author_username: c.author_username.clone(),
        created_at: c.created_at.clone(),
        deleted: c.deleted,
        deleted_reason: copy_text(&c.deleted_reason),
        edited: c.edited,
        ignored: c.ignored,
    }
}

fn is_older(a: &Comment, b: &Comment) -> (r: bool)
    ensures
        r == older(*a, *b),
{
    let ac = a.created_at.as_str().as_bytes();
    let bc = b.created_at.as_str().as_bytes();
    if lex_less(ac, bc) {
        return true;
    }
    if !bytes_equal(ac, bc) {
        return false;
    }
    lex_less(a.id.as_str().as_bytes(), b.id.as_str().as_bytes())
}

proof fn lemma_insert_at(cs: Seq<Comment>, s: Seq<usize>, x: usize, j: int)
    requires
        0 <= j <= s.len(),
        forall|k: int| j <= k < s.len() ==> older(cs[x as int], #[trigger] cs[s[k] as int]),
        j == 0 || !older(cs[x as int], cs[s[j - 1] as int]),
    ensures
        insert_by_age(cs, s, x) == s.insert(j, x),
    decreases s.len(),
{
    if s.len() == 0 {
        assert(s.insert(j, x) =~= seq![x]);
    } else if j == s.len() {
        assert(s.insert(j, x) =~= s.push(x));
    } else {
        assert(older(cs[x as int], cs[s[s.len() - 1] as int]));
        lemma_insert_at(cs, s.drop_last(), x, j);
        assert(s.drop_last().insert(j, x).push(s.last()) =~= s.insert(j, x));
    }
}

fn order_by_age(cs: &[Comment], s: Vec<usize>) -> (r: Vec<usize>)
    requires
        forall|k: int| 0 <= k < s@.len() ==> (#[trigger] s@[k] as int) < cs@.len(),
    ensures
        r@ == by_age(cs@, s@),
        forall|k: int| 0 <= k < r@.len() ==> (#[trigger] r@[k] as int) < cs@.len(),
{
    let mut r: Vec<usize> = Vec::new();
    let mut i: usize = 0;
    while i < s.len()
        invariant
            i <= s@.len(),
            r@ == by_age(cs@, s@.subrange(0, i as int)),
            forall|k: int| 0 <= k < s@.len() ==> (#[trigger] s@[k] as int) < cs@.len(),
            forall|k: int| 0 <= k < r@.len() ==> (#[trigger] r@[k] as int) < cs@.len(),
            r@.len() == i,
        decreases s@.len() - i,
    {
        let x = s[i];
        let mut j = r.len();
        while j > 0 && is_older(&cs[x], &cs[r[j - 1]])
            invariant
                j <= r@.len(),
                (x as int) < cs@.len(),
                forall|k: int| 0 <= k < r@.len() ==> (#[trigger] r@[k] as int) < cs@.len(),
                forall|k: int| j <= k < r@.len() ==> older(cs@[x as int], #[trigger] cs@[r@[k] as int]),
            decreases j,
        {
            j = j - 1;
        }
        proof {
            lemma_insert_at(cs@, r@, x, j as int);
            assert(s@.subrange(0, i + 1).drop_last() =~= s@.subrange(0, i as int));
            assert(s@.subrange(0, i + 1).last() == x);
        }
        r.insert(j, x);
        i = i + 1;
    }
    assert(s@.subrange(0, s@.len() as int) =~= s@);
    proof { lemma_by_age_len(cs@, s@); }
    r
}

proof fn lemma_insert_len(cs: Seq<Comment>, s: Seq<usize>, x: usize)
    ensures
        insert_by_age(cs, s, x).len() == s.len() + 1,
    decreases s.len(),
{
    if s.len() > 0 {
        lemma_insert_len(cs, s.drop_last(), x);
    }
}

proof fn lemma_by_age_len(cs: Seq<Comment>, s: Seq<usize>)
    ensures
        by_age(cs, s).len() == s.len(),
    decreases s.len(),
{
    if s.len() > 0 {
        lemma_by_age_len(cs, s.drop_last());
        lemma_insert_len(cs, by_age(cs, s.drop_last()), s.last());
    }
}

fn starts_thread(cs: &[Comment], i: usize) -> (r: bool)
    requires
        i < cs@.len(),
    ensures
        r == is_root(cs@, i as int),
{
    match &cs[i].parent_id {
        None => true,
        Some(p) => {
            if crate::text::same_text(p.as_str(), cs[i].id.as_str()) {
                return true;
            }
            let mut j: usize = 0;
            while j < cs.len()
                invariant
                    j <= cs@.len(),
                    i < cs@.len(),
                    cs@[i as int].parent_id == Some(*p),
                    p@ != cs@[i as int].id@,
                    forall|k: int| 0 <= k < j ==> cs@[k].id@ != p@,
                decreases cs@.len() - j,
            {
                if crate::text::same_text(cs[j].id.as_str(), p.as_str()) {
                    assert(known(cs@, p@));
                    return false;
                }
                j = j + 1;
            }
            true
        },
    }
}

fn is_answer(cs: &[Comment], k: usize, i: usize) -> (r: bool)
    requires
        k < cs@.len(),
        i < cs@.len(),
    ensures
        r == answers(cs@, k as int, i as int),
{
    match &cs[k].parent_id {
        None => false,
        Some(p) => crate::text::same_text(p.as_str(), cs[i].id.as_str()) && !crate::text::same_text(
            p.as_str(),
            cs[k].id.as_str(),
        ),
    }
}

fn thread_roots(cs: &[Comment]) -> (r: Vec<usize>)
    ensures
        r@ == roots(cs@),
        forall|k: int| 0 <= k < r@.len() ==> (#[trigger] r@[k] as int) < cs@.len(),
{
    let mut s: Vec<usize> = Vec::new();
    let mut i: usize = 0;
    while i < cs.len()
        invariant
            i <= cs@.len(),
            s@ == roots_below(cs@, i as int),
            forall|k: int| 0 <= k < s@.len() ==> (#[trigger] s@[k] as int) < i,
        decreases cs@.len() - i,
    {
        if starts_thread(cs, i) {
            s.push(i);
        }
        i = i + 1;
    }
    order_by_age(cs, s)
}

fn thread_replies(cs: &[Comment], target: usize) -> (r: Vec<usize>)
    requires
        target < cs@.len(),
    ensures
        r@ == replies(cs@, target as int),
        forall|k: int| 0 <= k < r@.len() ==> (#[trigger] r@[k] as int) < cs@.len(),
{
    let mut s: Vec<usize> = Vec::new();
    let mut i: usize = 0;
    while i < cs.len()
        invariant
            i <= cs@.len(),
            target < cs@.len(),
            s@ == replies_below(cs@, target as int, i as int),
            forall|k: int| 0 <= k < s@.len() ==> (#[trigger] s@[k] as int) < i,
        decreases cs@.len() - i,
    {
        if is_answer(cs, i, target) {
            s.push(i);
        }
        i = i + 1;
    }
    order_by_age(cs, s)
}

/// Pushes `l` onto the stack at depth `d`, so that `l[0]` ends on top.
fn push_all(stack: &mut Vec<(usize, usize)>, l: &Vec<usize>, d: usize)
    ensures
        final(stack)@ == old(stack)@ + stacked(l@, d),
{
    let ghost st0 = stack@;
    let mut k = l.len();
    assert(l@.subrange(k as int, l@.len() as int) =~= Seq::<usize>::empty());
    while k > 0
        invariant
            k <= l@.len(),
            stack@ == st0 + stacked(l@.subrange(k as int, l@.len() as int), d),
        decreases k,
    {
        proof { lemma_stacked_step(l@, k as int, d); }
        stack.push((l[k - 1], d));
        k = k - 1;
    }
    assert(l@.subrange(0, l@.len() as int) =~= l@);
}

/// Sets remarks into a thread: the remarks that answer nothing here come first,
/// oldest first, each followed by its answers one level deeper, oldest first.
pub fn thread(comments: &[Comment]) -> (out: Vec<Branch>)
    ensures
        out@.len() == thread_spec(comments@).len(),
        forall|k: int|
            0 <= k < out@.len() ==> (#[trigger] out@[k]).comment == comments@[thread_spec(
                comments@,
            )[k].0 as int] && out@[k].depth == thread_spec(comments@)[k].1,
{
    let n = comments.len();
    let ghost cs = comments@;
    let ghost target = thread_spec(cs);
    let top = thread_roots(comments);
    let mut stack: Vec<(usize, usize)> = Vec::new();
    push_all(&mut stack, &top, 0);
    proof {
        lemma_pending_stacked(cs, Seq::empty(), top@, 0, n as nat);
        assert(Seq::<(usize, usize)>::empty() + stacked(top@, 0) =~= stacked(top@, 0));
        assert(stack@ == stacked(top@, 0));
        assert(pending(cs, stack@, n as nat) =~= thread_spec(cs));
        lemma_stacked_facts(top@, 0);
    }
    let mut out: Vec<Branch> = Vec::new();
    let ghost mut done: Seq<(usize, usize)> = Seq::empty();
    while stack.len() > 0
        invariant
            n == cs.len(),
            cs == comments@,
            target == thread_spec(cs),
            done + pending(cs, stack@, n as nat) == target,
            out@.len() == done.len(),
            forall|k: int|
                0 <= k < out@.len() ==> (#[trigger] out@[k]).comment == cs[done[k].0 as int]
                    && out@[k].depth == done[k].1,
            forall|k: int|
                0 <= k < stack@.len() ==> (#[trigger] stack@[k]).0 < n && stack@[k].1 <= n,
        decreases target.len() - done.len(), stack@.len(),
    {
        let ghost before = stack@;
        let (i, d) = stack.pop().unwrap();
        proof {
            assert(before.drop_last() == stack@);
            assert(before.last() == (i, d));
            assert(stack@.len() < before.len());
        }
        if d < n {
            let ghost kids = replies(cs, i as int);
            out.push(Branch { comment: copy_comment(&comments[i]), depth: d });
            let next = thread_replies(comments, i);
            let ghost rest = stack@;
            push_all(&mut stack, &next, d + 1);
            proof {
                lemma_pending_stacked(cs, rest, next@, (d + 1) as usize, n as nat);
                assert(tree(cs, i, d, (n - d) as nat) == seq![(i, d)] + grove(
                    cs,
                    kids,
                    (d + 1) as usize,
                    (n - d - 1) as nat,
                ));
                assert(pending(cs, before, n as nat) == tree(cs, i, d, (n - d) as nat) + pending(
                    cs,
                    rest,
                    n as nat,
                ));
                assert(done.push((i, d)) + pending(cs, stack@, n as nat) =~= done + pending(
                    cs,
                    before,
                    n as nat,
                ));
                done = done.push((i, d));
                assert forall|k: int| 0 <= k < stack@.len() implies (#[trigger] stack@[k]).0 < n
                    && stack@[k].1 <= n by {
                    lemma_stacked_facts(next@, (d + 1) as usize);
                    if k >= rest.len() {
                        assert(stack@[k] == stacked(next@, (d + 1) as usize)[k - rest.len()]);
                    }
                }
            }
        } else {
            proof {
                assert(pending(cs, before, n as nat) == pending(cs, stack@, n as nat));
            }
        }
    }
    proof {
        assert(done =~= target);
    }
    out
}

/// Every position that `by_age` gives back is one of those it was handed.
proof fn lemma_by_age_from(cs: Seq<Comment>, s: Seq<usize>)
    ensures
        forall|k: int| 0 <= k < by_age(cs, s).len() ==> s.contains(#[trigger] by_age(cs, s)[k]),
    decreases s.len(),
{
    lemma_by_age_len(cs, s);
    if s.len() > 0 {
        let r = by_age(cs, s.drop_last());
        let x = s.last();
        lemma_by_age_from(cs, s.drop_last());
        lemma_by_age_len(cs, s.drop_last());
        let j = lemma_insert_shape(cs, r, x);
        assert forall|k: int| 0 <= k < by_age(cs, s).len() implies s.contains(
            #[trigger] by_age(cs, s)[k],
        ) by {
            let y = by_age(cs, s)[k];
            if k < j {
                assert(y == r[k]);
                let w = choose|w: int| 0 <= w < s.drop_last().len() && s.drop_last()[w] == r[k];
                assert(s[w] == y);
            } else if k == j {
                assert(y == x);
                assert(s[s.len() - 1] == y);
            } else {
                assert(y == r[k - 1]);
                let w = choose|w: int| 0 <= w < s.drop_last().len() && s.drop_last()[w] == r[k - 1];
                assert(s[w] == y);
            }
        }
    }
}

proof fn lemma_roots_below(cs: Seq<Comment>, n: int)
    requires
        n <= cs.len() <= usize::MAX,
    ensures
        forall|k: int|
            0 <= k < roots_below(cs, n).len() ==> (#[trigger] roots_below(cs, n)[k] as int) < n
                && is_root(cs, roots_below(cs, n)[k] as int),
    decreases n,
{
    if n > 0 {
        lemma_roots_below(cs, n - 1);
        let r = roots_below(cs, n);
        assert forall|k: int| 0 <= k < r.len() implies (#[trigger] r[k] as int) < n && is_root(cs, r[k] as int) by {
            if k < roots_below(cs, n - 1).len() {
                assert(r[k] == roots_below(cs, n - 1)[k]);
            }
        }
    }
}

proof fn lemma_replies_below(cs: Seq<Comment>, i: int, n: int)
    requires
        n <= cs.len() <= usize::MAX,
    ensures
        forall|k: int|
            0 <= k < replies_below(cs, i, n).len() ==> (#[trigger] replies_below(cs, i, n)[k] as int)
                < n && answers(cs, replies_below(cs, i, n)[k] as int, i),
    decreases n,
{
    if n > 0 {
        lemma_replies_below(cs, i, n - 1);
        let r = replies_below(cs, i, n);
        assert forall|k: int| 0 <= k < r.len() implies (#[trigger] r[k] as int) < n && answers(cs, r[k] as int, i) by {
            if k < replies_below(cs, i, n - 1).len() {
                assert(r[k] == replies_below(cs, i, n - 1)[k]);
            }
        }
    }
}

/// Whether some branch before the `k`-th of `r` is a remark that the `k`-th
/// answers, one level less deep, with only deeper branches between the two:
/// the nearest branch before the `k`-th that is less deep.
pub open spec fn follows_its_parent(cs: Seq<Comment>, r: Seq<(usize, usize)>, k: int) -> bool {
    exists|j: int|
        #![trigger r[j]]
        0 <= j < k && r[j].1 + 1 == r[k].1 && answers(cs, r[k].0 as int, r[j].0 as int)
            && deeper_between(r, j, k)
}

/// Whether every branch strictly between the `j`-th and the `k`-th of `r` is
/// deeper than the `j`-th.
pub open spec fn deeper_between(r: Seq<(usize, usize)>, j: int, k: int) -> bool {
    forall|m: int| j < m < k ==> #[trigger] r[m].1 > r[j].1
}

/// What holds of every branch of a run set at depth `d` from the remarks `l`.
spec fn threaded(cs: Seq<Comment>, r: Seq<(usize, usize)>, l: Seq<usize>, d: usize) -> bool {
    forall|k: int|
        #![trigger r[k]]
        0 <= k < r.len() ==> {
            &&& (r[k].0 as int) < cs.len()
            &&& r[k].1 >= d
            &&& (r[k].1 == d ==> l.contains(r[k].0))
            &&& (r[k].1 > d ==> follows_its_parent(cs, r, k))
        }
}

proof fn lemma_follows_shifted(cs: Seq<Comment>, a: Seq<(usize, usize)>, b: Seq<(usize, usize)>, k: int)
    requires
        0 <= k < b.len(),
        follows_its_parent(cs, b, k),
    ensures
        follows_its_parent(cs, a + b, a.len() + k),
{
    let j = choose|j: int|
        #![trigger b[j]]
        0 <= j < k && b[j].1 + 1 == b[k].1 && answers(cs, b[k].0 as int, b[j].0 as int)
            && deeper_between(b, j, k);
    let ab = a + b;
    assert(ab[a.len() + j] == b[j]);
    assert(ab[a.len() + k] == b[k]);
    assert forall|m: int| a.len() + j < m < a.len() + k implies #[trigger] ab[m].1 > ab[a.len() + j].1 by {
        assert(ab[m] == b[m - a.len()]);
    }
    assert(deeper_between(ab, a.len() + j, a.len() + k));
}

proof fn lemma_follows_kept(cs: Seq<Comment>, a: Seq<(usize, usize)>, b: Seq<(usize, usize)>, k: int)
    requires
        0 <= k < a.len(),
        follows_its_parent(cs, a, k),
    ensures
        follows_its_parent(cs, a + b, k),
{
    let j = choose|j: int|
        #![trigger a[j]]
        0 <= j < k && a[j].1 + 1 == a[k].1 && answers(cs, a[k].0 as int, a[j].0 as int)
            && deeper_between(a, j, k);
    let ab = a + b;
    assert(ab[j] == a[j]);
    assert(ab[k] == a[k]);
    assert forall|m: int| j < m < k implies #[trigger] ab[m].1 > ab[j].1 by {
        assert(ab[m] == a[m]);
    }
    assert(deeper_between(ab, j, k));
}

proof fn lemma_tree_threaded(cs: Seq<Comment>, i: usize, d: usize, fuel: nat)
    requires
        (i as int) < cs.len() <= usize::MAX,
        d + fuel <= usize::MAX,
    ensures
        threaded(cs, tree(cs, i, d, fuel), seq![i], d),
    decreases fuel, 0int, 0int,
{
    if fuel > 0 {
        let kids = replies(cs, i as int);
        let g = grove(cs, kids, (d + 1) as usize, (fuel - 1) as nat);
        let t = tree(cs, i, d, fuel);
        lemma_replies_below(cs, i as int, cs.len() as int);
        lemma_by_age_from(cs, replies_below(cs, i as int, cs.len() as int));
        assert forall|k: int| 0 <= k < kids.len() implies (#[trigger] kids[k] as int) < cs.len()
            && answers(cs, kids[k] as int, i as int) by {
            let rb = replies_below(cs, i as int, cs.len() as int);
            assert(rb.contains(kids[k]));
            let w = choose|w: int| 0 <= w < rb.len() && rb[w] == kids[k];
            assert(rb[w] == rb[w]);
        }
        lemma_grove_threaded(cs, kids, (d + 1) as usize, (fuel - 1) as nat);
        assert(t == seq![(i, d)] + g);
        assert forall|k: int| 0 <= k < t.len() implies {
            &&& (#[trigger] t[k].0 as int) < cs.len()
            &&& t[k].1 >= d
            &&& (t[k].1 == d ==> seq![i].contains(t[k].0))
            &&& (t[k].1 > d ==> follows_its_parent(cs, t, k))
        } by {
            if k == 0 {
                assert(t[0] == (i, d));
                assert(seq![i][0] == i);
            } else {
                let k2 = k - 1;
                assert(t[k] == g[k2]);
                if g[k2].1 == d + 1 {
                    assert(kids.contains(g[k2].0));
                    let w = choose|w: int| 0 <= w < kids.len() && kids[w] == g[k2].0;
                    assert(answers(cs, kids[w] as int, i as int));
                    assert(t[0] == (i, d));
                    assert forall|m: int| 0 < m < k implies #[trigger] t[m].1 > t[0].1 by {
                        assert(t[m] == g[m - 1]);
                    }
                    assert(deeper_between(t, 0, k));
                    assert(follows_its_parent(cs, t, k));
                } else {
                    assert(follows_its_parent(cs, g, k2));
                    lemma_follows_shifted(cs, seq![(i, d)], g, k2);
                }
            }
        }
    }
}

proof fn lemma_grove_threaded(cs: Seq<Comment>, l: Seq<usize>, d: usize, fuel: nat)
    requires
        forall|k: int| 0 <= k < l.len() ==> (#[trigger] l[k] as int) < cs.len(),
        cs.len() <= usize::MAX,
        d + fuel <= usize::MAX,
    ensures
        threaded(cs, grove(cs, l, d, fuel), l, d),
    decreases fuel, 1int, l.len(),
{
    if l.len() > 0 {
        let t = tree(cs, l[0], d, fuel);
        let rest = grove(cs, l.drop_first(), d, fuel);
        let r = grove(cs, l, d, fuel);
        lemma_tree_threaded(cs, l[0], d, fuel);
        lemma_grove_threaded(cs, l.drop_first(), d, fuel);
        assert(r == t + rest);
        assert forall|k: int| 0 <= k < r.len() implies {
            &&& (#[trigger] r[k].0 as int) < cs.len()
            &&& r[k].1 >= d
            &&& (r[k].1 == d ==> l.contains(r[k].0))
            &&& (r[k].1 > d ==> follows_its_parent(cs, r, k))
        } by {
            if k < t.len() {
                assert(r[k] == t[k]);
                if r[k].1 == d {
                    assert(seq![l[0]].contains(t[k].0));
                    assert(t[k].0 == l[0]);
                } else {
                    assert(follows_its_parent(cs, t, k));
                    lemma_follows_kept(cs, t, rest, k);
                }
            } else {
                let k2 = k - t.len();
                assert(r[k] == rest[k2]);
                if r[k].1 == d {
                    assert(l.drop_first().contains(rest[k2].0));
                    let w = choose|w: int| 0 <= w < l.drop_first().len() && l.drop_first()[w] == rest[k2].0;
                    assert(l[w + 1] == rest[k2].0);
                } else {
                    assert(follows_its_parent(cs, rest, k2));
                    lemma_follows_shifted(cs, t, rest, k2);
                }
            }
        }
    }
}

/// Whether any two branches of `r` at one depth with only deeper branches
/// between them, that is two remarks answering the same remark or two remarks
/// starting threads, stand oldest first.
pub open spec fn siblings_oldest_first(cs: Seq<Comment>, r: Seq<(usize, usize)>) -> bool {
    forall|a: int, b: int|
        #![trigger r[a], r[b]]
        0 <= a < b < r.len() && r[a].1 == r[b].1 && deeper_between(r, a, b) ==> not_after(
            cs[r[a].0 as int],
            cs[r[b].0 as int],
        )
}

proof fn lemma_tree_shape(cs: Seq<Comment>, i: usize, d: usize, fuel: nat)
    requires
        (i as int) < cs.len() <= usize::MAX,
        d + fuel <= usize::MAX,
        fuel > 0,
    ensures
        tree(cs, i, d, fuel).len() > 0,
        tree(cs, i, d, fuel)[0] == (i, d),
        forall|k: int| 0 < k < tree(cs, i, d, fuel).len() ==> #[trigger] tree(cs, i, d, fuel)[k].1 > d,
{
    let kids = replies(cs, i as int);
    let g = grove(cs, kids, (d + 1) as usize, (fuel - 1) as nat);
    let t = tree(cs, i, d, fuel);
    lemma_replies_below(cs, i as int, cs.len() as int);
    lemma_by_age_from(cs, replies_below(cs, i as int, cs.len() as int));
    assert forall|k: int| 0 <= k < kids.len() implies (#[trigger] kids[k] as int) < cs.len() by {
        let rb = replies_below(cs, i as int, cs.len() as int);
        assert(rb.contains(kids[k]));
        let w = choose|w: int| 0 <= w < rb.len() && rb[w] == kids[k];
        assert(rb[w] == rb[w]);
    }
    lemma_grove_threaded(cs, kids, (d + 1) as usize, (fuel - 1) as nat);
    assert(t == seq![(i, d)] + g);
    assert forall|k: int| 0 < k < t.len() implies #[trigger] t[k].1 > d by {
        assert(t[k] == g[k - 1]);
    }
}

proof fn lemma_tree_siblings(cs: Seq<Comment>, i: usize, d: usize, fuel: nat)
    requires
        (i as int) < cs.len() <= usize::MAX,
        d + fuel <= usize::MAX,
    ensures
        siblings_oldest_first(cs, tree(cs, i, d, fuel)),
    decreases fuel, 0int, 0int,
{
    if fuel > 0 {
        let kids = replies(cs, i as int);
        let g = grove(cs, kids, (d + 1) as usize, (fuel - 1) as nat);
        let t = tree(cs, i, d, fuel);
        lemma_tree_shape(cs, i, d, fuel);
        lemma_replies_below(cs, i as int, cs.len() as int);
        lemma_by_age_from(cs, replies_below(cs, i as int, cs.len() as int));
        assert forall|k: int| 0 <= k < kids.len() implies (#[trigger] kids[k] as int) < cs.len() by {
            let rb = replies_below(cs, i as int, cs.len() as int);
            assert(rb.contains(kids[k]));
            let w = choose|w: int| 0 <= w < rb.len() && rb[w] == kids[k];
            assert(rb[w] == rb[w]);
        }
        by_age_is_oldest_first(cs, replies_below(cs, i as int, cs.len() as int));
        lemma_grove_siblings(cs, kids, (d + 1) as usize, (fuel - 1) as nat);
        assert(t == seq![(i, d)] + g);
        assert forall|a: int, b: int|
            #![trigger t[a], t[b]]
            0 <= a < b < t.len() && t[a].1 == t[b].1 && deeper_between(t, a, b) implies not_after(
                cs[t[a].0 as int],
                cs[t[b].0 as int],
            ) by {
            if a > 0 {
                assert(t[a] == g[a - 1] && t[b] == g[b - 1]);
                assert forall|m: int| a - 1 < m < b - 1 implies #[trigger] g[m].1 > g[a - 1].1 by {
                    assert(t[m + 1] == g[m]);
                }
            }
        }
    }
}

proof fn lemma_grove_siblings(cs: Seq<Comment>, l: Seq<usize>, d: usize, fuel: nat)
    requires
        forall|k: int| 0 <= k < l.len() ==> (#[trigger] l[k] as int) < cs.len(),
        cs.len() <= usize::MAX,
        d + fuel <= usize::MAX,
        oldest_first(cs, l),
    ensures
        siblings_oldest_first(cs, grove(cs, l, d, fuel)),
    decreases fuel, 1int, l.len(),
{
    if l.len() > 0 {
        let t = tree(cs, l[0], d, fuel);
        let lr = l.drop_first();
        let rest = grove(cs, lr, d, fuel);
        let r = grove(cs, l, d, fuel);
        assert(r == t + rest);
        lemma_tree_siblings(cs, l[0], d, fuel);
        assert forall|i: int, j: int| 0 <= i < j < lr.len() implies not_after(cs[lr[i] as int], cs[lr[j] as int]) by {
            assert(lr[i] == l[i + 1] && lr[j] == l[j + 1]);
        }
        lemma_grove_siblings(cs, lr, d, fuel);
        if fuel > 0 {
            lemma_tree_shape(cs, l[0], d, fuel);
            if lr.len() > 0 {
                lemma_tree_shape(cs, lr[0], d, fuel);
                assert(rest == tree(cs, lr[0], d, fuel) + grove(cs, lr.drop_first(), d, fuel));
                assert(rest[0] == (lr[0], d));
            }
        }
        assert forall|a: int, b: int|
            #![trigger r[a], r[b]]
            0 <= a < b < r.len() && r[a].1 == r[b].1 && deeper_between(r, a, b) implies not_after(
                cs[r[a].0 as int],
                cs[r[b].0 as int],
            ) by {
            if b < t.len() {
                assert(r[a] == t[a] && r[b] == t[b]);
                assert forall|m: int| a < m < b implies #[trigger] t[m].1 > t[a].1 by {
                    assert(r[m] == t[m]);
                }
            } else if a >= t.len() {
                let (a2, b2) = (a - t.len(), b - t.len());
                assert(r[a] == rest[a2] && r[b] == rest[b2]);
                assert forall|m: int| a2 < m < b2 implies #[trigger] rest[m].1 > rest[a2].1 by {
                    assert(r[m + t.len()] == rest[m]);
                }
            } else {
                let tl = t.len() as int;
                assert(r[tl] == rest[0]);
                assert(rest[0] == (lr[0], d));
                if a > 0 {
                    assert(r[a] == t[a]);
                    assert(t[a].1 > d);
                    if b > tl {
                        assert(r[tl].1 > r[a].1);
                    }
                } else {
                    assert(r[0] == t[0]);
                    if b > tl {
                        assert(r[tl].1 > r[a].1);
                    }
                    assert(b == tl);
                    assert(lr[0] == l[1]);
                }
            }
        }
    }
}

/// Remarks that answer the same remark, and remarks that start threads,
/// stand in the thread from the oldest to the youngest.
pub proof fn siblings_stand_oldest_first(cs: Seq<Comment>)
    requires
        cs.len() <= usize::MAX,
    ensures
        siblings_oldest_first(cs, thread_spec(cs)),
{
    let rb = roots_below(cs, cs.len() as int);
    lemma_roots_below(cs, cs.len() as int);
    lemma_by_age_from(cs, rb);
    let top = roots(cs);
    assert forall|k: int| 0 <= k < top.len() implies (#[trigger] top[k] as int) < cs.len() by {
        assert(rb.contains(top[k]));
        let w = choose|w: int| 0 <= w < rb.len() && rb[w] == top[k];
        assert(rb[w] == rb[w]);
    }
    by_age_is_oldest_first(cs, rb);
    lemma_grove_siblings(cs, top, 0, cs.len());
}

/// Every branch of a thread is one of the given remarks. A branch is at the top
/// exactly when its remark starts a thread, and every branch deeper down comes
/// after a branch, one level less deep, of the remark it answers.
pub proof fn replies_follow_what_they_answer(cs: Seq<Comment>)
    requires
        cs.len() <= usize::MAX,
    ensures
        forall|k: int|
            #![trigger thread_spec(cs)[k]]
            0 <= k < thread_spec(cs).len() ==> {
                &&& (thread_spec(cs)[k].0 as int) < cs.len()
                &&& (thread_spec(cs)[k].1 == 0 <==> is_root(cs, thread_spec(cs)[k].0 as int))
                &&& (thread_spec(cs)[k].1 > 0 ==> follows_its_parent(cs, thread_spec(cs), k))
            },
{
    let top = roots(cs);
    let rb = roots_below(cs, cs.len() as int);
    lemma_roots_below(cs, cs.len() as int);
    lemma_by_age_from(cs, rb);
    assert forall|k: int| 0 <= k < top.len() implies (#[trigger] top[k] as int) < cs.len()
        && is_root(cs, top[k] as int) by {
        assert(rb.contains(top[k]));
        let w = choose|w: int| 0 <= w < rb.len() && rb[w] == top[k];
        assert(rb[w] == rb[w]);
    }
    lemma_grove_threaded(cs, top, 0, cs.len());
    let r = thread_spec(cs);
    assert forall|k: int| 0 <= k < r.len() implies {
        &&& (#[trigger] r[k].0 as int) < cs.len()
        &&& (r[k].1 == 0 <==> is_root(cs, r[k].0 as int))
        &&& (r[k].1 > 0 ==> follows_its_parent(cs, r, k))
    } by {
        if r[k].1 == 0 {
            let w = choose|w: int| 0 <= w < top.len() && top[w] == r[k].0;
            assert(is_root(cs, top[w] as int));
        } else {
            let j = choose|j: int|
                #![trigger r[j]]
                0 <= j < k && r[j].1 + 1 == r[k].1 && answers(cs, r[k].0 as int, r[j].0 as int);
            assert((r[j].0 as int) < cs.len());
            let p = cs[r[k].0 as int].parent_id->0;
            assert(cs[r[j].0 as int].id@ == p@);
            assert(known(cs, p@));
        }
    }
}

proof fn lemma_by_age_keeps(cs: Seq<Comment>, s: Seq<usize>, x: usize)
    requires
        s.contains(x),
    ensures
        by_age(cs, s).contains(x),
    decreases s.len(),
{
    let r = by_age(cs, s.drop_last());
    let last = s.last();
    let j = lemma_insert_shape(cs, r, last);
    let out = r.insert(j, last);
    assert(by_age(cs, s) == out);
    if x == last {
        assert(out[j] == x);
    } else {
        let w = choose|w: int| 0 <= w < s.len() && s[w] == x;
        assert(w < s.len() - 1);
        assert(s.drop_last()[w] == x);
        lemma_by_age_keeps(cs, s.drop_last(), x);
        let v = choose|v: int| 0 <= v < r.len() && r[v] == x;
        if v < j {
            assert(out[v] == x);
        } else {
            assert(out[v + 1] == x);
        }
    }
}

proof fn lemma_roots_below_has(cs: Seq<Comment>, n: int, i: int)
    requires
        0 <= i < n <= cs.len() <= usize::MAX,
        is_root(cs, i),
    ensures
        roots_below(cs, n).contains(i as usize),
    decreases n,
{
    let before = roots_below(cs, n - 1);
    if i < n - 1 {
        lemma_roots_below_has(cs, n - 1, i);
        let w = choose|w: int| 0 <= w < before.len() && before[w] == i as usize;
        if is_root(cs, n - 1) {
            assert(before.push((n - 1) as usize)[w] == i as usize);
        }
    } else {
        assert(before.push((n - 1) as usize)[before.len() as int] == i as usize);
    }
}

proof fn lemma_replies_below_has(cs: Seq<Comment>, i: int, n: int, k: int)
    requires
        0 <= k < n <= cs.len() <= usize::MAX,
        answers(cs, k, i),
    ensures
        replies_below(cs, i, n).contains(k as usize),
    decreases n,
{
    let before = replies_below(cs, i, n - 1);
    if k < n - 1 {
        lemma_replies_below_has(cs, i, n - 1, k);
        let w = choose|w: int| 0 <= w < before.len() && before[w] == k as usize;
        if answers(cs, n - 1, i) {
            assert(before.push((n - 1) as usize)[w] == k as usize);
        }
    } else {
        assert(before.push((n - 1) as usize)[before.len() as int] == k as usize);
    }
}

proof fn lemma_tree_in_grove(
    cs: Seq<Comment>,
    l: Seq<usize>,
    d: usize,
    fuel: nat,
    k: int,
    y: (usize, usize),
)
    requires
        0 <= k < l.len(),
        tree(cs, l[k], d, fuel).contains(y),
    ensures
        grove(cs, l, d, fuel).contains(y),
    decreases l.len(),
{
    let t = tree(cs, l[0], d, fuel);
    let rest = grove(cs, l.drop_first(), d, fuel);
    assert(grove(cs, l, d, fuel) == t + rest);
    if k == 0 {
        let w = choose|w: int| 0 <= w < t.len() && t[w] == y;
        assert((t + rest)[w] == y);
    } else {
        assert(l.drop_first()[k - 1] == l[k]);
        lemma_tree_in_grove(cs, l.drop_first(), d, fuel, k - 1, y);
        let w = choose|w: int| 0 <= w < rest.len() && rest[w] == y;
        assert((t + rest)[t.len() + w] == y);
    }
}

proof fn lemma_grove_from_tree(cs: Seq<Comment>, l: Seq<usize>, d: usize, fuel: nat, y: (usize, usize)) -> (k: int)
    requires
        grove(cs, l, d, fuel).contains(y),
    ensures
        0 <= k < l.len(),
        tree(cs, l[k], d, fuel).contains(y),
    decreases l.len(),
{
    let t = tree(cs, l[0], d, fuel);
    let rest = grove(cs, l.drop_first(), d, fuel);
    assert(grove(cs, l, d, fuel) == t + rest);
    let w = choose|w: int| 0 <= w < (t + rest).len() && (t + rest)[w] == y;
    if w < t.len() {
        assert(t[w] == y);
        0
    } else {
        assert(rest[w - t.len()] == y);
        let k = lemma_grove_from_tree(cs, l.drop_first(), d, fuel, y);
        assert(l.drop_first()[k] == l[k + 1]);
        k + 1
    }
}

/// Below a branch of a tree, within the levels its fuel sets, stand the
/// branches of every answer to it, one level deeper.
proof fn lemma_tree_closed(
    cs: Seq<Comment>,
    x: usize,
    d: usize,
    fuel: nat,
    y: usize,
    e: usize,
    c: usize,
)
    requires
        tree(cs, x, d, fuel).contains((y, e)),
        e - d + 1 < fuel,
        d + fuel <= usize::MAX,
        replies(cs, y as int).contains(c),
    ensures
        tree(cs, x, d, fuel).contains((c, (e + 1) as usize)),
    decreases fuel,
{
    let kids = replies(cs, x as int);
    let d1 = (d + 1) as usize;
    let f1 = (fuel - 1) as nat;
    let g = grove(cs, kids, d1, f1);
    let t = tree(cs, x, d, fuel);
    assert(t == seq![(x, d)] + g);
    let idx = choose|idx: int| 0 <= idx < t.len() && t[idx] == (y, e);
    if idx == 0 {
        assert(y == x && e == d);
        let kc = choose|kc: int| 0 <= kc < kids.len() && kids[kc] == c;
        assert(tree(cs, kids[kc], d1, f1)[0] == (c, d1));
        lemma_tree_in_grove(cs, kids, d1, f1, kc, (c, d1));
        let w = choose|w: int| 0 <= w < g.len() && g[w] == (c, d1);
        assert(t[w + 1] == (c, d1));
    } else {
        assert(g[idx - 1] == (y, e));
        let k = lemma_grove_from_tree(cs, kids, d1, f1, (y, e));
        lemma_tree_closed(cs, kids[k], d1, f1, y, e, c);
        lemma_tree_in_grove(cs, kids, d1, f1, k, (c, (e + 1) as usize));
        let w = choose|w: int| 0 <= w < g.len() && g[w] == (c, (e + 1) as usize);
        assert(t[w + 1] == (c, (e + 1) as usize));
    }
}

/// Whether `rank` shows that no chain of answers among the remarks loops:
/// every remark ranks above the remark it answers, and no rank reaches the
/// number of remarks.
pub open spec fn ranks_answers(cs: Seq<Comment>, rank: spec_fn(int) -> nat) -> bool {
    &&& forall|k: int, i: int|
        0 <= k < cs.len() && 0 <= i < cs.len() && #[trigger] answers(cs, k, i) ==> rank(i) < rank(k)
    &&& forall|i: int| 0 <= i < cs.len() ==> #[trigger] rank(i) < cs.len()
}

proof fn lemma_depth_below_rank(cs: Seq<Comment>, rank: spec_fn(int) -> nat, k: int)
    requires
        cs.len() <= usize::MAX,
        ranks_answers(cs, rank),
        0 <= k < thread_spec(cs).len(),
    ensures
        thread_spec(cs)[k].1 <= rank(thread_spec(cs)[k].0 as int),
    decreases k,
{
    let r = thread_spec(cs);
    replies_follow_what_they_answer(cs);
    assert((r[k].0 as int) < cs.len());
    if r[k].1 > 0 {
        assert(follows_its_parent(cs, r, k));
        let j = choose|j: int|
            #![trigger r[j]]
            0 <= j < k && r[j].1 + 1 == r[k].1 && answers(cs, r[k].0 as int, r[j].0 as int);
        assert((r[j].0 as int) < cs.len());
        lemma_depth_below_rank(cs, rank, j);
    }
}

proof fn lemma_remark_placed(cs: Seq<Comment>, rank: spec_fn(int) -> nat, i: int) -> (found: (int, usize))
    requires
        cs.len() <= usize::MAX,
        ranks_answers(cs, rank),
        0 <= i < cs.len(),
    ensures
        0 <= found.0 < roots(cs).len(),
        tree(cs, roots(cs)[found.0], 0, cs.len()).contains((i as usize, found.1)),
    decreases rank(i),
{
    let n = cs.len();
    let top = roots(cs);
    if is_root(cs, i) {
        lemma_roots_below_has(cs, n as int, i);
        lemma_by_age_keeps(cs, roots_below(cs, n as int), i as usize);
        let k = choose|k: int| 0 <= k < top.len() && top[k] == i as usize;
        assert(tree(cs, top[k], 0, n)[0] == (i as usize, 0usize));
        (k, 0usize)
    } else {
        let q = cs[i].parent_id->0;
        let p = choose|p: int| 0 <= p < cs.len() && #[trigger] cs[p].id@ == q@;
        assert(answers(cs, i, p));
        assert(rank(p) < rank(i));
        let (kp, ep) = lemma_remark_placed(cs, rank, p);
        lemma_tree_in_grove(cs, top, 0, n, kp, (p as usize, ep));
        let r = thread_spec(cs);
        let w = choose|w: int| 0 <= w < r.len() && r[w] == (p as usize, ep);
        lemma_depth_below_rank(cs, rank, w);
        assert(rank(i) < n);
        lemma_replies_below_has(cs, p, n as int, i);
        lemma_by_age_keeps(cs, replies_below(cs, p, n as int), i as usize);
        lemma_tree_closed(cs, top[kp], 0, n, p as usize, ep, i as usize);
        (kp, (ep + 1) as usize)
    }
}

/// Whether remark `i` stands at some place in the thread of `cs`.
pub open spec fn in_thread(cs: Seq<Comment>, i: int) -> bool {
    exists|k: int| 0 <= k < thread_spec(cs).len() && #[trigger] thread_spec(cs)[k].0 == i as usize
}

/// When no chain of answers loops back on itself, the thread holds every
/// remark: each one stands at some place in it.
pub proof fn every_remark_is_in_the_thread(cs: Seq<Comment>, rank: spec_fn(int) -> nat)
    requires
        cs.len() <= usize::MAX,
        ranks_answers(cs, rank),
    ensures
        forall|i: int| 0 <= i < cs.len() ==> #[trigger] in_thread(cs, i),
{
    assert forall|i: int| 0 <= i < cs.len() implies #[trigger] in_thread(cs, i) by {
        let (kr, e) = lemma_remark_placed(cs, rank, i);
        lemma_tree_in_grove(cs, roots(cs), 0, cs.len(), kr, (i as usize, e));
        let r = thread_spec(cs);
        let w = choose|w: int| 0 <= w < r.len() && r[w] == (i as usize, e);
        assert(r[w].0 == i as usize);
    }
}

/// Whether no position occurs twice in `s`.
spec fn all_different(s: Seq<usize>) -> bool {
    forall|a: int, b: int| #![trigger s[a], s[b]] 0 <= a < b < s.len() ==> s[a] != s[b]
}

/// Whether no two remarks share an identifier.
pub open spec fn distinct_ids(cs: Seq<Comment>) -> bool {
    forall|a: int, b: int| 0 <= a < b < cs.len() ==> cs[a].id@ != cs[b].id@
}

/// How many branches of `r` set remark `x`.
pub open spec fn times(r: Seq<(usize, usize)>, x: usize) -> nat
    decreases r.len(),
{
    if r.len() == 0 {
        0
    } else {
        times(r.drop_last(), x) + if r.last().0 == x { 1nat } else { 0nat }
    }
}

/// Whether some branch of `r` sets remark `x`.
spec fn has(r: Seq<(usize, usize)>, x: usize) -> bool {
    exists|k: int| 0 <= k < r.len() && #[trigger] r[k].0 == x
}

proof fn lemma_times_has(r: Seq<(usize, usize)>, x: usize)
    ensures
        times(r, x) > 0 <==> has(r, x),
    decreases r.len(),
{
    if r.len() > 0 {
        lemma_times_has(r.drop_last(), x);
        if has(r.drop_last(), x) {
            let k = choose|k: int| 0 <= k < r.drop_last().len() && #[trigger] r.drop_last()[k].0 == x;
            assert(r[k].0 == x);
        }
        if has(r, x) && r.last().0 != x {
            let k = choose|k: int| 0 <= k < r.len() && #[trigger] r[k].0 == x;
            assert(k < r.len() - 1);
            assert(r.drop_last()[k].0 == x);
        }
        if r.last().0 == x {
            assert(r[r.len() - 1].0 == x);
        }
    }
}

proof fn lemma_times_add(a: Seq<(usize, usize)>, b: Seq<(usize, usize)>, x: usize)
    ensures
        times(a + b, x) == times(a, x) + times(b, x),
    decreases b.len(),
{
    if b.len() == 0 {
        assert(a + b =~= a);
    } else {
        lemma_times_add(a, b.drop_last(), x);
        assert((a + b).drop_last() =~= a + b.drop_last());
        assert((a + b).last() == b.last());
    }
}

/// The remark that remark `x` answers, when there is one.
spec fn parent_of(cs: Seq<Comment>, x: int) -> int {
    choose|p: int| 0 <= p < cs.len() && answers(cs, x, p)
}

/// The remark reached from `x` by going `m` times to the remark answered.
spec fn up(cs: Seq<Comment>, x: int, m: nat) -> int
    decreases m,
{
    if m == 0 {
        x
    } else {
        parent_of(cs, up(cs, x, (m - 1) as nat))
    }
}

/// Whether each of the first `m` steps up from `x` goes from a remark to the remark it answers.
spec fn climbs(cs: Seq<Comment>, x: int, m: nat) -> bool {
    forall|j: int|
        0 <= j < m ==> 0 <= #[trigger] up(cs, x, j as nat) < cs.len() && 0 <= up(cs, x, (j + 1) as nat)
            < cs.len() && answers(cs, up(cs, x, j as nat), up(cs, x, (j + 1) as nat))
}

proof fn lemma_parent_unique(cs: Seq<Comment>, k: int, p: int)
    requires
        distinct_ids(cs),
        0 <= p < cs.len(),
        answers(cs, k, p),
    ensures
        parent_of(cs, k) == p,
{
    let q = parent_of(cs, k);
    assert(0 <= q < cs.len() && answers(cs, k, q));
    if q != p {
        if q < p {
            assert(cs[q].id@ != cs[p].id@);
        } else {
            assert(cs[p].id@ != cs[q].id@);
        }
    }
}

proof fn lemma_climb_rank(cs: Seq<Comment>, rank: spec_fn(int) -> nat, x: int, a: nat, b: nat, m: nat)
    requires
        ranks_answers(cs, rank),
        a < b <= m,
        climbs(cs, x, m),
    ensures
        rank(up(cs, x, b)) < rank(up(cs, x, a)),
    decreases b,
{
    let j = (b - 1) as int;
    assert(0 <= up(cs, x, j as nat) < cs.len());
    assert(up(cs, x, (j + 1) as nat) == up(cs, x, b));
    assert(answers(cs, up(cs, x, j as nat), up(cs, x, b)));
    if a < b - 1 {
        lemma_climb_rank(cs, rank, x, a, (b - 1) as nat, m);
    }
}

proof fn lemma_climbs_extend(cs: Seq<Comment>, x: int, m: nat, p: int)
    requires
        climbs(cs, x, m),
        0 <= up(cs, x, m) < cs.len(),
        0 <= p < cs.len(),
        answers(cs, up(cs, x, m), p),
        parent_of(cs, up(cs, x, m)) == p,
    ensures
        climbs(cs, x, m + 1),
        up(cs, x, m + 1) == p,
{
    assert(up(cs, x, m + 1) == parent_of(cs, up(cs, x, m)));
    assert forall|j: int| 0 <= j < m + 1 implies 0 <= #[trigger] up(cs, x, j as nat) < cs.len() && 0 <= up(
        cs,
        x,
        (j + 1) as nat,
    ) < cs.len() && answers(cs, up(cs, x, j as nat), up(cs, x, (j + 1) as nat)) by {
        if j < m {
            assert(0 <= up(cs, x, j as nat) < cs.len());
        }
    }
}

/// A branch below remark `k` in its tree is reached from its own remark by
/// climbing, one step per level, up to `k`.
proof fn lemma_tree_climbs(cs: Seq<Comment>, k: usize, d: usize, fuel: nat, x: usize, e: usize)
    requires
        distinct_ids(cs),
        (k as int) < cs.len() <= usize::MAX,
        d + fuel <= usize::MAX,
        tree(cs, k, d, fuel).contains((x, e)),
    ensures
        e >= d,
        up(cs, x as int, (e - d) as nat) == k as int,
        climbs(cs, x as int, (e - d) as nat),
    decreases fuel,
{
    let kids = replies(cs, k as int);
    let d1 = (d + 1) as usize;
    let f1 = (fuel - 1) as nat;
    let g = grove(cs, kids, d1, f1);
    let t = tree(cs, k, d, fuel);
    assert(t == seq![(k, d)] + g);
    let idx = choose|idx: int| 0 <= idx < t.len() && t[idx] == (x, e);
    if idx == 0 {
        assert(x == k && e == d);
        assert(up(cs, x as int, 0) == x as int);
    } else {
        assert(g[idx - 1] == (x, e));
        assert(g.contains((x, e)));
        let m = lemma_grove_from_tree(cs, kids, d1, f1, (x, e));
        let kid = kids[m];
        lemma_replies_below(cs, k as int, cs.len() as int);
        lemma_by_age_from(cs, replies_below(cs, k as int, cs.len() as int));
        let rb = replies_below(cs, k as int, cs.len() as int);
        assert(rb.contains(kid));
        let w = choose|w: int| 0 <= w < rb.len() && rb[w] == kid;
        assert((rb[w] as int) < cs.len() && answers(cs, rb[w] as int, k as int));
        lemma_tree_climbs(cs, kid, d1, f1, x, e);
        let m1 = (e - d1) as nat;
        lemma_parent_unique(cs, kid as int, k as int);
        lemma_climbs_extend(cs, x as int, m1, k as int);
        assert((e - d) as nat == m1 + 1);
    }
}

proof fn lemma_no_dup_below(cs: Seq<Comment>, i: int, n: int)
    requires
        n <= cs.len() <= usize::MAX,
    ensures
        all_different(roots_below(cs, n)),
        all_different(replies_below(cs, i, n)),
    decreases n,
{
    if n > 0 {
        lemma_no_dup_below(cs, i, n - 1);
        lemma_roots_below(cs, n - 1);
        lemma_replies_below(cs, i, n - 1);
        let a = roots_below(cs, n - 1);
        let b = replies_below(cs, i, n - 1);
        let ap = a.push((n - 1) as usize);
        let bp = b.push((n - 1) as usize);
        assert forall|x: int, y: int| #![trigger ap[x], ap[y]] 0 <= x < y < ap.len() implies ap[x] != ap[y] by {
            if y == a.len() {
                assert((a[x] as int) < n - 1);
            } else {
                assert(ap[x] == a[x] && ap[y] == a[y]);
            }
        }
        assert forall|x: int, y: int| #![trigger bp[x], bp[y]] 0 <= x < y < bp.len() implies bp[x] != bp[y] by {
            if y == b.len() {
                assert((b[x] as int) < n - 1);
            } else {
                assert(bp[x] == b[x] && bp[y] == b[y]);
            }
        }
    }
}

proof fn lemma_by_age_no_dup(cs: Seq<Comment>, s: Seq<usize>)
    requires
        all_different(s),
    ensures
        all_different(by_age(cs, s)),
    decreases s.len(),
{
    if s.len() > 0 {
        let rest = s.drop_last();
        assert forall|x: int, y: int| #![trigger rest[x], rest[y]] 0 <= x < y < rest.len() implies rest[x] != rest[y] by {
            assert(rest[x] == s[x] && rest[y] == s[y]);
        }
        lemma_by_age_no_dup(cs, rest);
        let r = by_age(cs, rest);
        let last = s.last();
        lemma_by_age_from(cs, rest);
        let j = lemma_insert_shape(cs, r, last);
        let out = r.insert(j, last);
        assert forall|k: int| 0 <= k < r.len() implies r[k] != last by {
            assert(rest.contains(r[k]));
            let w = choose|w: int| 0 <= w < rest.len() && rest[w] == r[k];
            assert(s[w] == r[k] && s[s.len() - 1] == last);
        }
        assert forall|x: int, y: int| #![trigger out[x], out[y]] 0 <= x < y < out.len() implies out[x] != out[y] by {
            if x < j && y < j {
                assert(out[x] == r[x] && out[y] == r[y]);
            } else if x < j && y == j {
                assert(out[x] == r[x]);
            } else if x < j {
                assert(out[x] == r[x] && out[y] == r[y - 1]);
            } else if x == j {
                assert(out[y] == r[y - 1]);
            } else {
                assert(out[x] == r[x - 1] && out[y] == r[y - 1]);
            }
        }
    }
}

/// A grove holds a remark at most once when its trees each do and no two of
/// them hold it.
proof fn lemma_grove_once(cs: Seq<Comment>, l: Seq<usize>, d: usize, fuel: nat, x: usize)
    requires
        forall|m: int| 0 <= m < l.len() ==> times(#[trigger] tree(cs, l[m], d, fuel), x) <= 1,
        forall|a: int, b: int|
            0 <= a < b < l.len() ==> !(has(#[trigger] tree(cs, l[a], d, fuel), x) && has(
                #[trigger] tree(cs, l[b], d, fuel),
                x,
            )),
    ensures
        times(grove(cs, l, d, fuel), x) <= 1,
    decreases l.len(),
{
    if l.len() > 0 {
        let t = tree(cs, l[0], d, fuel);
        let rest = grove(cs, l.drop_first(), d, fuel);
        assert(grove(cs, l, d, fuel) == t + rest);
        lemma_times_add(t, rest, x);
        assert forall|m: int| 0 <= m < l.drop_first().len() implies times(
            #[trigger] tree(cs, l.drop_first()[m], d, fuel),
            x,
        ) <= 1 by {
            assert(l.drop_first()[m] == l[m + 1]);
        }
        assert forall|a: int, b: int| 0 <= a < b < l.drop_first().len() implies !(has(
            #[trigger] tree(cs, l.drop_first()[a], d, fuel),
            x,
        ) && has(#[trigger] tree(cs, l.drop_first()[b], d, fuel), x)) by {
            assert(l.drop_first()[a] == l[a + 1] && l.drop_first()[b] == l[b + 1]);
        }
        lemma_grove_once(cs, l.drop_first(), d, fuel, x);
        assert(times(t, x) <= 1);
        lemma_times_has(t, x);
        lemma_times_has(rest, x);
        if times(t, x) == 1 && times(rest, x) > 0 {
            let k = choose|k: int| 0 <= k < rest.len() && #[trigger] rest[k].0 == x;
            assert(rest.contains(rest[k]));
            let m = lemma_grove_from_tree(cs, l.drop_first(), d, fuel, rest[k]);
            let tm = tree(cs, l.drop_first()[m], d, fuel);
            let w = choose|w: int| 0 <= w < tm.len() && tm[w] == rest[k];
            assert(tm[w].0 == x);
            assert(l.drop_first()[m] == l[m + 1]);
            assert(has(tree(cs, l[m + 1], d, fuel), x));
            assert(has(tree(cs, l[0], d, fuel), x));
        }
    }
}

/// The tree of a remark holds any remark at most once, when identifiers are
/// distinct and no chain of answers loops.
proof fn lemma_tree_once(
    cs: Seq<Comment>,
    rank: spec_fn(int) -> nat,
    y: usize,
    d: usize,
    fuel: nat,
    x: usize,
)
    requires
        distinct_ids(cs),
        ranks_answers(cs, rank),
        (y as int) < cs.len() <= usize::MAX,
        d + fuel <= usize::MAX,
    ensures
        times(tree(cs, y, d, fuel), x) <= 1,
    decreases fuel,
{
    if fuel > 0 {
        let kids = replies(cs, y as int);
        let d1 = (d + 1) as usize;
        let f1 = (fuel - 1) as nat;
        let g = grove(cs, kids, d1, f1);
        let t = tree(cs, y, d, fuel);
        assert(t == seq![(y, d)] + g);
        lemma_times_add(seq![(y, d)], g, x);
        assert(seq![(y, d)].drop_last() =~= Seq::<(usize, usize)>::empty());
        assert(times(Seq::<(usize, usize)>::empty(), x) == 0);
        assert(times(seq![(y, d)], x) == if y == x { 1nat } else { 0nat });
        let rb = replies_below(cs, y as int, cs.len() as int);
        lemma_replies_below(cs, y as int, cs.len() as int);
        lemma_by_age_from(cs, rb);
        assert forall|m: int| 0 <= m < kids.len() implies (#[trigger] kids[m] as int) < cs.len() && answers(
            cs,
            kids[m] as int,
            y as int,
        ) by {
            assert(rb.contains(kids[m]));
            let w = choose|w: int| 0 <= w < rb.len() && rb[w] == kids[m];
            assert(rb[w] == rb[w]);
        }
        lemma_no_dup_below(cs, y as int, cs.len() as int);
        lemma_by_age_no_dup(cs, rb);
        assert forall|m: int| 0 <= m < kids.len() implies times(#[trigger] tree(cs, kids[m], d1, f1), x) <= 1 by {
            lemma_tree_once(cs, rank, kids[m], d1, f1, x);
        }
        assert forall|a: int, b: int| 0 <= a < b < kids.len() implies !(has(
            #[trigger] tree(cs, kids[a], d1, f1),
            x,
        ) && has(#[trigger] tree(cs, kids[b], d1, f1), x)) by {
            if has(tree(cs, kids[a], d1, f1), x) && has(tree(cs, kids[b], d1, f1), x) {
                let ta = tree(cs, kids[a], d1, f1);
                let tb = tree(cs, kids[b], d1, f1);
                let ka = choose|k: int| 0 <= k < ta.len() && #[trigger] ta[k].0 == x;
                let kb = choose|k: int| 0 <= k < tb.len() && #[trigger] tb[k].0 == x;
                let ea = ta[ka].1;
                let eb = tb[kb].1;
                assert(ta.contains((x, ea)));
                assert(tb.contains((x, eb)));
                lemma_tree_climbs(cs, kids[a], d1, f1, x, ea);
                lemma_tree_climbs(cs, kids[b], d1, f1, x, eb);
                let ma = (ea - d1) as nat;
                let mb = (eb - d1) as nat;
                assert(kids[a] != kids[b]);
                lemma_parent_unique(cs, kids[a] as int, y as int);
                lemma_parent_unique(cs, kids[b] as int, y as int);
                lemma_climbs_extend(cs, x as int, ma, y as int);
                lemma_climbs_extend(cs, x as int, mb, y as int);
                if ma < mb {
                    lemma_climb_rank(cs, rank, x as int, ma + 1, mb + 1, mb + 1);
                } else {
                    assert(ma != mb);
                    lemma_climb_rank(cs, rank, x as int, mb + 1, ma + 1, ma + 1);
                }
            }
        }
        lemma_grove_once(cs, kids, d1, f1, x);
        if y == x {
            lemma_times_has(g, x);
            if times(g, x) > 0 {
                let k = choose|k: int| 0 <= k < g.len() && #[trigger] g[k].0 == x;
                assert(g.contains(g[k]));
                let m = lemma_grove_from_tree(cs, kids, d1, f1, g[k]);
                lemma_tree_climbs(cs, kids[m], d1, f1, x, g[k].1);
                let mm = (g[k].1 - d1) as nat;
                lemma_parent_unique(cs, kids[m] as int, y as int);
                lemma_climbs_extend(cs, x as int, mm, y as int);
                lemma_climb_rank(cs, rank, x as int, 0, mm + 1, mm + 1);
            }
        }
    }
}

/// How many branches of `r` set the remarks below `n`, remark by remark.
spec fn times_below(r: Seq<(usize, usize)>, n: nat) -> nat
    decreases n,
{
    if n == 0 {
        0
    } else {
        times_below(r, (n - 1) as nat) + times(r, (n - 1) as usize)
    }
}

proof fn lemma_times_below_step(r: Seq<(usize, usize)>, n: nat)
    requires
        r.len() > 0,
        n <= usize::MAX + 1,
    ensures
        times_below(r, n) == times_below(r.drop_last(), n) + if (r.last().0 as int) < n { 1nat } else { 0nat },
    decreases n,
{
    if n > 0 {
        lemma_times_below_step(r, (n - 1) as nat);
    }
}

proof fn lemma_len_is_times_below(r: Seq<(usize, usize)>, n: nat)
    requires
        n <= usize::MAX + 1,
        forall|k: int| 0 <= k < r.len() ==> (#[trigger] r[k].0 as int) < n,
    ensures
        r.len() == times_below(r, n),
    decreases r.len(),
{
    if r.len() == 0 {
        lemma_times_below_empty(r, n);
    } else {
        let rest = r.drop_last();
        assert forall|k: int| 0 <= k < rest.len() implies (#[trigger] rest[k].0 as int) < n by {
            assert(rest[k] == r[k]);
        }
        lemma_len_is_times_below(rest, n);
        lemma_times_below_step(r, n);
        assert(r.last() == r[r.len() - 1]);
    }
}

proof fn lemma_times_below_empty(r: Seq<(usize, usize)>, n: nat)
    requires
        r.len() == 0,
    ensures
        times_below(r, n) == 0,
    decreases n,
{
    if n > 0 {
        lemma_times_below_empty(r, (n - 1) as nat);
    }
}

proof fn lemma_times_below_ones(r: Seq<(usize, usize)>, n: nat)
    requires
        n <= usize::MAX + 1,
        forall|i: int| 0 <= i < n ==> #[trigger] times(r, i as usize) == 1,
    ensures
        times_below(r, n) == n,
    decreases n,
{
    if n > 0 {
        lemma_times_below_ones(r, (n - 1) as nat);
        assert(times(r, ((n - 1) as int) as usize) == 1);
    }
}

/// When no two remarks share an identifier and no chain of answers loops back
/// on itself, the thread sets every remark exactly once.
pub proof fn each_remark_is_set_once(cs: Seq<Comment>, rank: spec_fn(int) -> nat)
    requires
        cs.len() <= usize::MAX,
        distinct_ids(cs),
        ranks_answers(cs, rank),
    ensures
        forall|i: int| 0 <= i < cs.len() ==> #[trigger] times(thread_spec(cs), i as usize) == 1,
        thread_spec(cs).len() == cs.len(),
{
    let n = cs.len();
    let top = roots(cs);
    let rb = roots_below(cs, n as int);
    lemma_roots_below(cs, n as int);
    lemma_by_age_from(cs, rb);
    lemma_no_dup_below(cs, 0, n as int);
    lemma_by_age_no_dup(cs, rb);
    every_remark_is_in_the_thread(cs, rank);
    assert forall|m: int| 0 <= m < top.len() implies (#[trigger] top[m] as int) < cs.len() && is_root(
        cs,
        top[m] as int,
    ) by {
        assert(rb.contains(top[m]));
        let w = choose|w: int| 0 <= w < rb.len() && rb[w] == top[m];
        assert(rb[w] == rb[w]);
    }
    assert forall|i: int| 0 <= i < cs.len() implies #[trigger] times(thread_spec(cs), i as usize) == 1 by {
        let x = i as usize;
        assert forall|m: int| 0 <= m < top.len() implies times(#[trigger] tree(cs, top[m], 0, n), x) <= 1 by {
            lemma_tree_once(cs, rank, top[m], 0, n, x);
        }
        assert forall|a: int, b: int| 0 <= a < b < top.len() implies !(has(
            #[trigger] tree(cs, top[a], 0, n),
            x,
        ) && has(#[trigger] tree(cs, top[b], 0, n), x)) by {
            if has(tree(cs, top[a], 0, n), x) && has(tree(cs, top[b], 0, n), x) {
                let ta = tree(cs, top[a], 0, n);
                let tb = tree(cs, top[b], 0, n);
                let ka = choose|k: int| 0 <= k < ta.len() && #[trigger] ta[k].0 == x;
                let kb = choose|k: int| 0 <= k < tb.len() && #[trigger] tb[k].0 == x;
                assert(ta.contains((x, ta[ka].1)));
                assert(tb.contains((x, tb[kb].1)));
                lemma_tree_climbs(cs, top[a], 0, n, x, ta[ka].1);
                lemma_tree_climbs(cs, top[b], 0, n, x, tb[kb].1);
                let ma = ta[ka].1 as nat;
                let mb = tb[kb].1 as nat;
                assert(top[a] != top[b]);
                if ma < mb {
                    assert(0 <= up(cs, x as int, ma) < cs.len());
                    let p = up(cs, x as int, ma + 1);
                    assert(answers(cs, up(cs, x as int, ma), p));
                    assert(known(cs, cs[top[a] as int].parent_id->0@));
                } else {
                    assert(ma != mb);
                    assert(0 <= up(cs, x as int, mb) < cs.len());
                    let p = up(cs, x as int, mb + 1);
                    assert(answers(cs, up(cs, x as int, mb), p));
                    assert(known(cs, cs[top[b] as int].parent_id->0@));
                }
            }
        }
        lemma_grove_once(cs, top, 0, n, x);
        assert(in_thread(cs, i));
        let k = choose|k: int| 0 <= k < thread_spec(cs).len() && #[trigger] thread_spec(cs)[k].0 == i as usize;
        assert(has(thread_spec(cs), x));
        lemma_times_has(thread_spec(cs), x);
    }
    replies_follow_what_they_answer(cs);
    let r = thread_spec(cs);
    assert forall|k: int| 0 <= k < r.len() implies (#[trigger] r[k].0 as int) < cs.len() by {
        assert((thread_spec(cs)[k].0 as int) < cs.len());
    }
    lemma_len_is_times_below(r, cs.len());
    lemma_times_below_ones(r, cs.len());
}

proof fn lemma_stacked_facts(l: Seq<usize>, d: usize)
    ensures
        stacked(l, d).len() == l.len(),
        forall|k: int|
            0 <= k < l.len() ==> #[trigger] stacked(l, d)[k] == (l[l.len() - 1 - k], d),
    decreases l.len(),
{
    if l.len() > 0 {
        lemma_stacked_facts(l.drop_first(), d);
        assert forall|k: int| 0 <= k < l.len() implies #[trigger] stacked(l, d)[k] == (
            l[l.len() - 1 - k],
            d,
        ) by {
            if k < l.len() - 1 {
                assert(stacked(l, d)[k] == stacked(l.drop_first(), d)[k]);
                assert(l.drop_first()[l.drop_first().len() - 1 - k] == l[l.len() - 1 - k]);
            }
        }
    }
}

} // verus!
