use vstd::prelude::*;
use crate::msg::{EmailMessage, EmailView, views_of};
use crate::strutil::str_eq;
use crate::stats::contains_str;

verus! {

broadcast use vstd::std_specs::vec::group_vec_axioms, vstd::seq::axiom_seq_index_decreases, vstd::set::group_set_axioms;

/// Non-decreasing by sent-timestamp.
pub open spec fn sorted_by_date(g: Seq<EmailView>) -> bool {
    forall|a: int, b: int| 0 <= a < b < g.len() ==> g[a].date_sent <= g[b].date_sent
}

/// Insert `e` after every element whose sent-timestamp is not greater, so
/// that equal timestamps keep their arrival order.
pub open spec fn insert_chrono(g: Seq<EmailView>, e: EmailView) -> Seq<EmailView>
    decreases g.len(),
{
    if g.len() == 0 {
        seq![e]
    } else if g.last().date_sent <= e.date_sent {
        g.push(e)
    } else {
        insert_chrono(g.drop_last(), e).push(g.last())
    }
}

/// Stable insertion sort by sent-timestamp.
pub open spec fn sort_chrono(g: Seq<EmailView>) -> Seq<EmailView>
    decreases g.len(),
{
    if g.len() == 0 {
        Seq::empty()
    } else {
        insert_chrono(sort_chrono(g.drop_last()), g.last())
    }
}

pub proof fn lemma_insert_sorted(g: Seq<EmailView>, e: EmailView)
    requires
        sorted_by_date(g),
    ensures
        sorted_by_date(insert_chrono(g, e)),
        insert_chrono(g, e).len() == g.len() + 1,
        insert_chrono(g, e).to_multiset() == g.push(e).to_multiset(),
    decreases g.len(),
{
    broadcast use vstd::seq_lib::group_to_multiset_ensures;

    if g.len() == 0 {
        assert(seq![e] =~= Seq::<EmailView>::empty().push(e));
    } else if g.last().date_sent <= e.date_sent {
    } else {
        assert(sorted_by_date(g.drop_last()));
        lemma_insert_sorted(g.drop_last(), e);
        let r0 = insert_chrono(g.drop_last(), e);
        let r = r0.push(g.last());
        assert forall|a: int, b: int| 0 <= a < b < r.len() implies r[a].date_sent
            <= r[b].date_sent by {
            if b == r.len() - 1 {
                // every element of r0 is either from g.drop_last() or is e,
                // and both are <= g.last() in timestamp
                assert(r0.to_multiset().contains(r0[a]));
                assert(g.drop_last().push(e).to_multiset().contains(r0[a]));
                assert(g.drop_last().push(e).to_multiset().count(r0[a]) > 0);
                assert(g.drop_last().push(e).contains(r0[a]));
                let w = choose|w: int|
                    0 <= w < g.drop_last().push(e).len() && g.drop_last().push(e)[w] == r0[a];
                if w < g.len() - 1 {
                    assert(g[w] == g.drop_last().push(e)[w]);
                } else {
                    assert(g.drop_last().push(e)[w] == e);
                }
            }
        }
        assert(r.to_multiset() =~= g.push(e).to_multiset()) by {
            assert(g.drop_last().push(e).push(g.last()).to_multiset() == g.drop_last().push(
                g.last(),
            ).push(e).to_multiset()) by {
                vstd::seq_lib::lemma_seq_union_to_multiset_commutative(
                    g.drop_last().push(e),
                    seq![g.last()],
                );
                assert(g.drop_last().push(e).push(g.last()) =~= g.drop_last().push(e) + seq![
                    g.last()
                ]);
                vstd::seq_lib::lemma_seq_union_to_multiset_commutative(
                    g.drop_last(),
                    seq![e] + seq![g.last()],
                );
                assert(g.drop_last().push(e) + seq![g.last()] =~= g.drop_last() + (seq![e] + seq![
                    g.last()
                ]));
                assert(seq![e] + seq![g.last()] =~= seq![e, g.last()]);
                vstd::seq_lib::lemma_seq_union_to_multiset_commutative(seq![e], seq![g.last()]);
                assert(seq![g.last()] + seq![e] =~= seq![g.last(), e]);
                assert((seq![e] + seq![g.last()]).to_multiset() == (seq![g.last()] + seq![
                    e
                ]).to_multiset());
                vstd::seq_lib::lemma_seq_union_to_multiset_commutative(
                    g.drop_last(),
                    seq![g.last()] + seq![e],
                );
                assert(g.drop_last() + (seq![g.last()] + seq![e]) =~= g.drop_last().push(
                    g.last(),
                ).push(e));
                vstd::seq_lib::lemma_multiset_commutative(g.drop_last(), seq![e] + seq![g.last()]);
                vstd::seq_lib::lemma_multiset_commutative(g.drop_last(), seq![g.last()] + seq![e]);
            }
            assert(g.drop_last().push(g.last()) =~= g);
        }
    }
}

pub proof fn lemma_sort_sorted(g: Seq<EmailView>)
    ensures
        sorted_by_date(sort_chrono(g)),
        sort_chrono(g).len() == g.len(),
        sort_chrono(g).to_multiset() == g.to_multiset(),
    decreases g.len(),
{
    broadcast use vstd::seq_lib::group_to_multiset_ensures;

    if g.len() > 0 {
        lemma_sort_sorted(g.drop_last());
        lemma_insert_sorted(sort_chrono(g.drop_last()), g.last());
        assert(sort_chrono(g.drop_last()).push(g.last()).to_multiset() == g.drop_last().push(
            g.last(),
        ).to_multiset()) by {
            vstd::seq_lib::lemma_multiset_commutative(sort_chrono(g.drop_last()), seq![g.last()]);
            vstd::seq_lib::lemma_multiset_commutative(g.drop_last(), seq![g.last()]);
            assert(sort_chrono(g.drop_last()).push(g.last()) =~= sort_chrono(g.drop_last()) + seq![
                g.last()
            ]);
            assert(g.drop_last().push(g.last()) =~= g.drop_last() + seq![g.last()]);
        }
        assert(g.drop_last().push(g.last()) =~= g);
    }
}

/// The distinct non-empty thread ids of `s`, in order of first appearance.
pub open spec fn distinct_keys(s: Seq<EmailView>) -> Seq<Seq<char>>
    decreases s.len(),
{
    if s.len() == 0 {
        Seq::empty()
    } else {
        let d = distinct_keys(s.drop_last());
        let t = s.last().thread_id;
        if t.len() == 0 || d.contains(t) {
            d
        } else {
            d.push(t)
        }
    }
}

/// The messages of `s` with thread id `k`, in arrival order.
pub open spec fn filter_key(s: Seq<EmailView>, k: Seq<char>) -> Seq<EmailView>
    decreases s.len(),
{
    if s.len() == 0 {
        Seq::empty()
    } else if s.last().thread_id == k {
        filter_key(s.drop_last(), k).push(s.last())
    } else {
        filter_key(s.drop_last(), k)
    }
}

/// The thread grouping: one entry per distinct non-empty thread id, in
/// discovery order, each holding that thread's messages sorted by
/// sent-timestamp (stable for ties).
pub open spec fn group_spec(s: Seq<EmailView>) -> Seq<(Seq<char>, Seq<EmailView>)> {
    Seq::new(
        distinct_keys(s).len(),
        |i: int| (distinct_keys(s)[i], sort_chrono(filter_key(s, distinct_keys(s)[i]))),
    )
}

pub proof fn lemma_filter_monotone(s: Seq<EmailView>, k: Seq<char>)
    requires
        s.len() > 0,
    ensures
        filter_key(s, k).len() >= filter_key(s.drop_last(), k).len(),
{
}

pub proof fn lemma_distinct_keys(s: Seq<EmailView>)
    ensures
        distinct_keys(s).no_duplicates(),
        forall|i: int| 0 <= i < distinct_keys(s).len() ==> (#[trigger] distinct_keys(s)[i]).len()
            > 0,
        forall|i: int|
            0 <= i < distinct_keys(s).len() ==> filter_key(s, #[trigger] distinct_keys(s)[i]).len()
                >= 1,
    decreases s.len(),
{
    if s.len() > 0 {
        lemma_distinct_keys(s.drop_last());
        let d = distinct_keys(s.drop_last());
        let dk = distinct_keys(s);
        let t = s.last().thread_id;
        assert forall|i: int| 0 <= i < dk.len() implies filter_key(s, #[trigger] dk[i]).len()
            >= 1 by {
            if t.len() == 0 || d.contains(t) {
                assert(dk == d);
                lemma_filter_monotone(s, dk[i]);
            } else {
                if i < d.len() {
                    assert(dk[i] == d[i]);
                    lemma_filter_monotone(s, dk[i]);
                } else {
                    assert(dk[i] == t);
                    assert(filter_key(s, t) == filter_key(s.drop_last(), t).push(s.last()));
                }
            }
        }
        if !(t.len() == 0 || d.contains(t)) {
            assert forall|a: int, b: int| 0 <= a < b < dk.len() implies dk[a] != dk[b] by {
                if b < d.len() {
                } else {
                    assert(dk[b] == t);
                    assert(d.contains(d[a]) == true);
                    if dk[a] == t {
                        assert(d[a] == t);
                    }
                }
            }
        }
    }
}

/// Collect the messages of a given thread id, in arrival order.
pub fn collect_key(emails: &Vec<EmailMessage>, k: &str) -> (r: Vec<EmailMessage>)
    ensures
        views_of(r@) == filter_key(views_of(emails@), k@),
{
    let ghost s = views_of(emails@);
    let mut r: Vec<EmailMessage> = Vec::new();
    let mut i: usize = 0;
    while i < emails.len()
        invariant
            i <= emails.len(),
            s == views_of(emails@),
            s.len() == emails.len(),
            views_of(r@) =~= filter_key(s.take(i as int), k@),
        decreases emails.len() - i,
    {
        proof {
            assert(s.take(i + 1 as int).drop_last() =~= s.take(i as int));
            assert(s.take(i + 1 as int).last() == s[i as int]);
            assert(s[i as int] == emails@[i as int]@);
        }
        if str_eq(emails[i].thread_id.as_str(), k) {
            let ghost oldr = r@;
            r.push(emails[i].duplicate());
            proof {
                assert(views_of(r@) =~= views_of(oldr).push(emails@[i as int]@));
            }
        }
        i += 1;
    }
    proof {
        assert(s.take(emails.len() as int) =~= s);
    }
    r
}

/// Insert a message into a chronologically sorted vector, after every
/// message whose timestamp is not greater.
pub fn insert_by_date(g: &mut Vec<EmailMessage>, e: EmailMessage)
    ensures
        views_of(final(g)@) == insert_chrono(views_of(old(g)@), e@),
{
    let ghost s = views_of(g@);
    let mut p: usize = g.len();
    while p > 0 && g[p - 1].date_sent > e.date_sent
        invariant
            p <= g.len(),
            s == views_of(g@),
            s.len() == g.len(),
            forall|k: int| p <= k < s.len() ==> #[trigger] s[k].date_sent > e@.date_sent,
        decreases p,
    {
        proof {
            assert(s[p - 1] == g@[p - 1]@);
        }
        p -= 1;
    }
    proof {
        if p > 0 {
            assert(s[p - 1] == g@[p - 1]@);
            assert(s[p - 1].date_sent <= e@.date_sent);
        }
        lemma_insert_position(s, e@, p as int);
    }
    g.insert(p, e);
    proof {
        assert(views_of(g@) =~= s.take(p as int) + seq![e@] + s.skip(p as int));
    }
}

pub proof fn lemma_insert_position(g: Seq<EmailView>, e: EmailView, p: int)
    requires
        0 <= p <= g.len(),
        forall|k: int| p <= k < g.len() ==> #[trigger] g[k].date_sent > e.date_sent,
        p > 0 ==> g[p - 1].date_sent <= e.date_sent,
    ensures
        insert_chrono(g, e) == g.take(p) + seq![e] + g.skip(p),
    decreases g.len(),
{
    if g.len() == 0 {
        assert(insert_chrono(g, e) =~= g.take(p) + seq![e] + g.skip(p));
    } else if g.last().date_sent <= e.date_sent {
        assert(p == g.len());
        assert(insert_chrono(g, e) =~= g.take(p) + seq![e] + g.skip(p));
    } else {
        assert(p < g.len());
        let d = g.drop_last();
        assert(forall|k: int| p <= k < d.len() ==> #[trigger] d[k] == g[k]);
        assert(p > 0 ==> d[p - 1] == g[p - 1]);
        lemma_insert_position(d, e, p);
        assert(insert_chrono(g, e) =~= g.take(p) + seq![e] + g.skip(p));
    }
}

/// A chronologically sorted copy of `g` (stable: ties keep arrival order).
pub fn sorted_copy(g: &Vec<EmailMessage>) -> (r: Vec<EmailMessage>)
    ensures
        views_of(r@) == sort_chrono(views_of(g@)),
{
    let ghost s = views_of(g@);
    let mut r: Vec<EmailMessage> = Vec::new();
    let mut i: usize = 0;
    while i < g.len()
        invariant
            i <= g.len(),
            s == views_of(g@),
            s.len() == g.len(),
            views_of(r@) == sort_chrono(s.take(i as int)),
        decreases g.len() - i,
    {
        proof {
            assert(s.take(i + 1 as int).drop_last() =~= s.take(i as int));
            assert(s.take(i + 1 as int).last() == s[i as int]);
            assert(s[i as int] == g@[i as int]@);
        }
        insert_by_date(&mut r, g[i].duplicate());
        i += 1;
    }
    proof {
        assert(s.take(g.len() as int) =~= s);
    }
    r
}

/// The grouping of the executable entry list.
pub open spec fn entries_view(es: Seq<(String, Vec<EmailMessage>)>) -> Seq<
    (Seq<char>, Seq<EmailView>),
> {
    Seq::new(es.len(), |i: int| (es[i].0@, views_of(es[i].1@)))
}

/// Partition the message list by thread id: distinct non-empty ids in
/// discovery order, each group sorted chronologically.
pub fn group_entries(emails: &Vec<EmailMessage>) -> (r: Vec<(String, Vec<EmailMessage>)>)
    ensures
        entries_view(r@) == group_spec(views_of(emails@)),
{
    let ghost s = views_of(emails@);
    let mut keys: Vec<String> = Vec::new();
    let mut i: usize = 0;
    while i < emails.len()
        invariant
            i <= emails.len(),
            s == views_of(emails@),
            s.len() == emails.len(),
            keys.deep_view() == distinct_keys(s.take(i as int)),
        decreases emails.len() - i,
    {
        proof {
            assert(s.take(i + 1 as int).drop_last() =~= s.take(i as int));
            assert(s.take(i + 1 as int).last() == s[i as int]);
            assert(s[i as int] == emails@[i as int]@);
        }
        let tid = &emails[i].thread_id;
        if !tid.as_str().is_empty() {
            if !contains_str(&keys, tid.as_str()) {
                let ghost oldk = keys.deep_view();
                keys.push(tid.clone());
                proof {
                    assert(keys.deep_view() =~= oldk.push(tid@));
                }
            }
        }
        i += 1;
    }
    proof {
        assert(s.take(emails.len() as int) =~= s);
    }
    let ghost dk = distinct_keys(s);
    let mut r: Vec<(String, Vec<EmailMessage>)> = Vec::new();
    let mut j: usize = 0;
    while j < keys.len()
        invariant
            j <= keys.len(),
            s == views_of(emails@),
            keys.deep_view() == dk,
            dk == distinct_keys(s),
            dk.len() == keys.len(),
            r.len() == j,
            forall|t: int|
                0 <= t < j ==> #[trigger] entries_view(r@)[t] == (
                    dk[t],
                    sort_chrono(filter_key(s, dk[t])),
                ),
        decreases keys.len() - j,
    {
        let grp = collect_key(emails, keys[j].as_str());
        let sorted = sorted_copy(&grp);
        let ghost oldr = r@;
        r.push((keys[j].clone(), sorted));
        proof {
            assert(keys@[j as int]@ == dk[j as int]);
            assert forall|t: int| 0 <= t < j + 1 implies #[trigger] entries_view(r@)[t] == (
                dk[t],
                sort_chrono(filter_key(s, dk[t])),
            ) by {
                if t < j {
                    assert(entries_view(r@)[t] == entries_view(oldr)[t]);
                }
            }
        }
        j += 1;
    }
    proof {
        assert(entries_view(r@) =~= group_spec(s));
    }
    r
}

} // verus!
