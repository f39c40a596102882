use vstd::prelude::*;
use crate::msg::EmailView;
use crate::group::{group_spec, sorted_by_date, lemma_sort_sorted, distinct_keys, filter_key};
use crate::tree::{
    TreeView, forest_spec, build_roots, build_node_spec, build_kids, parent_spec, is_root,
    lookup_spec, lemma_lookup,
};
use crate::stats::{
    tv_max_depth, tvs_max_depth, tv_branch, tvs_branch, sat_add_spec, participant_set, all_addrs,
    addrs_of,
};

verus! {

broadcast use vstd::seq::axiom_seq_index_decreases;

/// Grouping is a function of the message list alone: equal lists group
/// identically, so regrouping an unchanged list yields the same thread id
/// sequence and the same per-thread ordering.
pub proof fn lemma_grouping_idempotent(e1: Seq<EmailView>, e2: Seq<EmailView>)
    requires
        e1 == e2,
    ensures
        group_spec(e1) == group_spec(e2),
{
}

/// After grouping, every thread's messages are non-decreasing by
/// sent-timestamp.
pub proof fn lemma_groups_sorted(s: Seq<EmailView>)
    ensures
        forall|i: int|
            0 <= i < group_spec(s).len() ==> sorted_by_date(#[trigger] group_spec(s)[i].1),
{
    assert forall|i: int|
        0 <= i < group_spec(s).len() implies sorted_by_date(#[trigger] group_spec(s)[i].1) by {
        lemma_sort_sorted(filter_key(s, distinct_keys(s)[i]));
    }
}

/// A message whose in-reply-to resolves to no message id in its thread is a
/// root, not an error.
pub proof fn lemma_outside_reply_is_root(s: Seq<EmailView>, j: int, m: Seq<char>)
    requires
        0 <= j < s.len(),
        s[j].in_reply_to == Some(m),
        forall|i: int| 0 <= i < s.len() ==> (#[trigger] s[i]).message_id != m,
    ensures
        is_root(s, j),
{
    lemma_lookup(s, m);
    if lookup_spec(s, m) is Some {
        let i = lookup_spec(s, m)->Some_0;
        assert(s[i].message_id != m);
    }
}

/// The forest has exactly one tree per root message.
pub open spec fn count_roots(s: Seq<EmailView>, j: int) -> nat
    decreases s.len() - j,
{
    if j < 0 || j >= s.len() {
        0
    } else {
        (if is_root(s, j) {
            1nat
        } else {
            0nat
        }) + count_roots(s, j + 1)
    }
}

pub proof fn lemma_forest_one_tree_per_root(s: Seq<EmailView>, j: int)
    requires
        0 <= j <= s.len(),
    ensures
        build_roots(s, j).len() == count_roots(s, j),
    decreases s.len() - j,
{
    if j < s.len() {
        lemma_forest_one_tree_per_root(s, j + 1);
    }
}

/// A thread of two messages, the second replying to the first, builds one
/// root holding the first message with exactly one child holding the
/// second, at depth 1.
pub proof fn lemma_two_message_chain(a: EmailView, b: EmailView)
    requires
        a.in_reply_to is None,
        b.in_reply_to == Some(a.message_id),
        b.message_id != a.message_id,
    ensures
        ({
            let f = forest_spec(seq![a, b]);
            &&& f.len() == 1
            &&& f[0].email == a
            &&& f[0].depth == 0
            &&& f[0].children.len() == 1
            &&& f[0].children[0].email == b
            &&& f[0].children[0].depth == 1
            &&& f[0].children[0].children.len() == 0
        }),
{
    let s = seq![a, b];
    assert(s.len() == 2 && s[0] == a && s[1] == b);
    assert(s.drop_last() =~= seq![a]);
    assert(seq![a].drop_last() =~= Seq::<EmailView>::empty());
    assert(seq![a].last() == a);
    assert(lookup_spec(seq![a], a.message_id) == Some(0int));
    assert(s.last() == b);
    assert(lookup_spec(s, a.message_id) == lookup_spec(s.drop_last(), a.message_id));
    assert(lookup_spec(s, a.message_id) == Some(0int));
    assert(parent_spec(s, 0) is None);
    assert(parent_spec(s, 1) == Some(0int));
    assert(is_root(s, 0));
    assert(!is_root(s, 1));
    let t1 = build_node_spec(s, 1, 1, 1);
    assert(build_kids(s, 1, 2, 2, 0) =~= Seq::<TreeView>::empty());
    assert(build_kids(s, 1, 1, 2, 0) =~= Seq::<TreeView>::empty());
    assert(build_kids(s, 1, 0, 2, 0) =~= Seq::<TreeView>::empty());
    assert(t1.email == b && t1.depth == 1 && t1.children.len() == 0);
    let t0 = build_node_spec(s, 0, 0, 2);
    assert(build_kids(s, 0, 2, 1, 1) =~= Seq::<TreeView>::empty());
    assert(build_kids(s, 0, 1, 1, 1) =~= seq![t1] + build_kids(s, 0, 2, 1, 1));
    assert(build_kids(s, 0, 0, 1, 1) == build_kids(s, 0, 1, 1, 1));
    assert(t0.children =~= seq![t1]);
    assert(build_roots(s, 2) =~= Seq::<TreeView>::empty());
    assert(build_roots(s, 1) =~= Seq::<TreeView>::empty());
    assert(build_roots(s, 0) =~= seq![t0] + build_roots(s, 1));
    assert(forest_spec(s) =~= seq![t0]);
}

pub proof fn lemma_kids_empty(s: Seq<EmailView>, i: int, j: int, d: nat, f: nat)
    requires
        forall|t: int| 0 <= t < s.len() ==> parent_spec(s, t) is None,
    ensures
        build_kids(s, i, j, d, f) == Seq::<TreeView>::empty(),
    decreases f, s.len() - j,
{
    if 0 <= j < s.len() {
        assert(parent_spec(s, j) is None);
        lemma_kids_empty(s, i, j + 1, d, f);
    }
}

pub proof fn lemma_tvs_max_zero(ts: Seq<TreeView>, k: int)
    requires
        forall|m: int| 0 <= m < ts.len() ==> tv_max_depth(#[trigger] ts[m]) == 0,
    ensures
        tvs_max_depth(ts, k) == 0,
    decreases ts.len() - k,
{
    if 0 <= k < ts.len() {
        lemma_tvs_max_zero(ts, k + 1);
    }
}

pub proof fn lemma_roots_only_leaves(s: Seq<EmailView>, j: int)
    requires
        forall|t: int| 0 <= t < s.len() ==> parent_spec(s, t) is None,
        0 <= j <= s.len(),
    ensures
        forall|m: int|
            0 <= m < build_roots(s, j).len() ==> tv_max_depth(#[trigger] build_roots(s, j)[m])
                == 0,
    decreases s.len() - j,
{
    if j < s.len() {
        lemma_roots_only_leaves(s, j + 1);
        if is_root(s, j) {
            let t = build_node_spec(s, j, 0, s.len() as nat);
            if s.len() > 0 {
                lemma_kids_empty(s, j, 0, 1, (s.len() - 1) as nat);
            }
            assert(t.children.len() == 0);
            assert(tv_max_depth(t) == 0);
            assert(build_roots(s, j) == seq![t] + build_roots(s, j + 1));
            assert forall|m: int|
                0 <= m < build_roots(s, j).len() implies tv_max_depth(
                #[trigger] build_roots(s, j)[m],
            ) == 0 by {
                if m == 0 {
                    assert(build_roots(s, j)[0] == t);
                } else {
                    assert(build_roots(s, j)[m] == build_roots(s, j + 1)[m - 1]);
                }
            }
        }
    }
}

/// A thread of roots only (no message resolves to a parent) has maximum
/// depth 0.
pub proof fn lemma_roots_only_depth(s: Seq<EmailView>)
    requires
        forall|t: int| 0 <= t < s.len() ==> parent_spec(s, t) is None,
    ensures
        tvs_max_depth(forest_spec(s), 0) == 0,
{
    lemma_roots_only_leaves(s, 0);
    lemma_tvs_max_zero(forest_spec(s), 0);
}

pub proof fn lemma_kids_chain(s: Seq<EmailView>, i: int, j: int, d: nat, f: nat)
    requires
        forall|t: int| 1 <= t < s.len() ==> #[trigger] parent_spec(s, t) == Some(t - 1),
        0 <= s.len(),
        parent_spec(s, 0) is None,
        0 <= i < s.len(),
        0 <= j,
    ensures
        build_kids(s, i, j, d, f) == if j <= i + 1 && i + 1 < s.len() {
            seq![build_node_spec(s, i + 1, d, f)]
        } else {
            Seq::<TreeView>::empty()
        },
    decreases f, s.len() - j,
{
    if 0 <= j < s.len() {
        if j >= 1 {
            assert(parent_spec(s, j) == Some(j - 1));
        }
        lemma_kids_chain(s, i, j + 1, d, f);
        if parent_spec(s, j) == Some(i) {
            assert(j == i + 1);
            assert(build_kids(s, i, j + 1, d, f) =~= Seq::<TreeView>::empty());
            assert(build_kids(s, i, j, d, f) =~= seq![build_node_spec(s, i + 1, d, f)]);
        }
    }
}

pub proof fn lemma_chain_node_branch(s: Seq<EmailView>, i: int, d: nat, f: nat)
    requires
        forall|t: int| 1 <= t < s.len() ==> #[trigger] parent_spec(s, t) == Some(t - 1),
        parent_spec(s, 0) is None,
        0 <= i < s.len(),
    ensures
        tv_branch(build_node_spec(s, i, d, f)) == 0,
    decreases f,
{
    let t = build_node_spec(s, i, d, f);
    if f == 0 {
        assert(t.children.len() == 0);
        assert(tvs_branch(t.children, 0) == 0);
    } else {
        lemma_kids_chain(s, i, 0, d + 1, (f - 1) as nat);
        if i + 1 < s.len() {
            let c = build_node_spec(s, i + 1, d + 1, (f - 1) as nat);
            assert(t.children == seq![c]);
            lemma_chain_node_branch(s, i + 1, d + 1, (f - 1) as nat);
            assert(tvs_branch(t.children, 1) == 0);
            assert(tvs_branch(t.children, 0) == sat_add_spec(tv_branch(c), 0));
        } else {
            assert(t.children.len() == 0);
        }
    }
}

pub proof fn lemma_chain_roots(s: Seq<EmailView>, j: int)
    requires
        forall|t: int| 1 <= t < s.len() ==> #[trigger] parent_spec(s, t) == Some(t - 1),
        parent_spec(s, 0) is None,
        1 <= j <= s.len(),
    ensures
        build_roots(s, j) == Seq::<TreeView>::empty(),
    decreases s.len() - j,
{
    if j < s.len() {
        assert(parent_spec(s, j) == Some(j - 1));
        lemma_chain_roots(s, j + 1);
    }
}

/// A strictly linear chain (each message replying to exactly the previous
/// one) has fan-out weight 0.
pub proof fn lemma_linear_chain_branches(s: Seq<EmailView>)
    requires
        s.len() >= 1,
        forall|t: int| 1 <= t < s.len() ==> #[trigger] parent_spec(s, t) == Some(t - 1),
        parent_spec(s, 0) is None,
    ensures
        tvs_branch(forest_spec(s), 0) == 0,
{
    let t0 = build_node_spec(s, 0, 0, s.len() as nat);
    lemma_chain_roots(s, 1);
    assert(build_roots(s, 0) =~= seq![t0]);
    lemma_chain_node_branch(s, 0, 0, s.len() as nat);
    assert(tvs_branch(seq![t0], 1) == 0);
    assert(tvs_branch(forest_spec(s), 0) == sat_add_spec(tv_branch(t0), 0));
}

/// A node with exactly three direct replies contributes exactly 3 to the
/// fan-out weight, on top of whatever its subtrees contribute.
pub proof fn lemma_branch_contribution(t: TreeView)
    requires
        t.children.len() == 3,
        tvs_branch(t.children, 0) <= usize::MAX - 3,
    ensures
        tv_branch(t) == 3 + tvs_branch(t.children, 0),
{
}

pub proof fn lemma_all_addrs_excludes(s: Seq<EmailView>, addr: Seq<char>)
    requires
        forall|i: int|
            0 <= i < s.len() ==> (#[trigger] s[i]).from != addr && !s[i].to.contains(addr)
                && !s[i].cc.contains(addr),
    ensures
        !all_addrs(s).contains(addr),
    decreases s.len(),
{
    if s.len() > 0 {
        let d = s.drop_last();
        assert(forall|i: int| 0 <= i < d.len() ==> #[trigger] d[i] == s[i]);
        lemma_all_addrs_excludes(d, addr);
        let e = s.last();
        if all_addrs(s).contains(addr) {
            let k = choose|k: int| 0 <= k < all_addrs(s).len() && all_addrs(s)[k] == addr;
            let pre = all_addrs(d);
            if k < pre.len() {
                assert(pre[k] == addr);
            } else {
                let off = k - pre.len();
                assert(addrs_of(e)[off] == addr);
                if off == 0 {
                    assert(e.from == addr);
                } else if off <= e.to.len() {
                    assert(e.to[off - 1] == addr);
                } else {
                    assert(e.cc[off - 1 - e.to.len()] == addr);
                }
            }
        }
    }
}

/// An address appearing only in bcc fields is not a participant.
pub proof fn lemma_bcc_excluded(s: Seq<EmailView>, addr: Seq<char>)
    requires
        forall|i: int|
            0 <= i < s.len() ==> (#[trigger] s[i]).from != addr && !s[i].to.contains(addr)
                && !s[i].cc.contains(addr),
    ensures
        !participant_set(s).contains(addr),
{
    lemma_all_addrs_excludes(s, addr);
    if participant_set(s).contains(addr) {
        let k = choose|k: int| 0 <= k < all_addrs(s).len() && all_addrs(s)[k] == addr;
        assert(all_addrs(s).contains(addr));
    }
}

} // verus!
