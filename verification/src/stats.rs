use vstd::prelude::*;
use vstd::seq_lib::*;
use crate::msg::{EmailMessage, EmailView, views_of, DateRange};
use crate::strutil::str_eq;
use crate::tree::{ThreadNode, TreeView, node_view, nodes_view, lemma_nodes_view};

verus! {

broadcast use vstd::std_specs::vec::group_vec_axioms, vstd::seq::axiom_seq_index_decreases, vstd::set::group_set_axioms;

/// Derived read-only summary of one thread.
#[derive(Debug)]
pub struct ThreadStats {
    pub thread_id: String,
    pub total_emails: usize,
    pub participants: Vec<String>,
    pub participant_count: usize,
    pub max_depth: usize,
    pub branch_count: usize,
    pub forward_count: usize,
    pub reply_count: usize,
    pub external_count: usize,
    pub date_range: DateRange,
}

/// Addition capped at the machine limit.
pub open spec fn sat_add_spec(a: nat, b: nat) -> nat {
    if a + b > usize::MAX {
        usize::MAX as nat
    } else {
        a + b
    }
}

pub fn sat_add(a: usize, b: usize) -> (r: usize)
    ensures
        r as nat == sat_add_spec(a as nat, b as nat),
{
    if a <= usize::MAX - b {
        a + b
    } else {
        usize::MAX
    }
}

/// The maximum depth reached by any leaf of `t` (a childless node is its own
/// deepest leaf).
pub open spec fn tv_max_depth(t: TreeView) -> nat
    decreases t, 1nat, 0nat,
{
    if t.children.len() == 0 {
        t.depth
    } else {
        tvs_max_depth(t.children, 0)
    }
}

pub open spec fn tvs_max_depth(ts: Seq<TreeView>, k: int) -> nat
    decreases ts, 0nat, ts.len() - k,
{
    if k < 0 || k >= ts.len() {
        0
    } else if tv_max_depth(ts[k]) >= tvs_max_depth(ts, k + 1) {
        tv_max_depth(ts[k])
    } else {
        tvs_max_depth(ts, k + 1)
    }
}

/// The fan-out weight of `t`: every node with more than one direct reply
/// contributes its number of direct replies; sums are capped at the machine
/// limit.
pub open spec fn tv_branch(t: TreeView) -> nat
    decreases t, 1nat, 0nat,
{
    sat_add_spec(
        if t.children.len() > 1 {
            t.children.len() as nat
        } else {
            0
        },
        tvs_branch(t.children, 0),
    )
}

pub open spec fn tvs_branch(ts: Seq<TreeView>, k: int) -> nat
    decreases ts, 0nat, ts.len() - k,
{
    if k < 0 || k >= ts.len() {
        0
    } else {
        sat_add_spec(tv_branch(ts[k]), tvs_branch(ts, k + 1))
    }
}

/// Deepest leaf depth below one node.
pub fn node_max_depth(node: &ThreadNode) -> (r: usize)
    ensures
        r as nat == tv_max_depth(node_view(*node)),
    decreases *node,
{
    let ghost ts = node_view(*node).children;
    proof {
        lemma_nodes_view(node.children@, 0);
    }
    if node.children.len() == 0 {
        node.depth
    } else {
        let mut best: usize = 0;
        let mut j: usize = 0;
        while j < node.children.len()
            invariant
                j <= node.children.len(),
                ts == nodes_view(node.children@, 0),
                ts.len() == node.children.len(),
                forall|m: int| 0 <= m < ts.len() ==> #[trigger] ts[m] == node_view(
                    node.children@[m],
                ),
                tvs_max_depth(ts, 0) == if best as nat >= tvs_max_depth(ts, j as int) {
                    best as nat
                } else {
                    tvs_max_depth(ts, j as int)
                },
            decreases node.children.len() - j,
        {
            let d = node_max_depth(&node.children[j]);
            if d > best {
                best = d;
            }
            j += 1;
        }
        best
    }
}

/// Deepest leaf depth across a forest of roots.
pub fn calculate_max_depth(roots: &Vec<ThreadNode>) -> (r: usize)
    ensures
        r as nat == tvs_max_depth(nodes_view(roots@, 0), 0),
{
    let ghost ts = nodes_view(roots@, 0);
    proof {
        lemma_nodes_view(roots@, 0);
    }
    let mut best: usize = 0;
    let mut j: usize = 0;
    while j < roots.len()
        invariant
            j <= roots.len(),
            ts == nodes_view(roots@, 0),
            ts.len() == roots.len(),
            forall|m: int| 0 <= m < ts.len() ==> #[trigger] ts[m] == node_view(roots@[m]),
            tvs_max_depth(ts, 0) == if best as nat >= tvs_max_depth(ts, j as int) {
                best as nat
            } else {
                tvs_max_depth(ts, j as int)
            },
        decreases roots.len() - j,
    {
        let d = node_max_depth(&roots[j]);
        if d > best {
            best = d;
        }
        j += 1;
    }
    best
}

/// Fan-out weight of one node and everything below it.
pub fn node_branch_count(node: &ThreadNode) -> (r: usize)
    ensures
        r as nat == tv_branch(node_view(*node)),
    decreases *node,
{
    let ghost ts = node_view(*node).children;
    proof {
        lemma_nodes_view(node.children@, 0);
    }
    let mut acc: usize = if node.children.len() > 1 {
        node.children.len()
    } else {
        0
    };
    let mut j: usize = 0;
    while j < node.children.len()
        invariant
            j <= node.children.len(),
            ts == nodes_view(node.children@, 0),
            ts.len() == node.children.len(),
            forall|m: int| 0 <= m < ts.len() ==> #[trigger] ts[m] == node_view(node.children@[m]),
            tv_branch(node_view(*node)) == sat_add_spec(acc as nat, tvs_branch(ts, j as int)),
        decreases node.children.len() - j,
    {
        let c = node_branch_count(&node.children[j]);
        acc = sat_add(acc, c);
        j += 1;
    }
    acc
}

/// Fan-out weight of a whole forest.
pub fn count_branches(roots: &Vec<ThreadNode>) -> (r: usize)
    ensures
        r as nat == tvs_branch(nodes_view(roots@, 0), 0),
{
    let ghost ts = nodes_view(roots@, 0);
    proof {
        lemma_nodes_view(roots@, 0);
    }
    let mut acc: usize = 0;
    let mut j: usize = 0;
    while j < roots.len()
        invariant
            j <= roots.len(),
            ts == nodes_view(roots@, 0),
            ts.len() == roots.len(),
            forall|m: int| 0 <= m < ts.len() ==> #[trigger] ts[m] == node_view(roots@[m]),
            tvs_branch(ts, 0) == sat_add_spec(acc as nat, tvs_branch(ts, j as int)),
        decreases roots.len() - j,
    {
        let c = node_branch_count(&roots[j]);
        acc = sat_add(acc, c);
        j += 1;
    }
    acc
}

/// How many messages of `s` are marked as forwards.
pub open spec fn count_forwards(s: Seq<EmailView>) -> nat
    decreases s.len(),
{
    if s.len() == 0 {
        0
    } else {
        count_forwards(s.drop_last()) + if s.last().is_forward {
            1nat
        } else {
            0nat
        }
    }
}

/// How many messages of `s` carry an in-reply-to id.
pub open spec fn count_replies(s: Seq<EmailView>) -> nat
    decreases s.len(),
{
    if s.len() == 0 {
        0
    } else {
        count_replies(s.drop_last()) + if s.last().in_reply_to is Some {
            1nat
        } else {
            0nat
        }
    }
}

/// How many messages of `s` are marked external.
pub open spec fn count_externals(s: Seq<EmailView>) -> nat
    decreases s.len(),
{
    if s.len() == 0 {
        0
    } else {
        count_externals(s.drop_last()) + if s.last().is_external {
            1nat
        } else {
            0nat
        }
    }
}

pub proof fn lemma_counts_bounded(s: Seq<EmailView>)
    ensures
        count_forwards(s) <= s.len(),
        count_replies(s) <= s.len(),
        count_externals(s) <= s.len(),
    decreases s.len(),
{
    if s.len() > 0 {
        lemma_counts_bounded(s.drop_last());
    }
}

/// One pass over a thread's flat message list, counting forwards, replies
/// and external messages.
pub fn count_flags(emails: &Vec<EmailMessage>) -> (r: (usize, usize, usize))
    ensures
        r.0 as nat == count_forwards(views_of(emails@)),
        r.1 as nat == count_replies(views_of(emails@)),
        r.2 as nat == count_externals(views_of(emails@)),
{
    let ghost s = views_of(emails@);
    let mut fwd: usize = 0;
    let mut rep: usize = 0;
    let mut ext: usize = 0;
    let mut i: usize = 0;
    while i < emails.len()
        invariant
            i <= emails.len(),
            s == views_of(emails@),
            s.len() == emails.len(),
            fwd as nat == count_forwards(s.take(i as int)),
            rep as nat == count_replies(s.take(i as int)),
            ext as nat == count_externals(s.take(i as int)),
        decreases emails.len() - i,
    {
        proof {
            lemma_counts_bounded(s.take(i as int));
            assert(s.take(i as int).len() == i);
            assert(s.take(i + 1 as int).drop_last() =~= s.take(i as int));
            assert(s.take(i + 1 as int).last() == s[i as int]);
            assert(s[i as int] == emails@[i as int]@);
        }
        if emails[i].is_forward {
            fwd += 1;
        }
        if emails[i].in_reply_to.is_some() {
            rep += 1;
        }
        if emails[i].is_external {
            ext += 1;
        }
        i += 1;
    }
    proof {
        assert(s.take(emails.len() as int) =~= s);
    }
    (fwd, rep, ext)
}

/// The visible addresses of one message: sender, to-recipients and
/// cc-recipients; bcc is excluded by design.
pub open spec fn addrs_of(e: EmailView) -> Seq<Seq<char>> {
    seq![e.from] + e.to + e.cc
}

/// All visible addresses across a message list, in order of appearance.
pub open spec fn all_addrs(s: Seq<EmailView>) -> Seq<Seq<char>>
    decreases s.len(),
{
    if s.len() == 0 {
        Seq::empty()
    } else {
        all_addrs(s.drop_last()) + addrs_of(s.last())
    }
}

/// The set of visible participants of a thread.
pub open spec fn participant_set(s: Seq<EmailView>) -> Set<Seq<char>> {
    all_addrs(s).to_set()
}

/// Whether `v` holds a string whose characters equal `s`.
pub fn contains_str(v: &Vec<String>, s: &str) -> (r: bool)
    ensures
        r == v.deep_view().contains(s@),
{
    let mut k: usize = 0;
    while k < v.len()
        invariant
            k <= v.len(),
            forall|t: int| 0 <= t < k ==> v.deep_view()[t] != s@,
        decreases v.len() - k,
    {
        if str_eq(v[k].as_str(), s) {
            proof {
                assert(v.deep_view()[k as int] == s@);
            }
            return true;
        }
        k += 1;
    }
    proof {
        if v.deep_view().contains(s@) {
            let t = choose|t: int| 0 <= t < v.deep_view().len() && v.deep_view()[t] == s@;
            assert(v.deep_view()[t] != s@);
        }
    }
    false
}

/// Append `s` to `v` only if its value is not already present.
fn push_unique(v: &mut Vec<String>, s: &String)
    ensures
        final(v).deep_view().to_set() == old(v).deep_view().to_set().insert(s@),
        old(v).deep_view().no_duplicates() ==> final(v).deep_view().no_duplicates(),
{
    let ghost olds = v.deep_view();
    if !contains_str(v, s.as_str()) {
        v.push(s.clone());
        proof {
            assert(v.deep_view() =~= olds.push(s@));
            assert(v.deep_view().to_set() =~= olds.to_set().insert(s@)) by {
                assert forall|x: Seq<char>| v.deep_view().to_set().contains(x) implies olds.to_set().insert(s@).contains(x) by {
                    let t = choose|t: int|
                        0 <= t < v.deep_view().len() && v.deep_view()[t] == x;
                    if t < olds.len() {
                        assert(olds[t] == x);
                    }
                }
                assert forall|x: Seq<char>| olds.to_set().insert(s@).contains(x) implies v.deep_view().to_set().contains(x) by {
                    if x == s@ {
                        assert(v.deep_view()[olds.len() as int] == x);
                    } else {
                        let t = choose|t: int| 0 <= t < olds.len() && olds[t] == x;
                        assert(v.deep_view()[t] == x);
                    }
                }
            }
            if olds.no_duplicates() {
                assert forall|a: int, b: int|
                    0 <= a < v.deep_view().len() && 0 <= b < v.deep_view().len() && a != b
                    implies v.deep_view()[a] != v.deep_view()[b] by {
                    if a < olds.len() && b < olds.len() {
                    } else if a < olds.len() {
                        assert(v.deep_view()[b] == s@ && !olds.to_set().contains(s@));
                        if v.deep_view()[a] == s@ {
                            assert(olds.to_set().contains(s@));
                        }
                    } else if b < olds.len() {
                        assert(v.deep_view()[a] == s@ && !olds.to_set().contains(s@));
                        if v.deep_view()[b] == s@ {
                            assert(olds.to_set().contains(s@));
                        }
                    }
                }
            }
        }
    } else {
        proof {
            let t = choose|t: int| 0 <= t < olds.len() && olds[t] == s@;
            assert(olds.to_set().contains(s@));
            assert(v.deep_view().to_set() =~= olds.to_set().insert(s@));
        }
    }
}

/// The deduplicated visible participants of a thread, one entry per distinct
/// address; iteration order is not part of the contract.
pub fn get_unique_participants(emails: &Vec<EmailMessage>) -> (r: Vec<String>)
    ensures
        r.deep_view().to_set() == participant_set(views_of(emails@)),
        r.deep_view().no_duplicates(),
{
    let ghost s = views_of(emails@);
    let mut out: Vec<String> = Vec::new();
    let mut i: usize = 0;
    while i < emails.len()
        invariant
            i <= emails.len(),
            s == views_of(emails@),
            s.len() == emails.len(),
            out.deep_view().no_duplicates(),
            out.deep_view().to_set() == all_addrs(s.take(i as int)).to_set(),
        decreases emails.len() - i,
    {
        proof {
            assert(s.take(i + 1 as int).drop_last() =~= s.take(i as int));
            assert(s.take(i + 1 as int).last() == s[i as int]);
            assert(s[i as int] == emails@[i as int]@);
        }
        let ghost base = all_addrs(s.take(i as int));
        let ghost target = all_addrs(s.take(i + 1 as int));
        let e = &emails[i];
        push_unique(&mut out, &e.from);
        proof {
        assert(out.deep_view().to_set() =~= (base + seq![s[i as int].from]).to_set()) by {
                assert(e.from@ == s[i as int].from);
                seq_to_set_push(base, s[i as int].from, out.deep_view().to_set());
                assert(base.push(s[i as int].from) =~= base + seq![s[i as int].from]);
            }
        }
        let mut k: usize = 0;
        while k < e.to.len()
            invariant
                k <= e.to.len(),
                s == views_of(emails@),
                i < emails.len(),
                e == &emails@[i as int],
                s[i as int] == emails@[i as int]@,
                base == all_addrs(s.take(i as int)),
                out.deep_view().no_duplicates(),
                out.deep_view().to_set() == (base + seq![s[i as int].from] + s[i as int].to.take(
                    k as int,
                )).to_set(),
            decreases e.to.len() - k,
        {
            let ghost pre = base + seq![s[i as int].from] + s[i as int].to.take(k as int);
            push_unique(&mut out, &e.to[k]);
            proof {
                assert(e.to@[k as int]@ == s[i as int].to[k as int]);
                seq_to_set_push(pre, s[i as int].to[k as int], out.deep_view().to_set());
                assert(pre.push(s[i as int].to[k as int]) =~= base + seq![s[i as int].from]
                    + s[i as int].to.take(k + 1 as int));
            }
            k += 1;
        }
        proof {
            assert(s[i as int].to.take(e.to.len() as int) =~= s[i as int].to);
        }
        let mut k2: usize = 0;
        while k2 < e.cc.len()
            invariant
                k2 <= e.cc.len(),
                s == views_of(emails@),
                i < emails.len(),
                e == &emails@[i as int],
                s[i as int] == emails@[i as int]@,
                base == all_addrs(s.take(i as int)),
                out.deep_view().no_duplicates(),
                out.deep_view().to_set() == (base + seq![s[i as int].from] + s[i as int].to
                    + s[i as int].cc.take(k2 as int)).to_set(),
            decreases e.cc.len() - k2,
        {
            let ghost pre = base + seq![s[i as int].from] + s[i as int].to + s[i as int].cc.take(
                k2 as int,
            );
            push_unique(&mut out, &e.cc[k2]);
            proof {
                assert(e.cc@[k2 as int]@ == s[i as int].cc[k2 as int]);
                seq_to_set_push(pre, s[i as int].cc[k2 as int], out.deep_view().to_set());
                assert(pre.push(s[i as int].cc[k2 as int]) =~= base + seq![s[i as int].from]
                    + s[i as int].to + s[i as int].cc.take(k2 + 1 as int));
            }
            k2 += 1;
        }
        proof {
            assert(s[i as int].cc.take(e.cc.len() as int) =~= s[i as int].cc);
            assert(target =~= base + addrs_of(s[i as int]));
            assert(base + seq![s[i as int].from] + s[i as int].to + s[i as int].cc =~= base
                + addrs_of(s[i as int]));
        }
        i += 1;
    }
    proof {
        assert(s.take(emails.len() as int) =~= s);
    }
    out
}

/// `q.to_set().insert(x)` is the set of `q.push(x)`; stated through the
/// already-computed set `t` of the pushed sequence.
proof fn seq_to_set_push(q: Seq<Seq<char>>, x: Seq<char>, t: Set<Seq<char>>)
    requires
        t == q.to_set().insert(x),
    ensures
        t == q.push(x).to_set(),
{
    assert(t =~= q.push(x).to_set()) by {
        assert forall|y: Seq<char>| t.contains(y) implies q.push(x).to_set().contains(y) by {
            if y == x {
                assert(q.push(x)[q.len() as int] == y);
            } else {
                let k = choose|k: int| 0 <= k < q.len() && q[k] == y;
                assert(q.push(x)[k] == y);
            }
        }
        assert forall|y: Seq<char>| q.push(x).to_set().contains(y) implies t.contains(y) by {
            let k = choose|k: int| 0 <= k < q.push(x).len() && q.push(x)[k] == y;
            if k < q.len() {
                assert(q[k] == y);
            }
        }
    }
}

} // verus!
