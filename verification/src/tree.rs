use vstd::prelude::*;
use vstd::seq_lib::*;
use vstd::set_lib::*;
use crate::msg::{EmailMessage, EmailView, views_of, DateRange};
use crate::strutil::str_eq;

verus! {

broadcast use vstd::std_specs::vec::group_vec_axioms, vstd::seq::axiom_seq_index_decreases, vstd::set::group_set_axioms;

/// One node of a reconstructed conversation tree: a message, the replies to
/// it, and its depth (roots have depth 0).
#[derive(Debug)]
pub struct ThreadNode {
    pub email: EmailMessage,
    pub children: Vec<ThreadNode>,
    pub depth: usize,
}

/// A reconstructed thread: its id, the root nodes in chronological order,
/// the message count, the distinct visible participants, and the range of
/// sent-timestamps.
#[derive(Debug)]
pub struct ThreadTree {
    pub thread_id: String,
    pub roots: Vec<ThreadNode>,
    pub total_emails: usize,
    pub participants: Vec<String>,
    pub date_range: DateRange,
}

/// The mathematical value of a `ThreadNode`.
pub ghost struct TreeView {
    pub email: EmailView,
    pub depth: nat,
    pub children: Seq<TreeView>,
}

pub open spec fn node_view(n: ThreadNode) -> TreeView
    decreases n, 1nat, 0nat,
{
    TreeView { email: n.email@, depth: n.depth as nat, children: nodes_view(n.children@, 0) }
}

pub open spec fn nodes_view(ns: Seq<ThreadNode>, k: int) -> Seq<TreeView>
    decreases ns, 0nat, ns.len() - k,
{
    if k < 0 || k >= ns.len() {
        Seq::empty()
    } else {
        seq![node_view(ns[k])] + nodes_view(ns, k + 1)
    }
}

pub proof fn lemma_nodes_view(ns: Seq<ThreadNode>, k: int)
    requires
        0 <= k <= ns.len(),
    ensures
        nodes_view(ns, k).len() == ns.len() - k,
        forall|m: int|
            0 <= m < ns.len() - k ==> nodes_view(ns, k)[m] == node_view(ns[k + m]),
    decreases ns.len() - k,
{
    if k < ns.len() {
        lemma_nodes_view(ns, k + 1);
    }
}

/// The index of the last message in `s` whose message id is `m`
/// (the lookup map is built front to back, so a later entry wins).
pub open spec fn lookup_spec(s: Seq<EmailView>, m: Seq<char>) -> Option<int>
    decreases s.len(),
{
    if s.len() == 0 {
        None
    } else if s.last().message_id == m {
        Some(s.len() - 1)
    } else {
        lookup_spec(s.drop_last(), m)
    }
}

pub proof fn lemma_lookup(s: Seq<EmailView>, m: Seq<char>)
    ensures
        match lookup_spec(s, m) {
            Some(i) => 0 <= i < s.len() && s[i].message_id == m && forall|k: int|
                i < k < s.len() ==> s[k].message_id != m,
            None => forall|k: int| 0 <= k < s.len() ==> s[k].message_id != m,
        },
    decreases s.len(),
{
    if s.len() > 0 && s.last().message_id != m {
        let d = s.drop_last();
        lemma_lookup(d, m);
        assert(forall|k: int| 0 <= k < s.len() - 1 ==> #[trigger] s[k] == d[k]);
        match lookup_spec(d, m) {
            Some(i) => {
                assert(s[i] == d[i]);
                assert forall|k: int| i < k < s.len() implies s[k].message_id != m by {
                    if k < s.len() - 1 {
                        assert(s[k] == d[k]);
                    }
                }
            },
            None => {
                assert forall|k: int| 0 <= k < s.len() implies s[k].message_id != m by {
                    if k < s.len() - 1 {
                        assert(s[k] == d[k]);
                    }
                }
            },
        }
    }
}

/// The index of the message a reply resolves to inside its own thread, if any.
pub open spec fn parent_spec(s: Seq<EmailView>, j: int) -> Option<int> {
    match s[j].in_reply_to {
        None => None,
        Some(m) => lookup_spec(s, m),
    }
}

/// A message is a root when it has no in-reply-to, or its in-reply-to does
/// not resolve to any message id in this thread.
pub open spec fn is_root(s: Seq<EmailView>, j: int) -> bool {
    parent_spec(s, j) is None
}

/// A path of indices from a root down to a node, following resolved parents.
pub open spec fn chain_ok(s: Seq<EmailView>, ch: Seq<int>) -> bool {
    &&& ch.len() >= 1
    &&& forall|k: int| 0 <= k < ch.len() ==> 0 <= #[trigger] ch[k] < s.len()
    &&& is_root(s, ch[0])
    &&& forall|k: int| 1 <= k < ch.len() ==> parent_spec(s, #[trigger] ch[k]) == Some(ch[k - 1])
    &&& ch.no_duplicates()
}

pub proof fn lemma_chain_len(s: Seq<EmailView>, ch: Seq<int>)
    requires
        chain_ok(s, ch),
    ensures
        ch.len() <= s.len(),
{
    ch.unique_seq_to_set();
    let range = set_int_range(0, s.len() as int);
    lemma_int_range(0, s.len() as int);
    assert(ch.to_set().subset_of(range)) by {
        assert forall|x: int| ch.to_set().contains(x) implies range.contains(x) by {
            let k = choose|k: int| 0 <= k < ch.len() && ch[k] == x;
        }
    }
    lemma_len_subset(ch.to_set(), range);
}

pub proof fn lemma_chain_extend(s: Seq<EmailView>, ch: Seq<int>, j: int)
    requires
        chain_ok(s, ch),
        0 <= j < s.len(),
        parent_spec(s, j) == Some(ch.last()),
    ensures
        chain_ok(s, ch.push(j)),
{
    let ch2 = ch.push(j);
    assert forall|t: int| 0 <= t < ch.len() implies ch[t] != j by {
        if ch[t] == j {
            if t == 0 {
                assert(is_root(s, j));
            } else {
                assert(parent_spec(s, ch[t]) == Some(ch[t - 1]));
                assert(ch[t - 1] == ch[ch.len() - 1]);
                assert(t - 1 == ch.len() - 1);
            }
        }
    }
    assert(ch2.no_duplicates());
    assert(ch2[0] == ch[0]);
    assert forall|k: int| 1 <= k < ch2.len() implies parent_spec(s, #[trigger] ch2[k]) == Some(
        ch2[k - 1],
    ) by {
        if k < ch.len() {
            assert(ch2[k] == ch[k] && ch2[k - 1] == ch[k - 1]);
        } else {
            assert(ch2[k] == j && ch2[k - 1] == ch.last());
        }
    }
}

/// The tree rooted at index `i`, whose children are, in chronological order,
/// the messages that resolve to `i` as their parent. `fuel` only serves
/// termination; it never runs out on reachable nodes.
pub open spec fn build_node_spec(s: Seq<EmailView>, i: int, depth: nat, fuel: nat) -> TreeView
    decreases fuel, 0nat,
{
    TreeView {
        email: s[i],
        depth,
        children: if fuel == 0 {
            Seq::empty()
        } else {
            build_kids(s, i, 0, depth + 1, (fuel - 1) as nat)
        },
    }
}

pub open spec fn build_kids(s: Seq<EmailView>, i: int, j: int, depth: nat, fuel: nat) -> Seq<
    TreeView,
>
    decreases fuel, s.len() - j,
{
    if j < 0 || j >= s.len() {
        Seq::empty()
    } else if parent_spec(s, j) == Some(i) {
        seq![build_node_spec(s, j, depth, fuel)] + build_kids(s, i, j + 1, depth, fuel)
    } else {
        build_kids(s, i, j + 1, depth, fuel)
    }
}

/// The forest of a thread: one tree per root message, in chronological order.
pub open spec fn build_roots(s: Seq<EmailView>, j: int) -> Seq<TreeView>
    decreases s.len() - j,
{
    if j < 0 || j >= s.len() {
        Seq::empty()
    } else if is_root(s, j) {
        seq![build_node_spec(s, j, 0, s.len() as nat)] + build_roots(s, j + 1)
    } else {
        build_roots(s, j + 1)
    }
}

pub open spec fn forest_spec(s: Seq<EmailView>) -> Seq<TreeView> {
    build_roots(s, 0)
}

/// Whether an executable parent entry denotes the same resolution as the spec.
pub open spec fn parent_entry_matches(o: Option<usize>, p: Option<int>) -> bool {
    match o {
        Some(u) => p == Some(u as int),
        None => p is None,
    }
}

/// Find the message a reply resolves to: the last index whose message id
/// equals `m`.
fn lookup_last(emails: &Vec<EmailMessage>, m: &str) -> (r: Option<usize>)
    ensures
        parent_entry_matches(r, lookup_spec(views_of(emails@), m@)),
{
    let ghost s = views_of(emails@);
    let mut r: Option<usize> = None;
    let mut k: usize = 0;
    while k < emails.len()
        invariant
            k <= emails.len(),
            s == views_of(emails@),
            s.len() == emails.len(),
            match r {
                Some(u) => u < k && s[u as int].message_id == m@ && forall|t: int|
                    u < t < k ==> s[t].message_id != m@,
                None => forall|t: int| 0 <= t < k ==> s[t].message_id != m@,
            },
        decreases emails.len() - k,
    {
        if str_eq(emails[k].message_id.as_str(), m) {
            r = Some(k);
        }
        k += 1;
    }
    proof {
        lemma_lookup(s, m@);
        match lookup_spec(s, m@) {
            Some(i) => {
                match r {
                    Some(u) => {
                        if i < u {
                            assert(s[u as int].message_id != m@);
                        } else if i > u {
                            assert(s[i].message_id != m@);
                        }
                    },
                    None => {
                        assert(s[i].message_id != m@);
                    },
                }
            },
            None => {
                match r {
                    Some(u) => {
                        assert(s[u as int].message_id != m@);
                    },
                    None => {},
                }
            },
        }
    }
    r
}

/// Resolve every message's parent index in one pass.
pub fn compute_parents(emails: &Vec<EmailMessage>) -> (r: Vec<Option<usize>>)
    ensures
        r.len() == emails.len(),
        forall|j: int|
            0 <= j < emails.len() ==> parent_entry_matches(
                #[trigger] r@[j],
                parent_spec(views_of(emails@), j),
            ),
{
    let ghost s = views_of(emails@);
    let mut r: Vec<Option<usize>> = Vec::new();
    let mut j: usize = 0;
    while j < emails.len()
        invariant
            j <= emails.len(),
            s == views_of(emails@),
            s.len() == emails.len(),
            r.len() == j,
            forall|t: int|
                0 <= t < j ==> parent_entry_matches(#[trigger] r@[t], parent_spec(s, t)),
        decreases emails.len() - j,
    {
        let e: Option<usize> = match &emails[j].in_reply_to {
            None => None,
            Some(m) => lookup_last(emails, m.as_str()),
        };
        proof {
            assert(s[j as int] == emails@[j as int]@);
        }
        r.push(e);
        j += 1;
    }
    r
}

/// Assemble the node for message `i`, recursively collecting the messages
/// that resolve to it, in chronological order, one depth further down.
fn build_node(
    emails: &Vec<EmailMessage>,
    parents: &Vec<Option<usize>>,
    i: usize,
    depth: usize,
    Ghost(ch): Ghost<Seq<int>>,
) -> (node: ThreadNode)
    requires
        parents.len() == emails.len(),
        forall|j: int|
            0 <= j < emails.len() ==> parent_entry_matches(
                #[trigger] parents@[j],
                parent_spec(views_of(emails@), j),
            ),
        i < emails.len(),
        chain_ok(views_of(emails@), ch),
        ch.last() == i as int,
        ch.len() == depth + 1,
    ensures
        node_view(node) == build_node_spec(
            views_of(emails@),
            i as int,
            depth as nat,
            (emails.len() - depth) as nat,
        ),
    decreases emails.len() - depth,
{
    let ghost s = views_of(emails@);
    proof {
        lemma_chain_len(s, ch);
    }
    let ghost fuel_kid = (emails.len() - depth - 1) as nat;
    let mut children: Vec<ThreadNode> = Vec::new();
    let mut j: usize = 0;
    while j < emails.len()
        invariant
            j <= emails.len(),
            s == views_of(emails@),
            s.len() == emails.len(),
            parents.len() == emails.len(),
            forall|t: int|
                0 <= t < emails.len() ==> parent_entry_matches(
                    #[trigger] parents@[t],
                    parent_spec(s, t),
                ),
            i < emails.len(),
            chain_ok(s, ch),
            ch.last() == i as int,
            ch.len() == depth + 1,
            depth < emails.len(),
            fuel_kid == (emails.len() - depth - 1) as nat,
            nodes_view(children@, 0) + build_kids(s, i as int, j as int, (depth + 1) as nat, fuel_kid)
                =~= build_kids(s, i as int, 0, (depth + 1) as nat, fuel_kid),
        decreases emails.len() - j,
    {
        let is_child = match parents[j] {
            Some(p) => p == i,
            None => false,
        };
        if is_child {
            proof {
                assert(parent_entry_matches(parents@[j as int], parent_spec(s, j as int)));
                assert(parent_spec(s, j as int) == Some(i as int));
                lemma_chain_extend(s, ch, j as int);
                lemma_chain_len(s, ch.push(j as int));
            }
            let ghost old_children = children@;
            let node = build_node(emails, parents, j, depth + 1, Ghost(ch.push(j as int)));
            children.push(node);
            proof {
                lemma_nodes_view(old_children, 0);
                lemma_nodes_view(children@, 0);
                assert(nodes_view(children@, 0) =~= nodes_view(old_children, 0).push(
                    node_view(node),
                ));
                assert(build_kids(s, i as int, j as int, (depth + 1) as nat, fuel_kid)
                    == seq![build_node_spec(s, j as int, (depth + 1) as nat, fuel_kid)]
                    + build_kids(s, i as int, j as int + 1, (depth + 1) as nat, fuel_kid));
            }
        } else {
            proof {
                assert(parent_entry_matches(parents@[j as int], parent_spec(s, j as int)));
                assert(parent_spec(s, j as int) != Some(i as int));
            }
        }
        j += 1;
    }
    let node = ThreadNode { email: emails[i].duplicate(), children, depth };
    proof {
        assert(build_kids(s, i as int, emails.len() as int, (depth + 1) as nat, fuel_kid)
            =~= Seq::<TreeView>::empty());
        assert(nodes_view(node.children@, 0) =~= build_kids(
            s,
            i as int,
            0,
            (depth + 1) as nat,
            fuel_kid,
        ));
        assert(node_view(node) == build_node_spec(s, i as int, depth as nat, (s.len() - depth) as nat));
    }
    node
}

/// Build the whole forest of a thread's messages: one tree per root, in
/// chronological order.
pub fn build_forest(emails: &Vec<EmailMessage>) -> (roots: Vec<ThreadNode>)
    ensures
        nodes_view(roots@, 0) == forest_spec(views_of(emails@)),
{
    let ghost s = views_of(emails@);
    let parents = compute_parents(emails);
    let mut roots: Vec<ThreadNode> = Vec::new();
    let mut j: usize = 0;
    while j < emails.len()
        invariant
            j <= emails.len(),
            s == views_of(emails@),
            s.len() == emails.len(),
            parents.len() == emails.len(),
            forall|t: int|
                0 <= t < emails.len() ==> parent_entry_matches(
                    #[trigger] parents@[t],
                    parent_spec(s, t),
                ),
            nodes_view(roots@, 0) + build_roots(s, j as int) =~= build_roots(s, 0),
        decreases emails.len() - j,
    {
        let is_r = match parents[j] {
            Some(_) => false,
            None => true,
        };
        if is_r {
            proof {
                assert(parent_entry_matches(parents@[j as int], parent_spec(s, j as int)));
                assert(is_root(s, j as int));
                let ch = seq![j as int];
                assert(ch.no_duplicates());
                assert(chain_ok(s, ch));
            }
            let ghost old_roots = roots@;
            let ghost ch0: Seq<int> = seq![j as int];
            let node = build_node(emails, &parents, j, 0, Ghost(ch0));
            roots.push(node);
            proof {
                lemma_nodes_view(old_roots, 0);
                lemma_nodes_view(roots@, 0);
                assert(nodes_view(roots@, 0) =~= nodes_view(old_roots, 0).push(node_view(node)));
            }
        } else {
            proof {
                assert(parent_entry_matches(parents@[j as int], parent_spec(s, j as int)));
                assert(!is_root(s, j as int));
            }
        }
        j += 1;
    }
    proof {
        assert(build_roots(s, emails.len() as int) =~= Seq::<TreeView>::empty());
        assert(nodes_view(roots@, 0) =~= forest_spec(s));
    }
    roots
}

} // verus!
