use vstd::prelude::*;
use vstd::seq_lib::*;
use indexmap::IndexMap;
use vstd::string::StringExecFns;
use crate::msg::{EmailMessage, EmailView, views_of, DateRange};
use crate::group::{
    group_spec, group_entries, entries_view, lemma_distinct_keys, lemma_sort_sorted, distinct_keys,
    filter_key, sort_chrono,
};
use crate::imap::{im_view, im_from_entries, im_get, im_len, im_keys};
use crate::tree::{ThreadTree, build_forest, forest_spec, nodes_view};
use crate::stats::{
    ThreadStats, get_unique_participants, participant_set, calculate_max_depth, count_branches,
    count_flags, tvs_max_depth, tvs_branch, count_forwards, count_replies, count_externals,
};
use crate::csvio::{parse_csv_data, LoadError, load_msgs, load_errs};

verus! {

broadcast use vstd::std_specs::vec::group_vec_axioms, vstd::seq::axiom_seq_index_decreases, vstd::set::group_set_axioms;

/// A tree or stats query named a thread id absent from the current grouping.
#[derive(Debug, Clone, Copy, PartialEq, Eq, Structural)]
pub struct ThreadNotFoundError;

/// The processor facade: the loaded batch and the current thread grouping.
pub struct EmailThreadProcessor {
    emails: Vec<EmailMessage>,
    threads: IndexMap<String, Vec<EmailMessage>>,
}

/// Everything a returned thread tree promises about the group `g` it was
/// built from.
pub open spec fn tree_matches(t: ThreadTree, tid: Seq<char>, g: Seq<EmailView>) -> bool {
    &&& t.thread_id@ == tid
    &&& t.total_emails == g.len()
    &&& nodes_view(t.roots@, 0) == forest_spec(g)
    &&& t.participants.deep_view().to_set() == participant_set(g)
    &&& t.participants.deep_view().no_duplicates()
    &&& g.len() > 0 ==> t.date_range.start == g[0].date_sent && t.date_range.end == g[g.len()
        - 1].date_sent
}

/// Everything a returned stats value promises about the group `g`.
pub open spec fn stats_match(st: ThreadStats, tid: Seq<char>, g: Seq<EmailView>) -> bool {
    &&& st.thread_id@ == tid
    &&& st.total_emails == g.len()
    &&& st.participants.deep_view().to_set() == participant_set(g)
    &&& st.participants.deep_view().no_duplicates()
    &&& st.participant_count == participant_set(g).len()
    &&& st.max_depth as nat == tvs_max_depth(forest_spec(g), 0)
    &&& st.branch_count as nat == tvs_branch(forest_spec(g), 0)
    &&& st.forward_count as nat == count_forwards(g)
    &&& st.reply_count as nat == count_replies(g)
    &&& st.external_count as nat == count_externals(g)
    &&& g.len() > 0 ==> st.date_range.start == g[0].date_sent && st.date_range.end == g[g.len()
        - 1].date_sent
}

impl EmailThreadProcessor {
    /// The mathematical value of the current grouping.
    pub closed spec fn threads_view(&self) -> Seq<(Seq<char>, Seq<EmailView>)> {
        im_view(self.threads)
    }

    /// The mathematical value of the loaded batch.
    pub closed spec fn emails_view(&self) -> Seq<EmailView> {
        views_of(self.emails@)
    }

    /// Structural soundness of the grouping: distinct thread ids, and no
    /// empty group.
    pub closed spec fn wf(&self) -> bool {
        &&& forall|a: int, b: int|
            0 <= a < b < self.threads_view().len() ==> self.threads_view()[a].0
                != self.threads_view()[b].0
        &&& forall|i: int|
            0 <= i < self.threads_view().len() ==> (#[trigger] self.threads_view()[i].1).len() >= 1
    }

    /// A processor with no batch loaded and no grouping.
    pub fn new() -> (r: EmailThreadProcessor)
        ensures
            r.wf(),
            r.emails_view().len() == 0,
            r.threads_view().len() == 0,
    {
        let entries: Vec<(String, Vec<EmailMessage>)> = Vec::new();
        proof {
            assert(entries_view(entries@) =~= Seq::<(Seq<char>, Seq<EmailView>)>::empty());
        }
        EmailThreadProcessor { emails: Vec::new(), threads: im_from_entries(entries) }
    }

    /// Load a batch of rows wholesale, replacing the current message list.
    /// Row failures are counted; more than five, or zero parsed rows, reject
    /// the batch and leave the previous state untouched. The grouping is
    /// never touched here.
    pub fn load_emails_from_csv(&mut self, csv_data: &str) -> (r: Result<usize, LoadError>)
        ensures
            final(self).threads_view() == old(self).threads_view(),
            old(self).wf() ==> final(self).wf(),
            match r {
                Ok(n) => {
                    &&& csv_data@.len() > 0
                    &&& load_errs(csv_data@) <= 5
                    &&& n == load_msgs(csv_data@).len()
                    &&& n > 0
                    &&& final(self).emails_view() == load_msgs(csv_data@)
                },
                Err(e) => {
                    &&& final(self).emails_view() == old(self).emails_view()
                    &&& match e {
                        LoadError::EmptyInput => csv_data@.len() == 0,
                        LoadError::BatchAbort { error_count } => csv_data@.len() > 0 && (load_errs(
                            csv_data@,
                        ) > 5 || load_msgs(csv_data@).len() == 0) && error_count as nat == load_errs(
                            csv_data@,
                        ),
                    }
                },
            },
    {
        match parse_csv_data(csv_data) {
            Ok(msgs) => {
                let n = msgs.len();
                self.emails = msgs;
                proof {
                    assert(self.threads == old(self).threads);
                    assert(self.threads_view() == old(self).threads_view());
                }
                Ok(n)
            },
            Err(e) => Err(e),
        }
    }

    /// Rebuild the thread grouping wholesale from the current message list:
    /// messages with an empty thread id are excluded; groups keep discovery
    /// order; each group is sorted by sent-timestamp, stable for ties.
    /// Returns the number of distinct thread ids found.
    pub fn group_by_threads(&mut self) -> (r: usize)
        ensures
            final(self).emails_view() == old(self).emails_view(),
            final(self).threads_view() == group_spec(old(self).emails_view()),
            r == group_spec(old(self).emails_view()).len(),
            final(self).wf(),
    {
        let ghost s = views_of(self.emails@);
        let entries = group_entries(&self.emails);
        let n = entries.len();
        proof {
            lemma_distinct_keys(s);
            assert(entries_view(entries@).len() == group_spec(s).len());
            assert forall|a: int, b: int|
                0 <= a < b < entries_view(entries@).len() implies entries_view(entries@)[a].0
                != entries_view(entries@)[b].0 by {
                assert(entries_view(entries@)[a].0 == distinct_keys(s)[a]);
                assert(entries_view(entries@)[b].0 == distinct_keys(s)[b]);
            }
        }
        self.threads = im_from_entries(entries);
        proof {
            assert forall|i: int|
                0 <= i < self.threads_view().len() implies (
            #[trigger] self.threads_view()[i].1).len() >= 1 by {
                assert(self.threads_view()[i].1 == sort_chrono(filter_key(s, distinct_keys(s)[i])));
                lemma_sort_sorted(filter_key(s, distinct_keys(s)[i]));
            }
        }
        n
    }

    /// The thread ids currently known, in discovery order.
    pub fn get_thread_ids(&self) -> (r: Vec<String>)
        ensures
            r.deep_view().len() == self.threads_view().len(),
            forall|i: int|
                0 <= i < self.threads_view().len() ==> #[trigger] r.deep_view()[i]
                    == self.threads_view()[i].0,
    {
        im_keys(&self.threads)
    }

    /// The number of loaded messages.
    pub fn get_email_count(&self) -> (r: usize)
        ensures
            r == self.emails_view().len(),
    {
        self.emails.len()
    }

    /// The number of threads in the current grouping.
    pub fn get_thread_count(&self) -> (r: usize)
        ensures
            r == self.threads_view().len(),
    {
        im_len(&self.threads)
    }

    /// Reconstruct one thread's reply forest, with participants and date
    /// range; an unknown thread id is an error.
    pub fn build_thread_tree(&self, thread_id: &str) -> (r: Result<ThreadTree, ThreadNotFoundError>)
        requires
            self.wf(),
        ensures
            match r {
                Ok(t) => exists|i: int|
                    0 <= i < self.threads_view().len() && #[trigger] self.threads_view()[i].0
                        == thread_id@ && tree_matches(t, thread_id@, self.threads_view()[i].1),
                Err(_) => forall|i: int|
                    0 <= i < self.threads_view().len() ==> #[trigger] self.threads_view()[i].0
                        != thread_id@,
            },
    {
        let emails = match im_get(&self.threads, thread_id) {
            Some(v) => v,
            None => {
                return Err(ThreadNotFoundError);
            },
        };
        let ghost w = choose|i: int|
            0 <= i < self.threads_view().len() && #[trigger] self.threads_view()[i].0 == thread_id@
                && self.threads_view()[i].1 == views_of(emails@);
        let ghost g = views_of(emails@);
        proof {
            assert(self.threads_view()[w].1.len() >= 1);
            assert(g.len() == emails@.len());
        }
        let roots = build_forest(emails);
        let participants = get_unique_participants(emails);
        let total = emails.len();
        proof {
            assert(g[0] == emails@[0]@);
            assert(g[g.len() - 1] == emails@[emails@.len() - 1]@);
        }
        let dr = DateRange {
            start: emails[0].date_sent,
            end: emails[emails.len() - 1].date_sent,
        };
        let t = ThreadTree {
            thread_id: String::from_str(thread_id),
            roots,
            total_emails: total,
            participants,
            date_range: dr,
        };
        proof {
            assert(tree_matches(t, thread_id@, self.threads_view()[w].1));
        }
        Ok(t)
    }

    /// Compute one thread's statistics: totals, participant count, maximum
    /// depth, fan-out weight, and per-category counts; an unknown thread id
    /// is an error.
    pub fn generate_thread_stats(&self, thread_id: &str) -> (r: Result<
        ThreadStats,
        ThreadNotFoundError,
    >)
        requires
            self.wf(),
        ensures
            match r {
                Ok(st) => exists|i: int|
                    0 <= i < self.threads_view().len() && #[trigger] self.threads_view()[i].0
                        == thread_id@ && stats_match(st, thread_id@, self.threads_view()[i].1),
                Err(_) => forall|i: int|
                    0 <= i < self.threads_view().len() ==> #[trigger] self.threads_view()[i].0
                        != thread_id@,
            },
    {
        let emails = match im_get(&self.threads, thread_id) {
            Some(v) => v,
            None => {
                return Err(ThreadNotFoundError);
            },
        };
        let ghost w = choose|i: int|
            0 <= i < self.threads_view().len() && #[trigger] self.threads_view()[i].0 == thread_id@
                && self.threads_view()[i].1 == views_of(emails@);
        let ghost g = views_of(emails@);
        proof {
            assert(self.threads_view()[w].1.len() >= 1);
        }
        let roots = build_forest(emails);
        let participants = get_unique_participants(emails);
        let participant_count = participants.len();
        let max_depth = calculate_max_depth(&roots);
        let branch_count = count_branches(&roots);
        let (forward_count, reply_count, external_count) = count_flags(emails);
        proof {
            participants.deep_view().unique_seq_to_set();
            assert(g[0] == emails@[0]@);
            assert(g[g.len() - 1] == emails@[emails@.len() - 1]@);
        }
        let dr = DateRange {
            start: emails[0].date_sent,
            end: emails[emails.len() - 1].date_sent,
        };
        let st = ThreadStats {
            thread_id: String::from_str(thread_id),
            total_emails: emails.len(),
            participants,
            participant_count,
            max_depth,
            branch_count,
            forward_count,
            reply_count,
            external_count,
            date_range: dr,
        };
        proof {
            assert(stats_match(st, thread_id@, self.threads_view()[w].1));
        }
        Ok(st)
    }
}

} // verus!
