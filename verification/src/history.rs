use vstd::prelude::*;
use vstd::string::StrSliceExecFns;
use crate::strutil::{str_eq, is_ws, is_ws_char, seg_end, lemma_seg_end, find_from};

verus! {

broadcast use vstd::std_specs::vec::group_vec_axioms, vstd::seq::axiom_seq_index_decreases;

/// The threading metadata carried by one packed history field.
#[derive(Debug)]
pub struct ThreadInfo {
    pub message_id: Option<String>,
    pub in_reply_to: Option<String>,
    pub references: Option<Vec<String>>,
    pub thread_id: Option<String>,
    pub is_forward: bool,
    pub is_external: bool,
}

/// The mathematical value of a `ThreadInfo`.
pub ghost struct HistView {
    pub message_id: Option<Seq<char>>,
    pub in_reply_to: Option<Seq<char>>,
    pub references: Option<Seq<Seq<char>>>,
    pub thread_id: Option<Seq<char>>,
    pub is_forward: bool,
    pub is_external: bool,
}

impl View for ThreadInfo {
    type V = HistView;

    open spec fn view(&self) -> HistView {
        HistView {
            message_id: self.message_id.deep_view(),
            in_reply_to: self.in_reply_to.deep_view(),
            references: self.references.deep_view(),
            thread_id: self.thread_id.deep_view(),
            is_forward: self.is_forward,
            is_external: self.is_external,
        }
    }
}

pub open spec fn hist_default() -> HistView {
    HistView {
        message_id: None,
        in_reply_to: None,
        references: None,
        thread_id: None,
        is_forward: false,
        is_external: false,
    }
}

/// The whitespace-separated words of `t`; `cur` is the word read so far.
pub open spec fn ws_tokens(t: Seq<char>, i: int, cur: Seq<char>) -> Seq<Seq<char>>
    decreases t.len() - i,
{
    if i < 0 || i >= t.len() {
        if cur.len() > 0 {
            seq![cur]
        } else {
            Seq::empty()
        }
    } else if is_ws(t[i]) {
        if cur.len() > 0 {
            seq![cur] + ws_tokens(t, i + 1, Seq::empty())
        } else {
            ws_tokens(t, i + 1, Seq::empty())
        }
    } else {
        ws_tokens(t, i + 1, cur.push(t[i]))
    }
}

pub open spec fn ws_split(t: Seq<char>) -> Seq<Seq<char>> {
    ws_tokens(t, 0, Seq::empty())
}

/// Split a string into its whitespace-separated words.
pub fn split_whitespace_words(t: &str) -> (r: Vec<String>)
    ensures
        r.deep_view() == ws_split(t@),
{
    let len = t.unicode_len();
    let mut r: Vec<String> = Vec::new();
    let mut i: usize = 0;
    let mut start: usize = 0;
    proof {
        assert(t@.subrange(0, 0) =~= Seq::<char>::empty());
        assert(r.deep_view() + ws_tokens(t@, 0, t@.subrange(0, 0)) =~= ws_split(t@));
    }
    // `start == i` exactly while no word is in progress
    while i < len
        invariant
            start <= i <= len,
            len == t@.len(),
            ws_split(t@) == r.deep_view() + ws_tokens(t@, i as int, t@.subrange(start as int, i as int)),
        decreases len - i,
    {
        let c = t.get_char(i);
        if is_ws_char(c) {
            if start < i {
                let ghost oldr = r.deep_view();
                let word = t.substring_char(start, i);
                r.push(word.to_owned());
                proof {
                    assert(r.deep_view() =~= oldr.push(t@.subrange(start as int, i as int)));
                    assert(ws_tokens(t@, i as int, t@.subrange(start as int, i as int)) == seq![
                        t@.subrange(start as int, i as int)
                    ] + ws_tokens(t@, i + 1 as int, Seq::empty()));
                    assert(r.deep_view() + ws_tokens(t@, i + 1 as int, Seq::empty()) =~= oldr
                        + ws_tokens(t@, i as int, t@.subrange(start as int, i as int)));
                }
            } else {
                proof {
                    assert(t@.subrange(start as int, i as int) =~= Seq::<char>::empty());
                }
            }
            start = i + 1;
            proof {
                assert(t@.subrange(start as int, i + 1 as int) =~= Seq::<char>::empty());
            }
        } else {
            proof {
                assert(t@.subrange(start as int, i + 1 as int) =~= t@.subrange(
                    start as int,
                    i as int,
                ).push(t@[i as int]));
            }
        }
        i += 1;
    }
    if start < len {
        let ghost oldr = r.deep_view();
        let word = t.substring_char(start, len);
        r.push(word.to_owned());
        proof {
            assert(r.deep_view() =~= oldr.push(t@.subrange(start as int, len as int)));
        }
    } else {
        proof {
            assert(t@.subrange(start as int, len as int) =~= Seq::<char>::empty());
        }
    }
    proof {
        assert(r.deep_view() =~= ws_split(t@));
    }
    r
}

/// Apply one pipe-delimited token to the metadata gathered so far.
pub open spec fn apply_token(info: HistView, t: Seq<char>) -> HistView {
    if t.len() >= 7 && t.subrange(0, 7) == "MSG-ID:"@ {
        HistView { message_id: Some(t.subrange(7, t.len() as int)), ..info }
    } else if t.len() >= 12 && t.subrange(0, 12) == "IN-REPLY-TO:"@ {
        HistView { in_reply_to: Some(t.subrange(12, t.len() as int)), ..info }
    } else if t.len() >= 5 && t.subrange(0, 5) == "REFS:"@ {
        let v = t.subrange(5, t.len() as int);
        if v == "<>"@ {
            info
        } else {
            HistView { references: Some(ws_split(v)), ..info }
        }
    } else if t.len() >= 7 && t.subrange(0, 7) == "THREAD:"@ {
        HistView { thread_id: Some(t.subrange(7, t.len() as int)), ..info }
    } else if t == "FWD:true"@ {
        HistView { is_forward: true, ..info }
    } else if t == "EXTERNAL:true"@ {
        HistView { is_external: true, ..info }
    } else {
        info
    }
}

/// Fold the remaining pipe-delimited tokens of `s`, starting at `start`.
pub open spec fn hist_from(s: Seq<char>, start: int, info: HistView) -> HistView
    decreases s.len() - start + 1,
    via hist_from_decreases
{
    if start < 0 || start > s.len() {
        info
    } else {
        let e = seg_end(s, start, '|');
        hist_from(s, e + 1, apply_token(info, s.subrange(start, e)))
    }
}

#[via_fn]
proof fn hist_from_decreases(s: Seq<char>, start: int, info: HistView) {
    if 0 <= start <= s.len() {
        lemma_seg_end(s, start, '|');
    }
}

/// The metadata of one packed history field: its pipe-delimited tokens
/// folded over the defaults; an empty field yields the defaults.
pub open spec fn history_spec(s: Seq<char>) -> HistView {
    if s.len() == 0 {
        hist_default()
    } else {
        hist_from(s, 0, hist_default())
    }
}

impl ThreadInfo {
    fn update_from_token(&mut self, s: &str, len: usize, ts: usize, te: usize)
        requires
            len == s@.len(),
            ts <= te <= len,
        ensures
            final(self)@ == apply_token(old(self)@, s@.subrange(ts as int, te as int)),
    {
        let ghost t = s@.subrange(ts as int, te as int);
        proof {
            assert(t.len() == te - ts);
            if te - ts >= 7 {
                assert(s@.subrange(ts as int, ts + 7 as int) =~= t.subrange(0, 7));
            }
            if te - ts >= 12 {
                assert(s@.subrange(ts as int, ts + 12 as int) =~= t.subrange(0, 12));
            }
            if te - ts >= 5 {
                assert(s@.subrange(ts as int, ts + 5 as int) =~= t.subrange(0, 5));
            }
        }
        if te - ts >= 7 && str_eq(s.substring_char(ts, ts + 7), "MSG-ID:") {
            let v = s.substring_char(ts + 7, te);
            self.message_id = Some(v.to_owned());
            proof {
                assert(s@.subrange(ts + 7 as int, te as int) =~= t.subrange(7, t.len() as int));
            }
        } else if te - ts >= 12 && str_eq(s.substring_char(ts, ts + 12), "IN-REPLY-TO:") {
            let v = s.substring_char(ts + 12, te);
            self.in_reply_to = Some(v.to_owned());
            proof {
                assert(s@.subrange(ts + 12 as int, te as int) =~= t.subrange(12, t.len() as int));
            }
        } else if te - ts >= 5 && str_eq(s.substring_char(ts, ts + 5), "REFS:") {
            let v = s.substring_char(ts + 5, te);
            proof {
                assert(s@.subrange(ts + 5 as int, te as int) =~= t.subrange(5, t.len() as int));
            }
            if !str_eq(v, "<>") {
                let words = split_whitespace_words(v);
                self.references = Some(words);
            }
        } else if te - ts >= 7 && str_eq(s.substring_char(ts, ts + 7), "THREAD:") {
            let v = s.substring_char(ts + 7, te);
            self.thread_id = Some(v.to_owned());
            proof {
                assert(s@.subrange(ts + 7 as int, te as int) =~= t.subrange(7, t.len() as int));
            }
        } else if str_eq(s.substring_char(ts, te), "FWD:true") {
            self.is_forward = true;
        } else if str_eq(s.substring_char(ts, te), "EXTERNAL:true") {
            self.is_external = true;
        }
    }
}

/// Parse one packed history field: a pipe-delimited sequence of tagged
/// tokens; unrecognized tokens are ignored; a later tag overwrites an
/// earlier one; absence of a tag leaves the default.
pub fn parse_column_history(s: &str) -> (r: ThreadInfo)
    ensures
        r@ == history_spec(s@),
{
    let mut info = ThreadInfo {
        message_id: None,
        in_reply_to: None,
        references: None,
        thread_id: None,
        is_forward: false,
        is_external: false,
    };
    let len = s.unicode_len();
    if len == 0 {
        return info;
    }
    let mut start: usize = 0;
    let mut done = false;
    while !done
        invariant
            len == s@.len(),
            !done ==> start <= len,
            !done ==> history_spec(s@) == hist_from(s@, start as int, info@),
            done ==> history_spec(s@) == info@,
        decreases (if done { 0int } else { len - start + 1 }),
    {
        let e = find_from(s, len, start, '|');
        proof {
            lemma_seg_end(s@, start as int, '|');
        }
        info.update_from_token(s, len, start, e);
        if e >= len {
            proof {
                assert(e == len);
                assert(hist_from(s@, e + 1 as int, info@) == info@);
            }
            done = true;
        } else {
            start = e + 1;
        }
    }
    info
}

} // verus!
