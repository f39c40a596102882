use vstd::prelude::*;
use vstd::string::StrSliceExecFns;
use crate::msg::{EmailMessage, EmailView, RawRecord, RawRecordView};
use crate::strutil::{trimmed, trim_str};
use crate::dates::{date_spec, parse_date};
use crate::history::{history_spec, parse_column_history, HistView};

verus! {

broadcast use vstd::std_specs::vec::group_vec_axioms, vstd::seq::axiom_seq_index_decreases;

/// The date column a row failed on.
#[derive(Debug, Clone, Copy, PartialEq, Eq, Structural)]
pub enum DateField {
    Sent,
    Created,
    Modified,
}

/// Why a single row was rejected; such failures are counted, not fatal for
/// the batch while under the threshold.
#[derive(Debug, Clone, Copy, PartialEq, Eq, Structural)]
pub enum RowParseError {
    InvalidDate(DateField),
    MissingColumn,
}

/// Flush of one comma-separated entry: trimmed, and dropped when empty.
pub open spec fn flush_entry(cur: Seq<char>) -> Seq<Seq<char>> {
    if trimmed(cur).len() > 0 {
        seq![trimmed(cur)]
    } else {
        Seq::empty()
    }
}

/// The comma-separated entries of `f` from `i` on, each trimmed, empties
/// dropped, order kept; `cur` is the entry read so far.
pub open spec fn recip_acc(f: Seq<char>, i: int, cur: Seq<char>) -> Seq<Seq<char>>
    decreases f.len() - i,
{
    if i < 0 || i >= f.len() {
        flush_entry(cur)
    } else if f[i] == ',' {
        flush_entry(cur) + recip_acc(f, i + 1, Seq::empty())
    } else {
        recip_acc(f, i + 1, cur.push(f[i]))
    }
}

/// The recipient list denoted by one comma-separated field.
pub open spec fn recipients_spec(f: Seq<char>) -> Seq<Seq<char>> {
    recip_acc(f, 0, Seq::empty())
}

/// Split a recipient field on commas, trimming entries and dropping empty
/// ones; order and duplicates are kept.
pub fn split_recipients(f: &str) -> (r: Vec<String>)
    ensures
        r.deep_view() == recipients_spec(f@),
{
    let len = f.unicode_len();
    let mut r: Vec<String> = Vec::new();
    let mut i: usize = 0;
    let mut start: usize = 0;
    proof {
        assert(f@.subrange(0, 0) =~= Seq::<char>::empty());
        assert(r.deep_view() + recip_acc(f@, 0, f@.subrange(0, 0)) =~= recipients_spec(f@));
    }
    while i < len
        invariant
            start <= i <= len,
            len == f@.len(),
            recipients_spec(f@) == r.deep_view() + recip_acc(
                f@,
                i as int,
                f@.subrange(start as int, i as int),
            ),
        decreases len - i,
    {
        let c = f.get_char(i);
        if c == ',' {
            let ghost cur = f@.subrange(start as int, i as int);
            let ghost oldr = r.deep_view();
            let piece = f.substring_char(start, i);
            let entry = trim_str(piece);
            if !entry.as_str().is_empty() {
                r.push(entry);
                proof {
                    assert(r.deep_view() =~= oldr.push(trimmed(cur)));
                    assert(r.deep_view() =~= oldr + flush_entry(cur));
                }
            } else {
                proof {
                    assert(flush_entry(cur) =~= Seq::<Seq<char>>::empty());
                    assert(r.deep_view() =~= oldr + flush_entry(cur));
                }
            }
            start = i + 1;
            proof {
                assert(f@.subrange(start as int, i + 1 as int) =~= Seq::<char>::empty());
                assert(r.deep_view() + recip_acc(f@, i + 1 as int, Seq::empty()) =~= oldr
                    + recip_acc(f@, i as int, cur));
            }
        } else {
            proof {
                assert(f@.subrange(start as int, i + 1 as int) =~= f@.subrange(
                    start as int,
                    i as int,
                ).push(f@[i as int]));
            }
        }
        i += 1;
    }
    let ghost cur = f@.subrange(start as int, len as int);
    let ghost oldr = r.deep_view();
    let piece = f.substring_char(start, len);
    let entry = trim_str(piece);
    if !entry.as_str().is_empty() {
        r.push(entry);
        proof {
            assert(r.deep_view() =~= oldr.push(trimmed(cur)));
            assert(r.deep_view() =~= oldr + flush_entry(cur));
        }
    } else {
        proof {
            assert(flush_entry(cur) =~= Seq::<Seq<char>>::empty());
            assert(r.deep_view() =~= oldr + flush_entry(cur));
        }
    }
    proof {
        assert(r.deep_view() =~= recipients_spec(f@));
    }
    r
}

pub open spec fn opt_or_empty(o: Option<Seq<char>>) -> Seq<char> {
    match o {
        Some(x) => x,
        None => Seq::empty(),
    }
}

/// The message a raw row denotes, once its three dates parsed.
pub open spec fn email_of(r: RawRecordView, ds: i64, dc: i64, dm: i64) -> EmailView {
    let h = history_spec(r.column_history);
    EmailView {
        id: r.beg_bates,
        message_id: opt_or_empty(h.message_id),
        in_reply_to: h.in_reply_to,
        references: match h.references {
            Some(x) => x,
            None => Seq::empty(),
        },
        thread_id: opt_or_empty(h.thread_id),
        from: r.from,
        to: recipients_spec(r.to),
        cc: recipients_spec(r.cc),
        bcc: recipients_spec(r.bcc),
        subject: r.subject,
        date_sent: ds as int,
        custodian: r.custodian,
        file_name: r.file_name,
        full_text: r.full_text,
        confidentiality: r.confidentiality,
        is_forward: h.is_forward,
        is_external: h.is_external,
        beg_bates: r.beg_bates,
        end_bates: r.end_bates,
        file_type: r.file_type,
        hash: r.hash,
        native_link: r.native_link,
        author: r.author,
        title: r.title,
        date_created: dc as int,
        date_last_modified: dm as int,
    }
}

/// What parsing one raw row yields: a message, or the first failing date
/// field, checked in the order sent, created, last-modified.
pub open spec fn parse_record_spec(r: RawRecordView) -> Result<EmailView, RowParseError> {
    match date_spec(r.date_sent) {
        None => Err(RowParseError::InvalidDate(DateField::Sent)),
        Some(ds) => match date_spec(r.date_created) {
            None => Err(RowParseError::InvalidDate(DateField::Created)),
            Some(dc) => match date_spec(r.date_last_modified) {
                None => Err(RowParseError::InvalidDate(DateField::Modified)),
                Some(dm) => Ok(email_of(r, ds, dc, dm)),
            },
        },
    }
}

/// Parse one raw tabular row into a normalized message: resolve its three
/// date fields, split its recipient lists, and extract the threading
/// metadata from the packed history field. The emitted `id` is the row's
/// begin-bates value.
pub fn parse_csv_record(record: RawRecord) -> (r: Result<EmailMessage, RowParseError>)
    ensures
        match r {
            Ok(m) => parse_record_spec(record@) == Ok::<EmailView, RowParseError>(m@),
            Err(e) => parse_record_spec(record@) == Err::<EmailView, RowParseError>(e),
        },
{
    let ghost rv = record@;
    let hist = parse_column_history(record.column_history.as_str());
    let ghost hv = hist@;
    proof {
        assert(hv == history_spec(rv.column_history));
    }
    let ds = match parse_date(record.date_sent.as_str()) {
        Some(t) => t,
        None => {
            return Err(RowParseError::InvalidDate(DateField::Sent));
        },
    };
    let dc = match parse_date(record.date_created.as_str()) {
        Some(t) => t,
        None => {
            return Err(RowParseError::InvalidDate(DateField::Created));
        },
    };
    let dm = match parse_date(record.date_last_modified.as_str()) {
        Some(t) => t,
        None => {
            return Err(RowParseError::InvalidDate(DateField::Modified));
        },
    };
    let to = split_recipients(record.to.as_str());
    let cc = split_recipients(record.cc.as_str());
    let bcc = split_recipients(record.bcc.as_str());
    let msg = EmailMessage {
        id: record.beg_bates.clone(),
        message_id: match hist.message_id {
            Some(m) => m,
            None => String::new(),
        },
        in_reply_to: hist.in_reply_to,
        references: match hist.references {
            Some(x) => x,
            None => Vec::new(),
        },
        thread_id: match hist.thread_id {
            Some(t) => t,
            None => String::new(),
        },
        from: record.from,
        to,
        cc,
        bcc,
        subject: record.subject,
        date_sent: ds,
        custodian: record.custodian,
        file_name: record.file_name,
        full_text: record.full_text,
        confidentiality: record.confidentiality,
        is_forward: hist.is_forward,
        is_external: hist.is_external,
        beg_bates: record.beg_bates,
        end_bates: record.end_bates,
        file_type: record.file_type,
        hash: record.hash,
        native_link: record.native_link,
        author: record.author,
        title: record.title,
        date_created: dc,
        date_last_modified: dm,
    };
    proof {
        let e = email_of(rv, ds, dc, dm);
        assert(msg@.message_id == e.message_id);
        assert(msg@.in_reply_to == e.in_reply_to);
        assert(msg@.references == e.references);
        assert(msg@.thread_id == e.thread_id);
        assert(msg@.to == e.to);
        assert(msg@.cc == e.cc);
        assert(msg@.bcc == e.bcc);
        assert(msg@ == e);
    }
    Ok(msg)
}

} // verus!
