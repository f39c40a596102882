use vstd::prelude::*;
use crate::msg::{EmailMessage, EmailView, RawRecord, RawRecordView, views_of};
use crate::strutil::str_eq;
use crate::parser::{parse_record_spec, parse_csv_record};

verus! {

broadcast use vstd::std_specs::vec::group_vec_axioms, vstd::seq::axiom_seq_index_decreases;

/// Why a whole load call failed.
#[derive(Debug, Clone, Copy, PartialEq, Eq, Structural)]
pub enum LoadError {
    /// No data was supplied at all.
    EmptyInput,
    /// More than five rows failed, or no row parsed; the batch is rejected
    /// and the previous state is kept.
    BatchAbort { error_count: usize },
}

/// The fields of the header row of a tabular export text, if it has one.
pub uninterp spec fn csv_header_fields(s: Seq<char>) -> Option<Seq<Seq<char>>>;

/// The fields of each data row of a tabular export text, in order; an
/// unreadable row is nothing.
pub uninterp spec fn csv_row_fields(s: Seq<char>) -> Seq<Option<Seq<Seq<char>>>>;

/// Relies on csv::Reader::from_reader and csv::Reader::headers over an
/// in-memory buffer: the header row's fields are a function of the input
/// text alone.
#[verifier::external_body]
fn read_csv_headers(data: &str) -> (r: Option<Vec<String>>)
    ensures
        r.deep_view() == csv_header_fields(data@),
{
    let mut rdr = csv::Reader::from_reader(data.as_bytes());
    match rdr.headers() {
        Ok(h) => Some(h.iter().map(|f| f.to_string()).collect()),
        Err(_) => None,
    }
}

/// Relies on csv::Reader::from_reader and csv::Reader::records over an
/// in-memory buffer: the data rows and their fields are a function of the
/// input text alone.
#[verifier::external_body]
fn read_csv_rows(data: &str) -> (r: Vec<Option<Vec<String>>>)
    ensures
        r.deep_view() == csv_row_fields(data@),
{
    let mut rdr = csv::Reader::from_reader(data.as_bytes());
    rdr.records().map(
        |res: Result<csv::StringRecord, csv::Error>| match res {
            Ok(rec) => Some(rec.iter().map(|f| f.to_string()).collect()),
            Err(_) => None,
        },
    ).collect()
}

/// The first column whose header is `name`, or -1.
pub open spec fn find_col_spec(h: Seq<Seq<char>>, name: Seq<char>) -> int
    decreases h.len(),
{
    if h.len() == 0 {
        -1
    } else {
        let r = find_col_spec(h.drop_last(), name);
        if r != -1 {
            r
        } else if h.last() == name {
            h.len() - 1
        } else {
            -1
        }
    }
}

pub proof fn lemma_find_col(h: Seq<Seq<char>>, name: Seq<char>)
    ensures
        ({
            let r = find_col_spec(h, name);
            if r == -1 {
                forall|i: int| 0 <= i < h.len() ==> h[i] != name
            } else {
                0 <= r < h.len() && h[r] == name && forall|i: int| 0 <= i < r ==> h[i] != name
            }
        }),
    decreases h.len(),
{
    if h.len() > 0 {
        let d = h.drop_last();
        lemma_find_col(d, name);
        assert(forall|i: int| 0 <= i < h.len() - 1 ==> #[trigger] h[i] == d[i]);
    }
}

/// Find a column by header name: the first match, if any.
fn find_col(headers: &Vec<String>, name: &str) -> (r: Option<usize>)
    ensures
        match r {
            Some(c) => find_col_spec(headers.deep_view(), name@) == c as int,
            None => find_col_spec(headers.deep_view(), name@) == -1,
        },
{
    let ghost h = headers.deep_view();
    let mut k: usize = 0;
    while k < headers.len()
        invariant
            k <= headers.len(),
            h == headers.deep_view(),
            h.len() == headers.len(),
            forall|t: int| 0 <= t < k ==> h[t] != name@,
        decreases headers.len() - k,
    {
        if str_eq(headers[k].as_str(), name) {
            proof {
                assert(h[k as int] == name@);
                lemma_find_col(h, name@);
                let r = find_col_spec(h, name@);
                if r == -1 {
                    assert(h[k as int] != name@);
                } else {
                    if r < k {
                        assert(h[r] != name@);
                    } else if r > k {
                        assert(h[k as int] != name@);
                    }
                }
            }
            return Some(k);
        }
        k += 1;
    }
    proof {
        lemma_find_col(h, name@);
        let r = find_col_spec(h, name@);
        if r != -1 {
            assert(h[r] != name@);
        }
    }
    None
}

/// A required column's value in a row, if the column exists and the row is
/// long enough.
pub open spec fn req_field_spec(h: Seq<Seq<char>>, row: Seq<Seq<char>>, name: Seq<char>) -> Option<
    Seq<char>,
> {
    let c = find_col_spec(h, name);
    if c == -1 || c >= row.len() {
        None
    } else {
        Some(row[c])
    }
}

/// An optional column's value in a row; absence yields the empty string.
pub open spec fn opt_field_spec(h: Seq<Seq<char>>, row: Seq<Seq<char>>, name: Seq<char>) -> Seq<
    char,
> {
    match req_field_spec(h, row, name) {
        Some(v) => v,
        None => Seq::empty(),
    }
}

fn req_field(headers: &Vec<String>, row: &Vec<String>, name: &str) -> (r: Option<String>)
    ensures
        r.deep_view() == req_field_spec(headers.deep_view(), row.deep_view(), name@),
{
    match find_col(headers, name) {
        Some(c) => {
            if c < row.len() {
                proof {
                    assert(row.deep_view()[c as int] == row@[c as int]@);
                }
                Some(row[c].clone())
            } else {
                None
            }
        },
        None => None,
    }
}

fn opt_field(headers: &Vec<String>, row: &Vec<String>, name: &str) -> (r: String)
    ensures
        r@ == opt_field_spec(headers.deep_view(), row.deep_view(), name@),
{
    match req_field(headers, row, name) {
        Some(v) => v,
        None => String::new(),
    }
}

/// The value of `o`, with the empty string for absence; only applied where
/// presence was already established.
pub open spec fn uw(o: Option<Seq<char>>) -> Seq<char> {
    match o {
        Some(x) => x,
        None => Seq::empty(),
    }
}

/// The raw record a row denotes under the given headers: every required
/// column must be present; `CC` and `BCC` default to empty.
pub open spec fn row_record_spec(h: Seq<Seq<char>>, row: Seq<Seq<char>>) -> Option<RawRecordView> {
    if req_field_spec(h, row, "BegBates"@) is None || req_field_spec(h, row, "EndBates"@) is None
        || req_field_spec(h, row, "Custodian"@) is None || req_field_spec(h, row, "From"@) is None
        || req_field_spec(h, row, "To"@) is None || req_field_spec(h, row, "Subject"@) is None
        || req_field_spec(h, row, "DateSent"@) is None || req_field_spec(h, row, "FileName"@) is None
        || req_field_spec(h, row, "FileType"@) is None || req_field_spec(
        h,
        row,
        "DateCreated"@,
    ) is None || req_field_spec(h, row, "DateLastModified"@) is None || req_field_spec(
        h,
        row,
        "Title"@,
    ) is None || req_field_spec(h, row, "author"@) is None || req_field_spec(
        h,
        row,
        "Confidentiality"@,
    ) is None || req_field_spec(h, row, "Hash"@) is None || req_field_spec(
        h,
        row,
        "nativelink"@,
    ) is None || req_field_spec(h, row, "FullText"@) is None || req_field_spec(
        h,
        row,
        "column_history"@,
    ) is None {
        None
    } else {
        Some(
            RawRecordView {
                beg_bates: uw(req_field_spec(h, row, "BegBates"@)),
                end_bates: uw(req_field_spec(h, row, "EndBates"@)),
                custodian: uw(req_field_spec(h, row, "Custodian"@)),
                from: uw(req_field_spec(h, row, "From"@)),
                to: uw(req_field_spec(h, row, "To"@)),
                cc: opt_field_spec(h, row, "CC"@),
                bcc: opt_field_spec(h, row, "BCC"@),
                subject: uw(req_field_spec(h, row, "Subject"@)),
                date_sent: uw(req_field_spec(h, row, "DateSent"@)),
                file_name: uw(req_field_spec(h, row, "FileName"@)),
                file_type: uw(req_field_spec(h, row, "FileType"@)),
                date_created: uw(req_field_spec(h, row, "DateCreated"@)),
                date_last_modified: uw(req_field_spec(h, row, "DateLastModified"@)),
                title: uw(req_field_spec(h, row, "Title"@)),
                author: uw(req_field_spec(h, row, "author"@)),
                confidentiality: uw(req_field_spec(h, row, "Confidentiality"@)),
                hash: uw(req_field_spec(h, row, "Hash"@)),
                native_link: uw(req_field_spec(h, row, "nativelink"@)),
                full_text: uw(req_field_spec(h, row, "FullText"@)),
                column_history: uw(req_field_spec(h, row, "column_history"@)),
            },
        )
    }
}

/// Assemble one raw record from a row, under the given headers.
fn build_raw_record(headers: &Vec<String>, row: &Vec<String>) -> (r: Option<RawRecord>)
    ensures
        match r {
            Some(rr) => row_record_spec(headers.deep_view(), row.deep_view()) == Some(rr@),
            None => row_record_spec(headers.deep_view(), row.deep_view()) is None,
        },
{
    let beg_bates = match req_field(headers, row, "BegBates") {
        Some(v) => v,
        None => {
            return None;
        },
    };
    let end_bates = match req_field(headers, row, "EndBates") {
        Some(v) => v,
        None => {
            return None;
        },
    };
    let custodian = match req_field(headers, row, "Custodian") {
        Some(v) => v,
        None => {
            return None;
        },
    };
    let from = match req_field(headers, row, "From") {
        Some(v) => v,
        None => {
            return None;
        },
    };
    let to = match req_field(headers, row, "To") {
        Some(v) => v,
        None => {
            return None;
        },
    };
    let subject = match req_field(headers, row, "Subject") {
        Some(v) => v,
        None => {
            return None;
        },
    };
    let date_sent = match req_field(headers, row, "DateSent") {
        Some(v) => v,
        None => {
            return None;
        },
    };
    let file_name = match req_field(headers, row, "FileName") {
        Some(v) => v,
        None => {
            return None;
        },
    };
    let file_type = match req_field(headers, row, "FileType") {
        Some(v) => v,
        None => {
            return None;
        },
    };
    let date_created = match req_field(headers, row, "DateCreated") {
        Some(v) => v,
        None => {
            return None;
        },
    };
    let date_last_modified = match req_field(headers, row, "DateLastModified") {
        Some(v) => v,
        None => {
            return None;
        },
    };
    let title = match req_field(headers, row, "Title") {
        Some(v) => v,
        None => {
            return None;
        },
    };
    let author = match req_field(headers, row, "author") {
        Some(v) => v,
        None => {
            return None;
        },
    };
    let confidentiality = match req_field(headers, row, "Confidentiality") {
        Some(v) => v,
        None => {
            return None;
        },
    };
    let hash = match req_field(headers, row, "Hash") {
        Some(v) => v,
        None => {
            return None;
        },
    };
    let native_link = match req_field(headers, row, "nativelink") {
        Some(v) => v,
        None => {
            return None;
        },
    };
    let full_text = match req_field(headers, row, "FullText") {
        Some(v) => v,
        None => {
            return None;
        },
    };
    let column_history = match req_field(headers, row, "column_history") {
        Some(v) => v,
        None => {
            return None;
        },
    };
    let cc = opt_field(headers, row, "CC");
    let bcc = opt_field(headers, row, "BCC");
    Some(
        RawRecord {
            beg_bates,
            end_bates,
            custodian,
            from,
            to,
            cc,
            bcc,
            subject,
            date_sent,
            file_name,
            file_type,
            date_created,
            date_last_modified,
            title,
            author,
            confidentiality,
            hash,
            native_link,
            full_text,
            column_history,
        },
    )
}

/// What one raw row yields: a message, or nothing when the row was
/// unreadable, missed a required column, or failed field validation.
pub open spec fn row_outcome(h: Seq<Seq<char>>, ro: Option<Seq<Seq<char>>>) -> Option<EmailView> {
    match ro {
        None => None,
        Some(fields) => match row_record_spec(h, fields) {
            None => None,
            Some(rr) => match parse_record_spec(rr) {
                Ok(ev) => Some(ev),
                Err(_) => None,
            },
        },
    }
}

/// The successfully parsed messages of a batch, in row order.
pub open spec fn fold_msgs(h: Seq<Seq<char>>, rows: Seq<Option<Seq<Seq<char>>>>) -> Seq<EmailView>
    decreases rows.len(),
{
    if rows.len() == 0 {
        Seq::empty()
    } else {
        let m = fold_msgs(h, rows.drop_last());
        match row_outcome(h, rows.last()) {
            Some(ev) => m.push(ev),
            None => m,
        }
    }
}

/// The number of failed rows of a batch.
pub open spec fn fold_errs(h: Seq<Seq<char>>, rows: Seq<Option<Seq<Seq<char>>>>) -> nat
    decreases rows.len(),
{
    if rows.len() == 0 {
        0
    } else {
        fold_errs(h, rows.drop_last()) + if row_outcome(h, rows.last()) is None {
            1nat
        } else {
            0nat
        }
    }
}

/// A batch of N rows of which K fail yields exactly N - K messages: the
/// parsed messages and the counted failures account for every row.
pub proof fn lemma_fold_bounds(h: Seq<Seq<char>>, rows: Seq<Option<Seq<Seq<char>>>>)
    ensures
        fold_errs(h, rows) + fold_msgs(h, rows).len() == rows.len(),
    decreases rows.len(),
{
    if rows.len() > 0 {
        lemma_fold_bounds(h, rows.drop_last());
    }
}

/// The headers a batch is read under; a missing header row behaves as an
/// empty one (every required column is then missing).
pub open spec fn headers_of(data: Seq<char>) -> Seq<Seq<char>> {
    match csv_header_fields(data) {
        Some(h) => h,
        None => Seq::empty(),
    }
}

/// The messages a load of `data` yields.
pub open spec fn load_msgs(data: Seq<char>) -> Seq<EmailView> {
    fold_msgs(headers_of(data), csv_row_fields(data))
}

/// The number of row failures a load of `data` counts.
pub open spec fn load_errs(data: Seq<char>) -> nat {
    fold_errs(headers_of(data), csv_row_fields(data))
}

/// Parse a whole tabular export text into messages, counting failed rows.
/// Empty input, more than five failures, or zero parsed rows reject the
/// batch.
pub fn parse_csv_data(data: &str) -> (r: Result<Vec<EmailMessage>, LoadError>)
    ensures
        match r {
            Ok(msgs) => data@.len() > 0 && load_errs(data@) <= 5 && msgs@.len() > 0 && views_of(
                msgs@,
            ) == load_msgs(data@),
            Err(e) => match e {
                LoadError::EmptyInput => data@.len() == 0,
                LoadError::BatchAbort { error_count } => data@.len() > 0 && (load_errs(data@) > 5
                    || load_msgs(data@).len() == 0) && error_count as nat == load_errs(data@),
            },
        },
{
    if data.is_empty() {
        return Err(LoadError::EmptyInput);
    }
    let ghost hv = headers_of(data@);
    let headers = match read_csv_headers(data) {
        Some(h) => h,
        None => Vec::new(),
    };
    proof {
        if csv_header_fields(data@) is None {
            assert(headers.deep_view() =~= hv);
        }
    }
    let rows = read_csv_rows(data);
    let ghost rseq = rows.deep_view();
    let mut msgs: Vec<EmailMessage> = Vec::new();
    let mut errs: usize = 0;
    let mut i: usize = 0;
    while i < rows.len()
        invariant
            i <= rows.len(),
            headers.deep_view() == hv,
            rseq == rows.deep_view(),
            rseq.len() == rows.len(),
            errs <= i,
            views_of(msgs@) =~= fold_msgs(hv, rseq.take(i as int)),
            errs as nat == fold_errs(hv, rseq.take(i as int)),
        decreases rows.len() - i,
    {
        proof {
            assert(rseq.take(i + 1 as int).drop_last() =~= rseq.take(i as int));
            assert(rseq.take(i + 1 as int).last() == rseq[i as int]);
            assert(rseq[i as int] == rows@[i as int].deep_view());
        }
        let ghost oldmsgs = msgs@;
        match &rows[i] {
            None => {
                errs += 1;
            },
            Some(fields) => {
                match build_raw_record(&headers, fields) {
                    None => {
                        errs += 1;
                    },
                    Some(rr) => {
                        match parse_csv_record(rr) {
                            Ok(m) => {
                                msgs.push(m);
                                proof {
                                    assert(views_of(msgs@) =~= views_of(oldmsgs).push(m@));
                                }
                            },
                            Err(_) => {
                                errs += 1;
                            },
                        }
                    },
                }
            },
        }
        i += 1;
    }
    proof {
        assert(rseq.take(rows.len() as int) =~= rseq);
        lemma_fold_bounds(hv, rseq);
    }
    if errs > 5 {
        return Err(LoadError::BatchAbort { error_count: errs });
    }
    if msgs.len() == 0 {
        return Err(LoadError::BatchAbort { error_count: errs });
    }
    Ok(msgs)
}

} // verus!
