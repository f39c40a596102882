use vstd::prelude::*;

verus! {

/// One parsed e-mail record. Timestamps are UTC instants in milliseconds
/// since the Unix epoch, as obtained from the date parser.
#[derive(Debug)]
pub struct EmailMessage {
    pub id: String,
    pub message_id: String,
    pub in_reply_to: Option<String>,
    pub references: Vec<String>,
    pub thread_id: String,
    pub from: String,
    pub to: Vec<String>,
    pub cc: Vec<String>,
    pub bcc: Vec<String>,
    pub subject: String,
    pub date_sent: i64,
    pub custodian: String,
    pub file_name: String,
    pub full_text: String,
    pub confidentiality: String,
    pub is_forward: bool,
    pub is_external: bool,
    pub beg_bates: String,
    pub end_bates: String,
    pub file_type: String,
    pub hash: String,
    pub native_link: String,
    pub author: String,
    pub title: String,
    pub date_created: i64,
    pub date_last_modified: i64,
}

/// The mathematical value of an `EmailMessage`.
pub ghost struct EmailView {
    pub id: Seq<char>,
    pub message_id: Seq<char>,
    pub in_reply_to: Option<Seq<char>>,
    pub references: Seq<Seq<char>>,
    pub thread_id: Seq<char>,
    pub from: Seq<char>,
    pub to: Seq<Seq<char>>,
    pub cc: Seq<Seq<char>>,
    pub bcc: Seq<Seq<char>>,
    pub subject: Seq<char>,
    pub date_sent: int,
    pub custodian: Seq<char>,
    pub file_name: Seq<char>,
    pub full_text: Seq<char>,
    pub confidentiality: Seq<char>,
    pub is_forward: bool,
    pub is_external: bool,
    pub beg_bates: Seq<char>,
    pub end_bates: Seq<char>,
    pub file_type: Seq<char>,
    pub hash: Seq<char>,
    pub native_link: Seq<char>,
    pub author: Seq<char>,
    pub title: Seq<char>,
    pub date_created: int,
    pub date_last_modified: int,
}

impl View for EmailMessage {
    type V = EmailView;

    open spec fn view(&self) -> EmailView {
        EmailView {
            id: self.id@,
            message_id: self.message_id@,
            in_reply_to: self.in_reply_to.deep_view(),
            references: self.references.deep_view(),
            thread_id: self.thread_id@,
            from: self.from@,
            to: self.to.deep_view(),
            cc: self.cc.deep_view(),
            bcc: self.bcc.deep_view(),
            subject: self.subject@,
            date_sent: self.date_sent as int,
            custodian: self.custodian@,
            file_name: self.file_name@,
            full_text: self.full_text@,
            confidentiality: self.confidentiality@,
            is_forward: self.is_forward,
            is_external: self.is_external,
            beg_bates: self.beg_bates@,
            end_bates: self.end_bates@,
            file_type: self.file_type@,
            hash: self.hash@,
            native_link: self.native_link@,
            author: self.author@,
            title: self.title@,
            date_created: self.date_created as int,
            date_last_modified: self.date_last_modified as int,
        }
    }
}

/// The views of a sequence of messages.
pub open spec fn views_of(s: Seq<EmailMessage>) -> Seq<EmailView> {
    s.map_values(|e: EmailMessage| e@)
}

/// Copy a vector of strings, preserving its mathematical value.
pub fn dup_strings(v: &Vec<String>) -> (r: Vec<String>)
    ensures
        r.deep_view() == v.deep_view(),
{
    let mut r: Vec<String> = Vec::new();
    let mut i: usize = 0;
    while i < v.len()
        invariant
            i <= v.len(),
            r@ =~= v@.subrange(0, i as int),
        decreases v.len() - i,
    {
        r.push(v[i].clone());
        i += 1;
    }
    proof {
        assert(r@ =~= v@);
    }
    r
}

/// Copy an optional string, preserving its mathematical value.
pub fn dup_opt_string(v: &Option<String>) -> (r: Option<String>)
    ensures
        r.deep_view() == v.deep_view(),
{
    match v {
        Some(s) => Some(s.clone()),
        None => None,
    }
}

impl EmailMessage {
    /// A copy of this message with the same mathematical value.
    pub fn duplicate(&self) -> (r: EmailMessage)
        ensures
            r@ == self@,
    {
        EmailMessage {
            id: self.id.clone(),
            message_id: self.message_id.clone(),
            in_reply_to: dup_opt_string(&self.in_reply_to),
            references: dup_strings(&self.references),
            thread_id: self.thread_id.clone(),
            from: self.from.clone(),
            to: dup_strings(&self.to),
            cc: dup_strings(&self.cc),
            bcc: dup_strings(&self.bcc),
            subject: self.subject.clone(),
            date_sent: self.date_sent,
            custodian: self.custodian.clone(),
            file_name: self.file_name.clone(),
            full_text: self.full_text.clone(),
            confidentiality: self.confidentiality.clone(),
            is_forward: self.is_forward,
            is_external: self.is_external,
            beg_bates: self.beg_bates.clone(),
            end_bates: self.end_bates.clone(),
            file_type: self.file_type.clone(),
            hash: self.hash.clone(),
            native_link: self.native_link.clone(),
            author: self.author.clone(),
            title: self.title.clone(),
            date_created: self.date_created,
            date_last_modified: self.date_last_modified,
        }
    }
}

/// The sent-timestamp range of a thread, in epoch milliseconds.
#[derive(Debug)]
pub struct DateRange {
    pub start: i64,
    pub end: i64,
}

/// One raw tabular row: the named string columns that the record parser reads.
#[derive(Debug)]
pub struct RawRecord {
    pub beg_bates: String,
    pub end_bates: String,
    pub custodian: String,
    pub from: String,
    pub to: String,
    pub cc: String,
    pub bcc: String,
    pub subject: String,
    pub date_sent: String,
    pub file_name: String,
    pub file_type: String,
    pub date_created: String,
    pub date_last_modified: String,
    pub title: String,
    pub author: String,
    pub confidentiality: String,
    pub hash: String,
    pub native_link: String,
    pub full_text: String,
    pub column_history: String,
}

/// The mathematical value of a `RawRecord`.
pub ghost struct RawRecordView {
    pub beg_bates: Seq<char>,
    pub end_bates: Seq<char>,
    pub custodian: Seq<char>,
    pub from: Seq<char>,
    pub to: Seq<char>,
    pub cc: Seq<char>,
    pub bcc: Seq<char>,
    pub subject: Seq<char>,
    pub date_sent: Seq<char>,
    pub file_name: Seq<char>,
    pub file_type: Seq<char>,
    pub date_created: Seq<char>,
    pub date_last_modified: Seq<char>,
    pub title: Seq<char>,
    pub author: Seq<char>,
    pub confidentiality: Seq<char>,
    pub hash: Seq<char>,
    pub native_link: Seq<char>,
    pub full_text: Seq<char>,
    pub column_history: Seq<char>,
}

impl View for RawRecord {
    type V = RawRecordView;

    open spec fn view(&self) -> RawRecordView {
        RawRecordView {
            beg_bates: self.beg_bates@,
            end_bates: self.end_bates@,
            custodian: self.custodian@,
            from: self.from@,
            to: self.to@,
            cc: self.cc@,
            bcc: self.bcc@,
            subject: self.subject@,
            date_sent: self.date_sent@,
            file_name: self.file_name@,
            file_type: self.file_type@,
            date_created: self.date_created@,
            date_last_modified: self.date_last_modified@,
            title: self.title@,
            author: self.author@,
            confidentiality: self.confidentiality@,
            hash: self.hash@,
            native_link: self.native_link@,
            full_text: self.full_text@,
            column_history: self.column_history@,
        }
    }
}

} // verus!
