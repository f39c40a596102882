use email_threads::processor::EmailThreadProcessor;
use email_threads::tree::ThreadNode;

const HDR: &str = "BegBates,EndBates,Custodian,From,To,CC,BCC,Subject,DateSent,FileName,FileType,DateCreated,DateLastModified,Title,author,Confidentiality,Hash,nativelink,FullText,column_history";

fn row(bates: &str, from: &str, to: &str, cc: &str, bcc: &str, date: &str, hist: &str) -> String {
    let cols = [
        bates, bates, "cust", from, to, cc, bcc, "subj", date, "msg.eml", "email", date, date,
        "title", "auth", "conf", "hash", "link", "body", hist,
    ];
    cols.iter().map(|c| format!("\"{}\"", c)).collect::<Vec<_>>().join(",")
}

fn csv_of(rows: &[String]) -> String {
    let mut s = String::from(HDR);
    for r in rows {
        s.push('\n');
        s.push_str(r);
    }
    s
}

fn date(n: usize) -> String {
    format!("2024-01-02T03:04:0{}Z", n)
}

#[test]
fn load_counts_messages() {
    let mut p = EmailThreadProcessor::new();
    let data = csv_of(&[
        row("B1", "a@x", "b@y", "", "", &date(1), "MSG-ID:m1|THREAD:t1"),
        row("B2", "a@x", "b@y", "", "", &date(2), "MSG-ID:m2|THREAD:t1"),
    ]);
    assert_eq!(p.load_emails_from_csv(&data), Ok(2));
    assert_eq!(p.get_email_count(), 2);
}

#[test]
fn load_empty_input_is_error() {
    let mut p = EmailThreadProcessor::new();
    assert!(p.load_emails_from_csv("").is_err());
}

#[test]
fn load_tolerates_up_to_five_bad_rows() {
    let mut p = EmailThreadProcessor::new();
    let mut rows = Vec::new();
    for i in 1..=5 {
        rows.push(row(&format!("B{}", i), "a@x", "b@y", "", "", "bad-date", "THREAD:t1"));
    }
    for i in 6..=8 {
        rows.push(row(&format!("B{}", i), "a@x", "b@y", "", "", &date(3), "THREAD:t1"));
    }
    // 8 rows, 5 malformed: the load succeeds with exactly 3 messages
    assert_eq!(p.load_emails_from_csv(&csv_of(&rows)), Ok(3));
    assert_eq!(p.get_email_count(), 3);
}

#[test]
fn load_aborts_over_threshold_and_keeps_state() {
    let mut p = EmailThreadProcessor::new();
    let good = csv_of(&[row("B1", "a@x", "b@y", "", "", &date(1), "MSG-ID:m1|THREAD:t1")]);
    assert_eq!(p.load_emails_from_csv(&good), Ok(1));
    let mut rows = Vec::new();
    for i in 1..=6 {
        rows.push(row(&format!("C{}", i), "a@x", "b@y", "", "", "bad-date", "THREAD:t2"));
    }
    rows.push(row("C7", "a@x", "b@y", "", "", &date(2), "THREAD:t2"));
    // 6 failures: the whole batch is rejected, the earlier state stays
    assert!(p.load_emails_from_csv(&csv_of(&rows)).is_err());
    assert_eq!(p.get_email_count(), 1);
}

#[test]
fn load_zero_valid_rows_is_error() {
    let mut p = EmailThreadProcessor::new();
    let data = csv_of(&[]);
    assert!(p.load_emails_from_csv(&data).is_err());
}

#[test]
fn grouping_counts_and_excludes_empty_thread_ids() {
    let mut p = EmailThreadProcessor::new();
    let data = csv_of(&[
        row("B1", "a@x", "b@y", "", "", &date(1), "MSG-ID:m1|THREAD:t1"),
        row("B2", "a@x", "b@y", "", "", &date(2), "MSG-ID:m2|THREAD:t2"),
        row("B3", "a@x", "b@y", "", "", &date(3), "MSG-ID:m3"),
    ]);
    p.load_emails_from_csv(&data).unwrap();
    assert_eq!(p.group_by_threads(), 2);
    assert_eq!(p.get_thread_count(), 2);
    assert_eq!(p.get_thread_ids(), vec!["t1".to_string(), "t2".to_string()]);
}

#[test]
fn grouping_is_idempotent() {
    let mut p = EmailThreadProcessor::new();
    let data = csv_of(&[
        row("B1", "a@x", "b@y", "", "", &date(3), "MSG-ID:m1|THREAD:t2"),
        row("B2", "a@x", "b@y", "", "", &date(1), "MSG-ID:m2|THREAD:t1"),
        row("B3", "a@x", "b@y", "", "", &date(2), "MSG-ID:m3|THREAD:t2"),
    ]);
    p.load_emails_from_csv(&data).unwrap();
    p.group_by_threads();
    let ids1 = p.get_thread_ids();
    let t1 = p.build_thread_tree("t2").unwrap();
    p.group_by_threads();
    let ids2 = p.get_thread_ids();
    let t2 = p.build_thread_tree("t2").unwrap();
    assert_eq!(ids1, ids2);
    assert_eq!(t1.total_emails, t2.total_emails);
    assert_eq!(t1.date_range.start, t2.date_range.start);
    assert_eq!(t1.date_range.end, t2.date_range.end);
    let order1: Vec<String> = t1.roots.iter().map(|n| n.email.message_id.clone()).collect();
    let order2: Vec<String> = t2.roots.iter().map(|n| n.email.message_id.clone()).collect();
    assert_eq!(order1, order2);
}

fn collect_dates(n: &ThreadNode, out: &mut Vec<i64>) {
    out.push(n.email.date_sent);
    for c in &n.children {
        collect_dates(c, out);
    }
}

#[test]
fn thread_messages_sorted_by_date() {
    let mut p = EmailThreadProcessor::new();
    let data = csv_of(&[
        row("B1", "a@x", "b@y", "", "", &date(5), "MSG-ID:m3|THREAD:t1"),
        row("B2", "a@x", "b@y", "", "", &date(1), "MSG-ID:m1|THREAD:t1"),
        row("B3", "a@x", "b@y", "", "", &date(3), "MSG-ID:m2|THREAD:t1"),
    ]);
    p.load_emails_from_csv(&data).unwrap();
    p.group_by_threads();
    let t = p.build_thread_tree("t1").unwrap();
    // all three are roots; roots come in chronological order
    let dates: Vec<i64> = t.roots.iter().map(|n| n.email.date_sent).collect();
    let mut sorted = dates.clone();
    sorted.sort();
    assert_eq!(dates, sorted);
    assert_eq!(t.date_range.start, dates[0]);
    assert_eq!(t.date_range.end, dates[2]);
}

#[test]
fn two_message_thread_shape() {
    let mut p = EmailThreadProcessor::new();
    let data = csv_of(&[
        row("B1", "a@x", "b@y", "", "", &date(1), "MSG-ID:m1|THREAD:t1"),
        row("B2", "b@y", "a@x", "", "", &date(2), "MSG-ID:m2|IN-REPLY-TO:m1|THREAD:t1"),
    ]);
    p.load_emails_from_csv(&data).unwrap();
    p.group_by_threads();
    let t = p.build_thread_tree("t1").unwrap();
    assert_eq!(t.total_emails, 2);
    assert_eq!(t.roots.len(), 1);
    assert_eq!(t.roots[0].email.message_id, "m1");
    assert_eq!(t.roots[0].depth, 0);
    assert_eq!(t.roots[0].children.len(), 1);
    assert_eq!(t.roots[0].children[0].email.message_id, "m2");
    assert_eq!(t.roots[0].children[0].depth, 1);
    let st = p.generate_thread_stats("t1").unwrap();
    assert_eq!(st.total_emails, 2);
    assert_eq!(st.max_depth, 1);
    assert_eq!(st.branch_count, 0);
    assert_eq!(st.reply_count, 1);
}

#[test]
fn reply_to_outside_thread_becomes_root() {
    let mut p = EmailThreadProcessor::new();
    let data = csv_of(&[
        row("B1", "a@x", "b@y", "", "", &date(1), "MSG-ID:m1|THREAD:t1"),
        row("B2", "b@y", "a@x", "", "", &date(2), "MSG-ID:m2|IN-REPLY-TO:zz|THREAD:t1"),
    ]);
    p.load_emails_from_csv(&data).unwrap();
    p.group_by_threads();
    let t = p.build_thread_tree("t1").unwrap();
    assert_eq!(t.roots.len(), 2);
    let st = p.generate_thread_stats("t1").unwrap();
    assert_eq!(st.max_depth, 0);
    // the dangling in-reply-to still counts as a reply marker
    assert_eq!(st.reply_count, 1);
}

#[test]
fn roots_only_depth_zero_and_chain_branch_zero() {
    let mut p = EmailThreadProcessor::new();
    let data = csv_of(&[
        row("B1", "a@x", "b@y", "", "", &date(1), "MSG-ID:m1|THREAD:t1"),
        row("B2", "a@x", "b@y", "", "", &date(2), "MSG-ID:m2|THREAD:t1"),
        row("B3", "a@x", "b@y", "", "", &date(3), "MSG-ID:m3|THREAD:t1"),
        row("C1", "a@x", "b@y", "", "", &date(1), "MSG-ID:n1|THREAD:t2"),
        row("C2", "a@x", "b@y", "", "", &date(2), "MSG-ID:n2|IN-REPLY-TO:n1|THREAD:t2"),
        row("C3", "a@x", "b@y", "", "", &date(3), "MSG-ID:n3|IN-REPLY-TO:n2|THREAD:t2"),
        row("C4", "a@x", "b@y", "", "", &date(4), "MSG-ID:n4|IN-REPLY-TO:n3|THREAD:t2"),
    ]);
    p.load_emails_from_csv(&data).unwrap();
    p.group_by_threads();
    let st1 = p.generate_thread_stats("t1").unwrap();
    assert_eq!(st1.max_depth, 0);
    assert_eq!(st1.branch_count, 0);
    let st2 = p.generate_thread_stats("t2").unwrap();
    assert_eq!(st2.max_depth, 3);
    assert_eq!(st2.branch_count, 0);
}

#[test]
fn three_children_contribute_three() {
    let mut p = EmailThreadProcessor::new();
    let data = csv_of(&[
        row("B1", "a@x", "b@y", "", "", &date(1), "MSG-ID:m1|THREAD:t1"),
        row("B2", "a@x", "b@y", "", "", &date(2), "MSG-ID:m2|IN-REPLY-TO:m1|THREAD:t1"),
        row("B3", "a@x", "b@y", "", "", &date(3), "MSG-ID:m3|IN-REPLY-TO:m1|THREAD:t1"),
        row("B4", "a@x", "b@y", "", "", &date(4), "MSG-ID:m4|IN-REPLY-TO:m1|THREAD:t1"),
        row("B5", "a@x", "b@y", "", "", &date(5), "MSG-ID:m5|IN-REPLY-TO:m2|THREAD:t1"),
        row("B6", "a@x", "b@y", "", "", &date(6), "MSG-ID:m6|IN-REPLY-TO:m2|THREAD:t1"),
    ]);
    p.load_emails_from_csv(&data).unwrap();
    p.group_by_threads();
    let st = p.generate_thread_stats("t1").unwrap();
    // the root contributes 3, the first reply contributes 2
    assert_eq!(st.branch_count, 5);
    let t = p.build_thread_tree("t1").unwrap();
    assert_eq!(t.roots[0].children.len(), 3);
}

#[test]
fn bcc_address_is_not_a_participant() {
    let mut p = EmailThreadProcessor::new();
    let data = csv_of(&[row("B1", "a@x", "", "", "hidden@z", &date(1), "MSG-ID:m1|THREAD:t1")]);
    p.load_emails_from_csv(&data).unwrap();
    p.group_by_threads();
    let st = p.generate_thread_stats("t1").unwrap();
    assert_eq!(st.participant_count, 1);
    assert!(!st.participants.contains(&"hidden@z".to_string()));
    assert!(st.participants.contains(&"a@x".to_string()));
}

#[test]
fn participants_deduplicated_across_fields() {
    let mut p = EmailThreadProcessor::new();
    let data = csv_of(&[
        row("B1", "a@x", "b@y, c@z", "a@x", "", &date(1), "MSG-ID:m1|THREAD:t1"),
        row("B2", "b@y", "a@x", "c@z", "", &date(2), "MSG-ID:m2|IN-REPLY-TO:m1|THREAD:t1"),
    ]);
    p.load_emails_from_csv(&data).unwrap();
    p.group_by_threads();
    let st = p.generate_thread_stats("t1").unwrap();
    assert_eq!(st.participant_count, 3);
}

#[test]
fn unknown_thread_id_is_an_error_for_tree_and_stats() {
    let mut p = EmailThreadProcessor::new();
    let data = csv_of(&[row("B1", "a@x", "b@y", "", "", &date(1), "MSG-ID:m1|THREAD:t1")]);
    p.load_emails_from_csv(&data).unwrap();
    p.group_by_threads();
    assert!(p.build_thread_tree("absent").is_err());
    assert!(p.generate_thread_stats("absent").is_err());
    assert!(p.build_thread_tree("t1").is_ok());
}

#[test]
fn forward_and_external_counts() {
    let mut p = EmailThreadProcessor::new();
    let data = csv_of(&[
        row("B1", "a@x", "b@y", "", "", &date(1), "MSG-ID:m1|THREAD:t1|FWD:true"),
        row("B2", "a@x", "b@y", "", "", &date(2), "MSG-ID:m2|THREAD:t1|EXTERNAL:true"),
        row("B3", "a@x", "b@y", "", "", &date(3), "MSG-ID:m3|THREAD:t1|FWD:true|EXTERNAL:true"),
    ]);
    p.load_emails_from_csv(&data).unwrap();
    p.group_by_threads();
    let st = p.generate_thread_stats("t1").unwrap();
    assert_eq!(st.forward_count, 2);
    assert_eq!(st.external_count, 2);
    assert_eq!(st.reply_count, 0);
}

#[test]
fn stats_date_range_exact_instant() {
    let mut p = EmailThreadProcessor::new();
    let data = csv_of(&[
        row("B1", "a@x", "b@y", "", "", "2024-01-02T03:04:05Z", "MSG-ID:m1|THREAD:t1"),
        row("B2", "a@x", "b@y", "", "", "2024-01-02T03:04:05+00:00", "MSG-ID:m2|THREAD:t1"),
    ]);
    p.load_emails_from_csv(&data).unwrap();
    p.group_by_threads();
    let t = p.build_thread_tree("t1").unwrap();
    // the two shapes of the same RFC 3339 instant agree exactly
    assert_eq!(t.date_range.start, 1_704_164_645_000);
    assert_eq!(t.date_range.end, 1_704_164_645_000);
}
