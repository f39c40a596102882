use email_threads::history::parse_column_history;
use email_threads::parser::{parse_csv_record, split_recipients, DateField, RowParseError};
use email_threads::msg::RawRecord;

fn raw(date_sent: &str, date_created: &str, date_modified: &str, hist: &str) -> RawRecord {
    RawRecord {
        beg_bates: "B001".to_string(),
        end_bates: "B001".to_string(),
        custodian: "cust".to_string(),
        from: "alice@example.com".to_string(),
        to: "bob@example.com, carol@example.com".to_string(),
        cc: " dan@example.com ".to_string(),
        bcc: "eve@example.com".to_string(),
        subject: "hello".to_string(),
        date_sent: date_sent.to_string(),
        file_name: "msg.eml".to_string(),
        file_type: "email".to_string(),
        date_created: date_created.to_string(),
        date_last_modified: date_modified.to_string(),
        title: "t".to_string(),
        author: "a".to_string(),
        confidentiality: "none".to_string(),
        hash: "h".to_string(),
        native_link: "l".to_string(),
        full_text: "body".to_string(),
        column_history: hist.to_string(),
    }
}

#[test]
fn history_full_tags() {
    let info = parse_column_history("MSG-ID:m1|IN-REPLY-TO:m0|REFS:r1 r2|THREAD:t1|FWD:true|EXTERNAL:true");
    assert_eq!(info.message_id.as_deref(), Some("m1"));
    assert_eq!(info.in_reply_to.as_deref(), Some("m0"));
    assert_eq!(info.references, Some(vec!["r1".to_string(), "r2".to_string()]));
    assert_eq!(info.thread_id.as_deref(), Some("t1"));
    assert!(info.is_forward);
    assert!(info.is_external);
}

#[test]
fn history_empty_yields_defaults() {
    let info = parse_column_history("");
    assert_eq!(info.message_id, None);
    assert_eq!(info.in_reply_to, None);
    assert_eq!(info.references, None);
    assert_eq!(info.thread_id, None);
    assert!(!info.is_forward);
    assert!(!info.is_external);
}

#[test]
fn history_refs_placeholder_means_absent() {
    let info = parse_column_history("MSG-ID:m1|REFS:<>|THREAD:t1");
    assert_eq!(info.references, None);
}

#[test]
fn history_unrecognized_tokens_ignored() {
    let info = parse_column_history("WHAT:ever|MSG-ID:m9|junk|FWD:false");
    assert_eq!(info.message_id.as_deref(), Some("m9"));
    assert_eq!(info.thread_id, None);
    assert!(!info.is_forward);
}

#[test]
fn history_later_tag_overwrites() {
    let info = parse_column_history("MSG-ID:m1|MSG-ID:m2");
    assert_eq!(info.message_id.as_deref(), Some("m2"));
}

#[test]
fn recipients_trimmed_and_empties_dropped() {
    let r = split_recipients(" a@x ,  , b@y ,");
    assert_eq!(r, vec!["a@x".to_string(), "b@y".to_string()]);
}

#[test]
fn recipients_order_and_duplicates_kept() {
    let r = split_recipients("b@y,a@x,b@y");
    assert_eq!(r, vec!["b@y".to_string(), "a@x".to_string(), "b@y".to_string()]);
}

#[test]
fn record_parses_with_rfc3339_date() {
    let m = parse_csv_record(raw(
        "2024-01-02T03:04:05+00:00",
        "2024-01-02T03:04:05Z",
        "2024-01-02T03:04:05.250Z",
        "MSG-ID:m1|THREAD:t1",
    ))
    .unwrap();
    assert_eq!(m.id, "B001");
    assert_eq!(m.message_id, "m1");
    assert_eq!(m.thread_id, "t1");
    assert_eq!(m.in_reply_to, None);
    assert_eq!(m.to, vec!["bob@example.com".to_string(), "carol@example.com".to_string()]);
    assert_eq!(m.cc, vec!["dan@example.com".to_string()]);
    assert_eq!(m.bcc, vec!["eve@example.com".to_string()]);
    // 2024-01-02T03:04:05Z as an epoch instant, in milliseconds
    assert_eq!(m.date_sent, 1_704_164_645_000);
    assert_eq!(m.date_created, 1_704_164_645_000);
    assert_eq!(m.date_last_modified, 1_704_164_645_250);
}

#[test]
fn date_roundtrip_formats_agree() {
    // the same instant written in the two accepted shapes parses identically
    let m1 = parse_csv_record(raw(
        "2024-01-02T03:04:05+00:00",
        "2024-01-02T03:04:05+00:00",
        "2024-01-02T03:04:05+00:00",
        "MSG-ID:m1|THREAD:t1",
    ))
    .unwrap();
    let m2 = parse_csv_record(raw(
        "2024-01-02T03:04:05Z",
        "2024-01-02T03:04:05Z",
        "2024-01-02T03:04:05Z",
        "MSG-ID:m2|THREAD:t1",
    ))
    .unwrap();
    assert_eq!(m1.date_sent, m2.date_sent);
    // an offset shifts the instant accordingly
    let m3 = parse_csv_record(raw(
        "2024-01-02T04:04:05+01:00",
        "2024-01-02T04:04:05+01:00",
        "2024-01-02T04:04:05+01:00",
        "MSG-ID:m3|THREAD:t1",
    ))
    .unwrap();
    assert_eq!(m1.date_sent, m3.date_sent);
}

#[test]
fn record_bad_date_names_the_field() {
    let e = parse_csv_record(raw("nonsense", "2024-01-02T03:04:05Z", "2024-01-02T03:04:05Z", ""))
        .unwrap_err();
    assert_eq!(e, RowParseError::InvalidDate(DateField::Sent));
    let e = parse_csv_record(raw("2024-01-02T03:04:05Z", "nope", "2024-01-02T03:04:05Z", ""))
        .unwrap_err();
    assert_eq!(e, RowParseError::InvalidDate(DateField::Created));
    let e = parse_csv_record(raw("2024-01-02T03:04:05Z", "2024-01-02T03:04:05Z", "nope", ""))
        .unwrap_err();
    assert_eq!(e, RowParseError::InvalidDate(DateField::Modified));
}

#[test]
fn record_empty_history_gives_empty_ids() {
    let m = parse_csv_record(raw(
        "2024-01-02T03:04:05Z",
        "2024-01-02T03:04:05Z",
        "2024-01-02T03:04:05Z",
        "",
    ))
    .unwrap();
    assert_eq!(m.message_id, "");
    assert_eq!(m.thread_id, "");
    assert!(m.references.is_empty());
}
