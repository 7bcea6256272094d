use notcoal::{Error, Filter, MessageView, Operations, Rule, Value};

fn msg(headers: Vec<(&str, &str)>, tags: Vec<&str>) -> MessageView {
    MessageView {
        headers: headers.iter().map(|(k, v)| (k.to_string(), v.to_string())).collect(),
        tags: tags.iter().map(|t| t.to_string()).collect(),
        filenames: Vec::new(),
        raw: Vec::new(),
        thread_tags: None,
    }
}

fn single_rule(key: &str, pattern: &str) -> Rule {
    let mut r = Rule::new();
    r.insert(key.to_string(), Value::Single(pattern.to_string()));
    r
}

fn add_op(tag: &str) -> Operations {
    Operations { add: vec![tag.to_string()], rm: Vec::new() }
}

fn compiled_filter(rules: Vec<Rule>, op: Operations) -> Filter {
    Filter::from_parts(None, None, rules, op).compile().unwrap()
}

#[test]
fn subject_match_applies_tag() {
    let f = compiled_filter(vec![single_rule("Subject", "(?i)invoice")], add_op("finance"));
    let mut m = msg(vec![("Subject", "Your Invoice #123")], vec![]);
    assert_eq!(f.apply_if_match(&mut m).unwrap(), true);
    assert_eq!(m.tags, vec!["finance".to_string()]);
}

#[test]
fn subject_no_match_changes_nothing() {
    let f = compiled_filter(vec![single_rule("Subject", "(?i)invoice")], add_op("finance"));
    let mut m = msg(vec![("Subject", "hello")], vec![]);
    assert_eq!(f.apply_if_match(&mut m).unwrap(), false);
    assert!(m.tags.is_empty());
}

#[test]
fn tag_pattern_list_matches_any() {
    let mut r = Rule::new();
    r.insert(
        "@tags".to_string(),
        Value::Multiple(vec!["spam".to_string(), "junk".to_string()]),
    );
    let f = compiled_filter(vec![r], add_op("flagged"));
    let mut m = msg(vec![], vec!["junk-mail"]);
    assert_eq!(f.apply_if_match(&mut m).unwrap(), true);
    assert!(m.tags.contains(&"flagged".to_string()));
    assert!(m.tags.contains(&"junk-mail".to_string()));
}

fn pdf_mail() -> Vec<u8> {
    let mut raw = String::new();
    raw.push_str("From: other@example.com\r\n");
    raw.push_str("Subject: report\r\n");
    raw.push_str("MIME-Version: 1.0\r\n");
    raw.push_str("Content-Type: multipart/mixed; boundary=\"XYZ\"\r\n");
    raw.push_str("\r\n");
    raw.push_str("--XYZ\r\n");
    raw.push_str("Content-Type: text/plain\r\n");
    raw.push_str("\r\n");
    raw.push_str("please find attached\r\n");
    raw.push_str("--XYZ\r\n");
    raw.push_str("Content-Type: application/pdf\r\n");
    raw.push_str("Content-Disposition: attachment; filename=\"report.pdf\"\r\n");
    raw.push_str("\r\n");
    raw.push_str("PDFDATA\r\n");
    raw.push_str("--XYZ--\r\n");
    raw.into_bytes()
}

#[test]
fn second_rule_fires_when_first_fails() {
    let rules = vec![
        single_rule("From", "boss@example.com"),
        single_rule("@attachment", "\\.pdf$"),
    ];
    let f = compiled_filter(rules, add_op("pdf"));
    let mut m = msg(vec![("From", "other@example.com")], vec![]);
    m.raw = pdf_mail();
    assert_eq!(f.is_match(&m).unwrap(), true);
}

#[test]
fn uncompiled_filter_errors() {
    let f = Filter::from_parts(None, None, vec![single_rule("Subject", "x")], Operations::new());
    let m = msg(vec![("Subject", "x")], vec![]);
    match f.is_match(&m) {
        Err(Error::Uncompiled) => {},
        other => panic!("expected the uncompiled error, got {:?}", other),
    }
}

#[test]
fn double_compile_detected_by_length_check() {
    let f = compiled_filter(vec![single_rule("Subject", "x")], Operations::new());
    let twice = f.compile().unwrap();
    let m = msg(vec![("Subject", "x")], vec![]);
    match twice.is_match(&m) {
        Err(Error::Uncompiled) => {},
        other => panic!("expected the uncompiled error, got {:?}", other),
    }
}

#[test]
fn empty_rule_list_never_matches() {
    let f = Filter::new().compile().unwrap();
    let m = msg(vec![("Subject", "anything")], vec!["tag"]);
    assert_eq!(f.is_match(&m).unwrap(), false);
}

#[test]
fn rebuilt_filter_has_empty_cache() {
    let f = compiled_filter(vec![single_rule("Subject", "x")], add_op("t"));
    assert_eq!(f.compiled.len(), 1);
    let name = f.name.clone();
    let desc = f.desc.clone();
    let rules = f.rules.clone();
    let op = f.op.clone();
    let g = Filter::from_parts(name, desc, rules, op);
    assert_eq!(g.compiled.len(), 0);
    assert_eq!(g.rules.len(), f.rules.len());
    assert_eq!(g.name(), f.name());
    let m = msg(vec![("Subject", "x")], vec![]);
    match g.is_match(&m) {
        Err(Error::Uncompiled) => {},
        other => panic!("expected the uncompiled error, got {:?}", other),
    }
    let g2 = g.compile().unwrap();
    assert_eq!(g2.is_match(&m).unwrap(), true);
}

#[test]
fn name_is_stable_across_insertion_order() {
    let mut r1 = Rule::new();
    r1.insert("Subject".to_string(), Value::Single("a".to_string()));
    r1.insert("From".to_string(), Value::Single("b".to_string()));
    let mut r2 = Rule::new();
    r2.insert("From".to_string(), Value::Single("b".to_string()));
    r2.insert("Subject".to_string(), Value::Single("a".to_string()));
    let f1 = Filter::from_parts(None, None, vec![r1], Operations::new());
    let f2 = Filter::from_parts(None, None, vec![r2], Operations::new());
    assert_eq!(f1.name(), f2.name());

    let f3 = Filter::from_parts(None, None, vec![single_rule("Subject", "c")], Operations::new());
    assert_ne!(f1.name(), f3.name());
}

#[test]
fn fingerprint_exact_values() {
    let empty = Filter::new();
    assert_eq!(empty.name(), "cbf29ce484222325");
    let f = Filter::from_parts(None, None, vec![single_rule("a", "b")], Operations::new());
    assert_eq!(f.name(), "d805c5f70e2295c7");
    let mut r = Rule::new();
    r.insert("b".to_string(), Value::Multiple(vec!["a".to_string()]));
    let g = Filter::from_parts(None, None, vec![r], Operations::new());
    assert_eq!(g.name(), "71da8b5a5b9be89b");
}

#[test]
fn set_name_wins_over_fingerprint() {
    let mut f = Filter::new();
    f.set_name("my-filter");
    assert_eq!(f.name(), "my-filter");
}

#[test]
fn invalid_pattern_reports_source() {
    let f = Filter::from_parts(None, None, vec![single_rule("Subject", "(")], Operations::new());
    match f.compile() {
        Err(Error::PatternCompile(p)) => assert_eq!(p, "("),
        other => panic!("expected a pattern error, got {:?}", other),
    }
}

#[test]
fn invalid_pattern_in_list_reports_source() {
    let mut r = Rule::new();
    r.insert(
        "Subject".to_string(),
        Value::Multiple(vec!["ok".to_string(), "[".to_string()]),
    );
    let f = Filter::from_parts(None, None, vec![r], Operations::new());
    match f.compile() {
        Err(Error::PatternCompile(p)) => assert_eq!(p, "["),
        other => panic!("expected a pattern error, got {:?}", other),
    }
}

#[test]
fn non_pattern_value_is_unsupported() {
    let mut r = Rule::new();
    r.insert("Subject".to_string(), Value::Flag(true));
    let f = Filter::from_parts(None, None, vec![r], Operations::new());
    match f.compile() {
        Err(Error::UnsupportedValue) => {},
        other => panic!("expected an unsupported-value error, got {:?}", other),
    }
}

#[test]
fn missing_header_fails_rule() {
    let f = compiled_filter(vec![single_rule("Subject", ".*")], Operations::new());
    let m = msg(vec![("From", "x@example.com")], vec![]);
    assert_eq!(f.is_match(&m).unwrap(), false);
}

#[test]
fn header_with_pattern_list_needs_all() {
    let mut r = Rule::new();
    r.insert(
        "Subject".to_string(),
        Value::Multiple(vec!["foo".to_string(), "bar".to_string()]),
    );
    let f = compiled_filter(vec![r], Operations::new());
    assert_eq!(f.is_match(&msg(vec![("Subject", "foo bar")], vec![])).unwrap(), true);
    assert_eq!(f.is_match(&msg(vec![("Subject", "foo only")], vec![])).unwrap(), false);
}

#[test]
fn path_matches_any_filename() {
    let f = compiled_filter(vec![single_rule("@path", "spam")], Operations::new());
    let mut m = msg(vec![], vec![]);
    m.filenames = vec!["/mail/inbox/1".to_string(), "/mail/spam/2".to_string()];
    assert_eq!(f.is_match(&m).unwrap(), true);
    m.filenames = vec!["/mail/inbox/1".to_string()];
    assert_eq!(f.is_match(&m).unwrap(), false);
}

#[test]
fn thread_tags_skip_when_unresolved() {
    let f = compiled_filter(vec![single_rule("@thread-tags", "urgent")], Operations::new());
    // no thread resolved: the only field is skipped, the rule stays
    // vacuously true
    let m = msg(vec![], vec![]);
    assert_eq!(f.is_match(&m).unwrap(), true);
    // resolved thread decides the field
    let mut m2 = msg(vec![], vec![]);
    m2.thread_tags = Some(vec!["urgent".to_string()]);
    assert_eq!(f.is_match(&m2).unwrap(), true);
    let mut m3 = msg(vec![], vec![]);
    m3.thread_tags = Some(vec!["calm".to_string()]);
    assert_eq!(f.is_match(&m3).unwrap(), false);
}

#[test]
fn unknown_virtual_selector_is_skipped() {
    let f = compiled_filter(vec![single_rule("@nonsense", "x")], Operations::new());
    let m = msg(vec![], vec![]);
    assert_eq!(f.is_match(&m).unwrap(), true);
}

#[test]
fn body_with_pattern_list_needs_all() {
    let mut r = Rule::new();
    r.insert(
        "@body".to_string(),
        Value::Multiple(vec!["hello".to_string(), "world".to_string()]),
    );
    let f = compiled_filter(vec![r], Operations::new());
    let mut m = msg(vec![], vec![]);
    // the body matches one of the two patterns only: the field is false
    m.raw = b"Subject: test\r\n\r\nhello there".to_vec();
    assert_eq!(f.is_match(&m).unwrap(), false);
    // the body matches every pattern: the field is true
    m.raw = b"Subject: test\r\n\r\nhello world".to_vec();
    assert_eq!(f.is_match(&m).unwrap(), true);
}

#[test]
fn fingerprint_distinguishes_list_boundaries() {
    // two different rule contents whose flattened strings coincide: the
    // list terminator keeps their canonical encodings distinct
    let mut r1 = Rule::new();
    r1.insert(
        "b".to_string(),
        Value::Multiple(vec!["a".to_string(), "k".to_string(), "\u{1}c".to_string()]),
    );
    let mut r2 = Rule::new();
    r2.insert("b".to_string(), Value::Multiple(vec!["a".to_string()]));
    r2.insert("k".to_string(), Value::Single("c".to_string()));
    let f1 = Filter::from_parts(None, None, vec![r1], Operations::new());
    let f2 = Filter::from_parts(None, None, vec![r2], Operations::new());
    assert_ne!(f1.name(), f2.name());
}

#[test]
fn body_field_matches_decoded_body() {
    let f = compiled_filter(vec![single_rule("@body", "world")], Operations::new());
    let mut m = msg(vec![], vec![]);
    m.raw = b"Subject: test\r\n\r\nhello world".to_vec();
    assert_eq!(f.is_match(&m).unwrap(), true);
    m.raw = b"Subject: test\r\n\r\nhello there".to_vec();
    assert_eq!(f.is_match(&m).unwrap(), false);
}

#[test]
fn attachment_body_reads_text_attachments() {
    let mut raw = String::new();
    raw.push_str("Subject: notes\r\n");
    raw.push_str("MIME-Version: 1.0\r\n");
    raw.push_str("Content-Type: multipart/mixed; boundary=\"XYZ\"\r\n");
    raw.push_str("\r\n");
    raw.push_str("--XYZ\r\n");
    raw.push_str("Content-Type: text/plain\r\n");
    raw.push_str("\r\n");
    raw.push_str("cover letter\r\n");
    raw.push_str("--XYZ\r\n");
    raw.push_str("Content-Type: text/plain\r\n");
    raw.push_str("Content-Disposition: attachment; filename=\"notes.txt\"\r\n");
    raw.push_str("\r\n");
    raw.push_str("secret phrase inside\r\n");
    raw.push_str("--XYZ--\r\n");
    let raw = raw.into_bytes();
    let f = compiled_filter(vec![single_rule("@attachment-body", "secret phrase")], Operations::new());
    let mut m = msg(vec![], vec![]);
    m.raw = raw;
    assert_eq!(f.is_match(&m).unwrap(), true);
    // the cover letter is not an attachment, so its text does not count
    let f2 = compiled_filter(vec![single_rule("@attachment-body", "cover letter")], Operations::new());
    assert_eq!(f2.is_match(&m).unwrap(), false);
}

#[test]
fn undecodable_text_attachment_aborts_evaluation() {
    let mut raw = String::new();
    raw.push_str("Subject: broken\r\n");
    raw.push_str("MIME-Version: 1.0\r\n");
    raw.push_str("Content-Type: multipart/mixed; boundary=\"XYZ\"\r\n");
    raw.push_str("\r\n");
    raw.push_str("--XYZ\r\n");
    raw.push_str("Content-Type: text/plain\r\n");
    raw.push_str("Content-Disposition: attachment; filename=\"bad.txt\"\r\n");
    raw.push_str("Content-Transfer-Encoding: base64\r\n");
    raw.push_str("\r\n");
    raw.push_str("!!!not-base64!!!\r\n");
    raw.push_str("--XYZ--\r\n");
    let raw = raw.into_bytes();
    let f = compiled_filter(vec![single_rule("@attachment-body", "x")], Operations::new());
    let mut m = msg(vec![], vec![]);
    m.raw = raw;
    match f.is_match(&m) {
        Err(Error::MimeParse) => {},
        other => panic!("expected a parse error, got {:?}", other),
    }
}

#[test]
fn adding_present_tag_reports_no_change() {
    let f = compiled_filter(vec![single_rule("@tags", "junk")], add_op("junk"));
    let mut m = msg(vec![], vec!["junk"]);
    // the filter matches, but the tag is already present: no change
    assert_eq!(f.apply_if_match(&mut m).unwrap(), false);
    assert_eq!(m.tags, vec!["junk".to_string()]);
}

#[test]
fn removal_operation_drops_tag() {
    let f = compiled_filter(
        vec![single_rule("@tags", "resolved")],
        Operations { add: Vec::new(), rm: vec!["inbox".to_string()] },
    );
    let mut m = msg(vec![], vec!["inbox", "resolved"]);
    assert_eq!(f.apply_if_match(&mut m).unwrap(), true);
    assert_eq!(m.tags, vec!["resolved".to_string()]);
}

#[test]
fn error_messages_name_the_problem() {
    assert_eq!(
        Error::Uncompiled.message(),
        "filters need to be compiled before tested"
    );
    assert_eq!(Error::UnsupportedValue.message(), "not a regular expression");
}

#[test]
fn rule_lookup_follows_last_insert() {
    let mut r = Rule::new();
    r.insert("Subject".to_string(), Value::Single("a".to_string()));
    r.insert("Subject".to_string(), Value::Single("b".to_string()));
    assert_eq!(r.len(), 1);
    match r.get(&"Subject".to_string()) {
        Some(Value::Single(p)) => assert_eq!(p, "b"),
        other => panic!("unexpected value {:?}", other),
    }
    assert!(r.get(&"From".to_string()).is_none());
}
