use account_auth::report::{FieldErrors, ValidationIssue, ValidationReport};

fn entry(field: &str, messages: &[&str]) -> FieldErrors {
    FieldErrors {
        field: field.to_string(),
        messages: messages.iter().map(|m| m.to_string()).collect(),
    }
}

#[test]
fn a_new_report_is_empty() {
    let report = ValidationReport::new();
    assert!(report.is_empty());
    assert_eq!(report.len(), 0);
    assert!(report.issues().is_empty());
}

#[test]
fn append_keeps_the_order_and_the_duplicates() {
    let mut report = ValidationReport::new();
    report.append("b", "second field");
    report.append("a", "first field");
    report.append("b", "second field");
    assert!(!report.is_empty());
    assert_eq!(report.len(), 3);
    let expected = vec![
        ValidationIssue { field: "b".to_string(), message: "second field".to_string() },
        ValidationIssue { field: "a".to_string(), message: "first field".to_string() },
        ValidationIssue { field: "b".to_string(), message: "second field".to_string() },
    ];
    assert_eq!(report.issues(), &expected);
}

#[test]
fn into_error_of_one_issue_has_one_entry() {
    let mut report = ValidationReport::new();
    report.append("account", "user not found");
    let error = report.into_error();
    assert_eq!(error.entries(), &vec![entry("account", &["user not found"])]);
}

#[test]
fn into_error_groups_by_field_in_order_of_first_occurrence() {
    let mut report = ValidationReport::new();
    report.append("password", "too short");
    report.append("username", "empty");
    report.append("password", "no digit");
    report.append("email", "no at sign");
    report.append("username", "empty");
    report.append("password", "too short");
    let error = report.into_error();
    assert_eq!(
        error.entries(),
        &vec![
            entry("password", &["too short", "no digit", "too short"]),
            entry("username", &["empty", "empty"]),
            entry("email", &["no at sign"]),
        ]
    );
}

#[test]
fn into_error_tells_fields_apart_by_every_character() {
    let mut report = ValidationReport::new();
    report.append("name", "a");
    report.append("Name", "b");
    report.append("name ", "c");
    report.append("", "d");
    report.append("name", "e");
    let error = report.into_error();
    assert_eq!(
        error.entries(),
        &vec![
            entry("name", &["a", "e"]),
            entry("Name", &["b"]),
            entry("name ", &["c"]),
            entry("", &["d"]),
        ]
    );
}

#[test]
fn into_error_loses_no_message() {
    let mut report = ValidationReport::new();
    let fields = ["a", "b", "c"];
    let mut i = 0;
    while i < 30 {
        report.append(fields[i % 3], &format!("m{}", i));
        i += 1;
    }
    let error = report.into_error();
    let entries = error.entries();
    assert_eq!(entries.len(), 3);
    let mut total = 0;
    for (k, e) in entries.iter().enumerate() {
        assert_eq!(e.field, fields[k]);
        assert_eq!(e.messages.len(), 10);
        for (j, m) in e.messages.iter().enumerate() {
            assert_eq!(m, &format!("m{}", 3 * j + k));
        }
        total += e.messages.len();
    }
    assert_eq!(total, 30);
}

#[test]
fn messages_of_finds_the_messages_of_a_field() {
    let mut report = ValidationReport::new();
    report.append("password", "too short");
    report.append("username", "empty");
    report.append("password", "no digit");
    let error = report.into_error();
    assert_eq!(
        error.messages_of("password"),
        Some(&vec!["too short".to_string(), "no digit".to_string()])
    );
    assert_eq!(error.messages_of("username"), Some(&vec!["empty".to_string()]));
    assert_eq!(error.messages_of("email"), None);
    assert_eq!(error.messages_of("Password"), None);
    assert_eq!(error.messages_of(""), None);
}
