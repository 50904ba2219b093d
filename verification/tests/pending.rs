use jira_session::model::{Issue, IssueField};
use jira_session::pending::{
    parse_pending_version_field, parse_pending_versions, remove_versions, PendingVersions,
};
use jira_session::version::VersionToken;

fn issue(key: &str, fields: Vec<(&str, Option<&str>)>) -> Issue {
    Issue {
        key: key.to_string(),
        fields: fields
            .into_iter()
            .map(|(id, text)| IssueField { id: id.to_string(), text: text.map(|t| t.to_string()) })
            .collect(),
    }
}

fn versions(texts: &[&str]) -> Vec<VersionToken> {
    texts.iter().map(|t| VersionToken::parse(t).unwrap()).collect()
}

fn shown(tokens: &Vec<VersionToken>) -> Vec<String> {
    tokens.iter().map(|t| t.to_string()).collect()
}

fn listed(found: &PendingVersions) -> Vec<(String, Vec<String>)> {
    let mut all: Vec<(String, Vec<String>)> =
        found.entries().iter().map(|e| (e.key.clone(), shown(&e.versions))).collect();
    all.sort();
    all
}

#[test]
fn test_parse_pending_versions() {
    let search = vec![
        issue("KEY-1", vec![]),
        issue("KEY-2", vec![("the-field", Some("  1.2, 3.4,5,7.7.7  "))]),
        issue("KEY-3", vec![("the-field", Some("1.2,  "))]),
    ];
    let expected = vec![
        ("KEY-2".to_string(), shown(&versions(&["1.2", "3.4", "5", "7.7.7"]))),
        ("KEY-3".to_string(), shown(&versions(&["1.2"]))),
    ];

    let found = parse_pending_versions(&search, "the-field");
    assert_eq!(expected, listed(&found));
    assert!(found.get("KEY-1").is_none());
    assert_eq!(shown(found.get("KEY-2").unwrap()), vec!["1.2", "3.4", "5", "7.7.7"]);
    assert_eq!(shown(found.get("KEY-3").unwrap()), vec!["1.2"]);
}

#[test]
fn issues_without_versions_have_no_entry() {
    let search = vec![
        issue("A-1", vec![("the-field", Some("later, maybe"))]),
        issue("A-2", vec![("the-field", None)]),
        issue("A-3", vec![("other", Some("1.2"))]),
        issue("A-4", vec![("the-field", Some(""))]),
        issue("", vec![("the-field", Some("1.2"))]),
    ];
    let found = parse_pending_versions(&search, "the-field");
    assert!(found.entries().is_empty());
    assert!(found.get("A-1").is_none());
    assert!(found.get("").is_none());
}

#[test]
fn a_later_issue_with_the_same_key_counts() {
    let search = vec![
        issue("A-1", vec![("f", Some("1"))]),
        issue("A-2", vec![("f", Some("2"))]),
        issue("A-1", vec![("f", Some("3, 4"))]),
    ];
    let found = parse_pending_versions(&search, "f");
    assert_eq!(
        listed(&found),
        vec![
            ("A-1".to_string(), vec!["3".to_string(), "4".to_string()]),
            ("A-2".to_string(), vec!["2".to_string()]),
        ]
    );
}

#[test]
fn the_first_field_with_the_identifier_is_read() {
    let one = issue("A-1", vec![("g", Some("9")), ("f", Some("1")), ("f", Some("2"))]);
    assert_eq!(one.text_field("f"), Some("1"));
    assert_eq!(one.text_field("g"), Some("9"));
    assert_eq!(one.text_field("h"), None);
    let other = issue("A-2", vec![("f", None), ("f", Some("2"))]);
    assert_eq!(other.text_field("f"), None);
}

#[test]
fn a_field_without_text_holds_no_versions() {
    assert!(parse_pending_version_field(None).is_empty());
    assert!(parse_pending_version_field(Some("")).is_empty());
    assert_eq!(shown(&parse_pending_version_field(Some(" 2.1 ,2.0"))), vec!["2.1", "2.0"]);
}

#[test]
fn remove_versions_leaves_the_others_in_order() {
    let list = versions(&["3", "1.2", "5", "1.2.0", "4"]);
    let left = remove_versions(&list, &versions(&["1.2", "4.0", "9"]));
    assert_eq!(shown(&left), vec!["3", "5"]);
    assert_eq!(shown(&remove_versions(&list, &Vec::new())), shown(&list));
    assert!(remove_versions(&Vec::new(), &list).is_empty());
}

#[test]
fn the_empty_mapping_has_no_entries() {
    let none = PendingVersions::new();
    assert!(none.entries().is_empty());
    assert!(none.get("KEY-1").is_none());
}

#[test]
fn is_removed_goes_by_version() {
    let removed = versions(&["1.2", "3"]);
    assert!(jira_session::pending::is_removed(&removed, &VersionToken::parse("3.0").unwrap()));
    assert!(jira_session::pending::is_removed(&removed, &VersionToken::parse("1.2").unwrap()));
    assert!(!jira_session::pending::is_removed(&removed, &VersionToken::parse("1.3").unwrap()));
    assert!(!jira_session::pending::is_removed(&Vec::new(), &VersionToken::parse("3").unwrap()));
}
