use jira_session::comment::{first_attempt, next_step, CommentStep};
use jira_session::model::{
    annotate, conclude, Field, Issue, IssueField, JiraConfig, Operation, SessionError,
    TransitionRequest, TransportFailure, Version,
};
use jira_session::request::{Method, Request};
use jira_session::session::{lookup_field, JiraSession, JiraVersionPosition, PendingVersionsField};
use jira_session::version::VersionToken;

fn catalog() -> Vec<Field> {
    vec![
        Field { id: "summary".to_string(), name: "Summary".to_string() },
        Field { id: "fixVersions".to_string(), name: "Fix Version/s".to_string() },
        Field { id: "customfield_10010".to_string(), name: "Pending Versions".to_string() },
        Field { id: "customfield_10011".to_string(), name: "Pending Versions".to_string() },
        Field { id: "Summary".to_string(), name: "Shadowed".to_string() },
    ]
}

fn config(fix: &str, pending: Option<&str>, role: Option<&str>) -> JiraConfig {
    JiraConfig {
        base_url: "https://tracker.example.com".to_string(),
        username: "user".to_string(),
        password: "pass".to_string(),
        fix_versions_field: fix.to_string(),
        pending_versions_field: pending.map(|p| p.to_string()),
        restrict_comment_visibility_to_role: role.map(|r| r.to_string()),
    }
}

fn session(pending: Option<&str>, role: Option<&str>) -> JiraSession {
    JiraSession::new(&config("fixVersions", pending, role), &catalog()).unwrap()
}

fn issue_with(key: &str, field: &str, text: &str) -> Issue {
    Issue {
        key: key.to_string(),
        fields: vec![IssueField { id: field.to_string(), text: Some(text.to_string()) }],
    }
}

fn failure(status: u16, body: &str) -> TransportFailure {
    TransportFailure { status: Some(status), body: body.to_string() }
}

fn parts(request: &Request) -> (Method, &str, Option<&str>) {
    (request.method, request.path.as_str(), request.body.as_deref())
}

#[test]
fn lookup_finds_a_field_by_identifier_or_label() {
    assert_eq!(lookup_field("fixVersions", &catalog()).unwrap(), "fixVersions");
    assert_eq!(lookup_field("Fix Version/s", &catalog()).unwrap(), "fixVersions");
    assert_eq!(lookup_field("customfield_10011", &catalog()).unwrap(), "customfield_10011");
}

#[test]
fn lookup_takes_the_first_match() {
    assert_eq!(lookup_field("Pending Versions", &catalog()).unwrap(), "customfield_10010");
    assert_eq!(lookup_field("Summary", &catalog()).unwrap(), "summary");
}

#[test]
fn lookup_tells_upper_from_lower_case() {
    match lookup_field("fixversions", &catalog()) {
        Err(SessionError::Configuration { field }) => assert_eq!(field, "fixversions"),
        other => panic!("unexpected: {:?}", other),
    }
    assert!(lookup_field("", &catalog()).is_err());
    assert!(lookup_field("fixVersions", &Vec::new()).is_err());
}

#[test]
fn a_session_needs_its_fix_versions_field() {
    match JiraSession::new(&config("Release", Some("Pending Versions"), None), &catalog()) {
        Err(SessionError::Configuration { field }) => assert_eq!(field, "Release"),
        other => panic!("unexpected: {:?}", other),
    }
}

#[test]
fn a_session_resolves_its_fields() {
    let s = JiraSession::new(
        &config("Fix Version/s", Some("Pending Versions"), Some("Developers")),
        &catalog(),
    )
    .unwrap();
    assert_eq!(s.fix_versions_field(), "fixVersions");
    assert_eq!(s.comment_role(), Some("Developers"));
    match s.pending_versions_field() {
        PendingVersionsField::Enabled { field, field_id } => {
            assert_eq!(field, "Pending Versions");
            assert_eq!(field_id, "customfield_10010");
        }
        PendingVersionsField::Disabled => panic!("the feature should be enabled"),
    }
}

#[test]
fn an_unknown_pending_field_disables_the_feature() {
    let s = session(Some("No Such Field"), None);
    assert!(matches!(s.pending_versions_field(), PendingVersionsField::Disabled));
    assert_eq!(s.comment_role(), None);
    let t = session(None, None);
    assert!(matches!(t.pending_versions_field(), PendingVersionsField::Disabled));
}

#[test]
fn the_configuration_gives_the_addresses() {
    let c = config("fixVersions", None, None);
    assert_eq!(c.base_url(), "https://tracker.example.com");
    assert_eq!(c.fix_versions(), "fixVersions");
    assert_eq!(c.api_base(), "https://tracker.example.com/rest/api/2");
    assert_eq!(c.login_check_url(), "https://tracker.example.com/rest/auth/1/session");
}

#[test]
fn the_authorization_is_basic_with_base64() {
    let c = config("fixVersions", None, None);
    assert_eq!(c.authorization().unwrap(), "Basic dXNlcjpwYXNz");
    let mut d = config("fixVersions", None, None);
    d.username = "jürgen".to_string();
    d.password = "pa:ss word".to_string();
    assert_eq!(d.authorization().unwrap(), "Basic asO8cmdlbjpwYTpzcyB3b3Jk");
}

#[test]
fn reads_are_gets_without_a_body() {
    let s = session(None, None);
    assert_eq!(parts(&s.get_issue("KEY-1")), (Method::Get, "/issue/KEY-1", None));
    assert_eq!(
        parts(&s.get_transitions("KEY-1")),
        (Method::Get, "/issue/KEY-1/transitions?expand=transitions.fields", None)
    );
    assert_eq!(parts(&s.get_versions("PROJ")), (Method::Get, "/project/PROJ/versions", None));
}

#[test]
fn a_transition_posts_its_payload() {
    let s = session(None, None);
    let payload = TransitionRequest { payload: "{\"transition\":{\"id\":\"5\"}}".to_string() };
    assert_eq!(
        parts(&s.transition_issue("KEY-1", &payload)),
        (Method::Post, "/issue/KEY-1/transitions", Some("{\"transition\":{\"id\":\"5\"}}"))
    );
}

#[test]
fn a_new_version_is_posted_with_name_and_project() {
    let s = session(None, None);
    assert_eq!(
        parts(&s.add_version("PROJ", "1.2 \"beta\"")),
        (Method::Post, "/version", Some("{\"name\":\"1.2 \\\"beta\\\"\",\"project\":\"PROJ\"}"))
    );
}

#[test]
fn a_fix_version_is_added_by_name() {
    let s = session(None, None);
    assert_eq!(
        parts(&s.assign_fix_version("KEY-1", "1.2")),
        (
            Method::Put,
            "/issue/KEY-1",
            Some("{\"update\":{\"fixVersions\":[{\"add\":{\"name\":\"1.2\"}}]}}")
        )
    );
}

#[test]
fn reorder_encoding() {
    let s = session(None, None);
    let moved = Version {
        uri: "https://tracker.example.com/rest/api/2/version/12".to_string(),
        id: "12".to_string(),
        name: "1.2".to_string(),
        released: false,
    };
    let anchor = Version {
        uri: "https://tracker.example.com/rest/api/2/version/11".to_string(),
        id: "11".to_string(),
        name: "1.1".to_string(),
        released: true,
    };
    assert_eq!(
        parts(&s.reorder_version(&moved, JiraVersionPosition::First)),
        (Method::Post, "/version/12/move", Some("{\"position\":\"First\"}"))
    );
    assert_eq!(
        parts(&s.reorder_version(&moved, JiraVersionPosition::After(anchor))),
        (
            Method::Post,
            "/version/12/move",
            Some("{\"after\":\"https://tracker.example.com/rest/api/2/version/11\"}")
        )
    );
}

#[test]
fn a_comment_without_a_role_is_posted_once() {
    let s = session(None, None);
    let first = s.comment_issue("KEY-1", "done");
    assert!(!first.restricted);
    assert_eq!(
        parts(&first.request),
        (Method::Post, "/issue/KEY-1/comment", Some("{\"body\":\"done\"}"))
    );
    match next_step("KEY-1", "done", first.restricted, Ok(())) {
        CommentStep::Done(Ok(())) => {}
        other => panic!("unexpected: {:?}", other),
    }
    match next_step("KEY-1", "done", first.restricted, Err(failure(500, "down"))) {
        CommentStep::Done(Err(SessionError::Transport { operation, target, failure })) => {
            assert_eq!(operation, Operation::CommentIssue);
            assert_eq!(target, "KEY-1");
            assert_eq!(failure.status, Some(500));
            assert_eq!(failure.body, "down");
        }
        other => panic!("unexpected: {:?}", other),
    }
}

#[test]
fn a_restricted_comment_that_succeeds_is_posted_once() {
    let s = session(None, Some("Developers"));
    let first = s.comment_issue("KEY-1", "line one\nline \"two\"");
    assert!(first.restricted);
    assert_eq!(
        parts(&first.request),
        (
            Method::Post,
            "/issue/KEY-1/comment",
            Some(
                "{\"body\":\"line one\\nline \\\"two\\\"\",\"visibility\":{\"type\":\"role\",\"value\":\"Developers\"}}"
            )
        )
    );
    match next_step("KEY-1", "line one\nline \"two\"", first.restricted, Ok(())) {
        CommentStep::Done(Ok(())) => {}
        other => panic!("unexpected: {:?}", other),
    }
}

#[test]
fn comment_fallback_sequencing() {
    let s = session(None, Some("Developers"));
    let mut sent: Vec<Request> = Vec::new();
    let mut answers = vec![Err(failure(400, "no such role")), Err(failure(403, "forbidden"))];
    answers.reverse();

    let mut attempt = s.comment_issue("KEY-1", "done");
    let result = loop {
        let restricted = attempt.restricted;
        sent.push(attempt.request);
        match next_step("KEY-1", "done", restricted, answers.pop().unwrap()) {
            CommentStep::Retry(next) => attempt = next,
            CommentStep::Done(result) => break result,
        }
    };

    assert_eq!(sent.len(), 2);
    assert_eq!(
        parts(&sent[0]),
        (
            Method::Post,
            "/issue/KEY-1/comment",
            Some("{\"body\":\"done\",\"visibility\":{\"type\":\"role\",\"value\":\"Developers\"}}")
        )
    );
    assert_eq!(
        parts(&sent[1]),
        (Method::Post, "/issue/KEY-1/comment", Some("{\"body\":\"done\"}"))
    );
    match result {
        Err(SessionError::Transport { operation, target, failure }) => {
            assert_eq!(operation, Operation::CommentIssue);
            assert_eq!(target, "KEY-1");
            assert_eq!(failure.status, Some(403));
            assert_eq!(failure.body, "forbidden");
        }
        other => panic!("unexpected: {:?}", other),
    }
}

#[test]
fn a_fallback_that_succeeds_is_a_success() {
    let first = first_attempt(Some("Developers"), "KEY-1", "done");
    let second = match next_step("KEY-1", "done", first.restricted, Err(failure(400, "no role"))) {
        CommentStep::Retry(next) => next,
        other => panic!("unexpected: {:?}", other),
    };
    assert!(!second.restricted);
    assert_eq!(second.request.body.as_deref(), Some("{\"body\":\"done\"}"));
    match next_step("KEY-1", "done", second.restricted, Ok(())) {
        CommentStep::Done(Ok(())) => {}
        other => panic!("unexpected: {:?}", other),
    }
}

#[test]
fn adding_a_pending_version_reads_then_writes() {
    let s = session(Some("Pending Versions"), None);
    let read = s.add_pending_version("KEY-1", "3.4").unwrap().unwrap();
    assert_eq!(parts(&read), (Method::Get, "/issue/KEY-1", None));
    let issue = issue_with("KEY-1", "customfield_10010", " 7.7.7,1.2 ,oops");
    let write = s.add_pending_version_update("KEY-1", "3.4", &issue).unwrap().unwrap();
    assert_eq!(
        parts(&write),
        (
            Method::Put,
            "/issue/KEY-1",
            Some("{\"update\":{\"customfield_10010\":[{\"set\":\"1.2, 3.4, 7.7.7\"}]}}")
        )
    );
}

#[test]
fn dedup_on_add() {
    let s = session(Some("Pending Versions"), None);
    let issue = issue_with("KEY-1", "customfield_10010", "1.2");
    let write = s.add_pending_version_update("KEY-1", "1.2", &issue).unwrap().unwrap();
    assert_eq!(
        write.body.as_deref(),
        Some("{\"update\":{\"customfield_10010\":[{\"set\":\"1.2\"}]}}")
    );
}

#[test]
fn adding_to_an_issue_without_the_field_sets_the_one_version() {
    let s = session(Some("Pending Versions"), None);
    let issue = Issue { key: "KEY-1".to_string(), fields: Vec::new() };
    let write = s.add_pending_version_update("KEY-1", "2.0", &issue).unwrap().unwrap();
    assert_eq!(
        write.body.as_deref(),
        Some("{\"update\":{\"customfield_10010\":[{\"set\":\"2.0\"}]}}")
    );
}

#[test]
fn adding_text_that_is_no_version_is_refused() {
    let s = session(Some("Pending Versions"), None);
    match s.add_pending_version("KEY-1", "next") {
        Err(SessionError::Validation { text }) => assert_eq!(text, "next"),
        other => panic!("unexpected: {:?}", other),
    }
    let issue = issue_with("KEY-1", "customfield_10010", "1.2");
    match s.add_pending_version_update("KEY-1", " 1.3", &issue) {
        Err(SessionError::Validation { text }) => assert_eq!(text, " 1.3"),
        other => panic!("unexpected: {:?}", other),
    }
}

#[test]
fn removing_pending_versions_reads_then_writes() {
    let s = session(Some("customfield_10011"), None);
    let read = s.remove_pending_versions("KEY-2").unwrap();
    assert_eq!(parts(&read), (Method::Get, "/issue/KEY-2", None));
    let issue = issue_with("KEY-2", "customfield_10011", "5, 1.2, 3.4, 5, 1.2.0");
    let gone = vec![VersionToken::parse("1.2").unwrap(), VersionToken::parse("8").unwrap()];
    let write = s.remove_pending_versions_update("KEY-2", &gone, &issue).unwrap();
    assert_eq!(
        parts(&write),
        (
            Method::Put,
            "/issue/KEY-2",
            Some("{\"update\":{\"customfield_10011\":[{\"set\":\"3.4, 5\"}]}}")
        )
    );
    let all = vec![VersionToken::parse("5").unwrap(), VersionToken::parse("3.4").unwrap()];
    let empties = s.remove_pending_versions_update("KEY-2", &all, &issue_with("KEY-2", "customfield_10011", "3.4,5")).unwrap();
    assert_eq!(
        empties.body.as_deref(),
        Some("{\"update\":{\"customfield_10011\":[{\"set\":\"\"}]}}")
    );
}

#[test]
fn the_search_names_the_field_as_configured() {
    let s = session(Some("Pending Versions"), None);
    let search = s.find_pending_versions("PROJ").unwrap();
    assert_eq!(
        parts(&search),
        (
            Method::Get,
            "/search?maxResults=5000&jql=(project%20=%20%22PROJ%22)%20and%20%22Pending%20Versions%22%20is%20not%20EMPTY",
            None
        )
    );
}

#[test]
fn finder_aggregation() {
    let s = session(Some("Pending Versions"), None);
    let found = vec![
        Issue { key: "KEY-1".to_string(), fields: Vec::new() },
        issue_with("KEY-2", "customfield_10010", "  1.2, 3.4,5,7.7.7  "),
        issue_with("KEY-3", "customfield_10010", "1.2,  "),
    ];
    let result = s.find_pending_versions_result(&found);
    assert_eq!(result.entries().len(), 2);
    assert!(result.get("KEY-1").is_none());
    let two: Vec<String> = result.get("KEY-2").unwrap().iter().map(|t| t.to_string()).collect();
    assert_eq!(two, vec!["1.2", "3.4", "5", "7.7.7"]);
    let three: Vec<String> = result.get("KEY-3").unwrap().iter().map(|t| t.to_string()).collect();
    assert_eq!(three, vec!["1.2"]);
}

#[test]
fn disabled_feature_no_ops() {
    let s = session(None, None);
    let issue = issue_with("KEY-1", "customfield_10010", "1.2");
    assert!(matches!(s.add_pending_version("KEY-1", "1.3"), Ok(None)));
    assert!(matches!(s.add_pending_version("KEY-1", "not a version"), Ok(None)));
    assert!(matches!(s.add_pending_version_update("KEY-1", "1.3", &issue), Ok(None)));
    assert!(s.remove_pending_versions("KEY-1").is_none());
    let gone = vec![VersionToken::parse("1.2").unwrap()];
    assert!(s.remove_pending_versions_update("KEY-1", &gone, &issue).is_none());
    assert!(s.find_pending_versions("PROJ").is_none());
    assert!(s.find_pending_versions_result(&vec![issue]).entries().is_empty());
}

#[test]
fn a_failed_call_is_annotated() {
    match annotate(Operation::AddVersion, "PROJ", failure(409, "exists")) {
        SessionError::Transport { operation, target, failure } => {
            assert_eq!(operation, Operation::AddVersion);
            assert_eq!(target, "PROJ");
            assert_eq!(failure.status, Some(409));
            assert_eq!(failure.body, "exists");
        }
        other => panic!("unexpected: {:?}", other),
    }
    let ok: Result<u32, TransportFailure> = Ok(7);
    assert_eq!(conclude(Operation::GetIssue, "KEY-1", ok).unwrap(), 7);
    let failed: Result<u32, TransportFailure> =
        Err(TransportFailure { status: None, body: "timed out".to_string() });
    match conclude(Operation::GetIssue, "KEY-1", failed) {
        Err(SessionError::Transport { operation, target, failure }) => {
            assert_eq!(operation, Operation::GetIssue);
            assert_eq!(target, "KEY-1");
            assert_eq!(failure.status, None);
            assert_eq!(failure.body, "timed out");
        }
        other => panic!("unexpected: {:?}", other),
    }
}

#[test]
fn text_is_quoted_as_json() {
    let mut out = String::from("[");
    jira_session::request::push_json(&mut out, "a\\b\t\"c\"\u{1}é/");
    jira_session::request::push_text(&mut out, "]");
    assert_eq!(out, "[\"a\\\\b\\t\\\"c\\\"\\u0001é/\"]");
}

#[test]
fn requests_are_made_of_their_parts() {
    assert_eq!(parts(&Request::get("/a".to_string())), (Method::Get, "/a", None));
    assert_eq!(
        parts(&Request::post("/b".to_string(), "{}".to_string())),
        (Method::Post, "/b", Some("{}"))
    );
    assert_eq!(
        parts(&Request::put("/c".to_string(), "[]".to_string())),
        (Method::Put, "/c", Some("[]"))
    );
}

#[test]
fn a_comment_request_names_the_role_only_where_there_is_one() {
    let open = jira_session::comment::build_comment_request("K-9", "hi", None);
    assert_eq!(parts(&open), (Method::Post, "/issue/K-9/comment", Some("{\"body\":\"hi\"}")));
    let closed = jira_session::comment::build_comment_request("K-9", "hi", Some("QA \"lead\""));
    assert_eq!(
        closed.body.as_deref(),
        Some("{\"body\":\"hi\",\"visibility\":{\"type\":\"role\",\"value\":\"QA \\\"lead\\\"\"}}")
    );
}

#[test]
fn the_search_query_is_percent_encoded() {
    let s = JiraSession::new(&config("fixVersions", Some("customfield_10011"), None), &catalog())
        .unwrap();
    let search = s.find_pending_versions("A B?{é}").unwrap();
    assert_eq!(
        search.path,
        "/search?maxResults=5000&jql=(project%20=%20%22A%20B%3F%7B%C3%A9%7D%22)%20and%20%22customfield_10011%22%20is%20not%20EMPTY"
    );
}
