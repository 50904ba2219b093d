//! The tracker's data as this library sees it, the session's configuration
//! and the errors that its operations report.

use vstd::prelude::*;

verus! {

/// A field of the tracker: its canonical identifier and the label shown to
/// people. A configuration may name a field by either.
#[derive(Debug)]
pub struct Field {
    pub id: String,
    pub name: String,
}

/// A release version of a project. `uri` is the locator by which the tracker
/// refers to the version when versions are reordered; it is not the `id`.
#[derive(Debug)]
pub struct Version {
    pub uri: String,
    pub id: String,
    pub name: String,
    pub released: bool,
}

/// One field of an issue. `text` is the field's value where that value is a
/// string; a value of any other kind leaves it `None`.
#[derive(Debug)]
pub struct IssueField {
    pub id: String,
    pub text: Option<String>,
}

/// An issue: its key and its fields, keyed by field identifier.
#[derive(Debug)]
pub struct Issue {
    pub key: String,
    pub fields: Vec<IssueField>,
}

/// A workflow edge that an issue can take.
#[derive(Debug)]
pub struct Transition {
    pub id: String,
    pub name: String,
}

/// The payload that executes a transition, as the JSON text to send.
#[derive(Debug)]
pub struct TransitionRequest {
    pub payload: String,
}

/// What a session is configured with. The two field settings may each hold
/// a field's identifier or its label.
#[derive(Debug)]
pub struct JiraConfig {
    pub base_url: String,
    pub username: String,
    pub password: String,
    pub fix_versions_field: String,
    pub pending_versions_field: Option<String>,
    pub restrict_comment_visibility_to_role: Option<String>,
}

/// What the transport reports of a call that did not succeed: the status of
/// the response, where there was one, and its body or the fault's description.
#[derive(Debug)]
pub struct TransportFailure {
    pub status: Option<u16>,
    pub body: String,
}

/// A transport failure as plain values.
pub struct TransportFailureView {
    pub status: Option<u16>,
    pub body: Seq<char>,
}

impl View for TransportFailure {
    type V = TransportFailureView;

    open spec fn view(&self) -> TransportFailureView {
        TransportFailureView { status: self.status, body: self.body@ }
    }
}

/// The operations of a session.
#[derive(Clone, Copy, Debug, PartialEq, Eq, Structural)]
pub enum Operation {
    GetIssue,
    GetTransitions,
    TransitionIssue,
    CommentIssue,
    AddVersion,
    GetVersions,
    AssignFixVersion,
    ReorderVersion,
    AddPendingVersion,
    RemovePendingVersions,
    FindPendingVersions,
}

/// Why an operation did not succeed.
#[derive(Debug)]
pub enum SessionError {
    /// The configured fix-versions field is no field of the tracker.
    Configuration { field: String },
    /// A call to the tracker failed. `target` is the issue key or the project
    /// that the operation was about.
    Transport { operation: Operation, target: String, failure: TransportFailure },
    /// The version text that the caller gave denotes no version.
    Validation { text: String },
}

/// A session error as plain values.
pub enum SessionErrorView {
    Configuration { field: Seq<char> },
    Transport { operation: Operation, target: Seq<char>, failure: TransportFailureView },
    Validation { text: Seq<char> },
}

impl View for SessionError {
    type V = SessionErrorView;

    open spec fn view(&self) -> SessionErrorView {
        match self {
            SessionError::Configuration { field } => SessionErrorView::Configuration {
                field: field@,
            },
            SessionError::Transport { operation, target, failure } => SessionErrorView::Transport {
                operation: *operation,
                target: target@,
                failure: failure@,
            },
            SessionError::Validation { text } => SessionErrorView::Validation { text: text@ },
        }
    }
}

/// The characters of an optional text.
pub open spec fn text_of(text: Option<String>) -> Option<Seq<char>> {
    match text {
        Some(s) => Some(s@),
        None => None,
    }
}

/// The text of the first field with the identifier `id`, if that field's
/// value is a string.
pub open spec fn field_text(fields: Seq<IssueField>, id: Seq<char>) -> Option<Seq<char>>
    decreases fields.len(),
{
    if fields.len() == 0 {
        None
    } else if fields[0].id@ == id {
        text_of(fields[0].text)
    } else {
        field_text(fields.drop_first(), id)
    }
}

/// The identifier of the first field of the catalog whose identifier or
/// label is `name`, letter for letter.
pub open spec fn resolve(name: Seq<char>, catalog: Seq<Field>) -> Option<Seq<char>>
    decreases catalog.len(),
{
    if catalog.len() == 0 {
        None
    } else if catalog[0].id@ == name || catalog[0].name@ == name {
        Some(catalog[0].id@)
    } else {
        resolve(name, catalog.drop_first())
    }
}

impl Issue {
    /// The text of the field `id`, where the issue has that field and its
    /// value is a string.
    pub fn text_field(&self, id: &str) -> (r: Option<&str>)
        ensures
            match r {
                Some(text) => field_text(self.fields@, id@) == Some(text@),
                None => field_text(self.fields@, id@) is None,
            },
    {
        let wanted = id.to_owned();
        let mut i: usize = 0;
        assert(self.fields@.skip(0) == self.fields@);
        while i < self.fields.len()
            invariant
                i <= self.fields.len(),
                wanted@ == id@,
                field_text(self.fields@, id@) == field_text(self.fields@.skip(i as int), id@),
            decreases self.fields.len() - i,
        {
            assert(self.fields@.skip(i as int).drop_first() == self.fields@.skip(i as int + 1));
            if self.fields[i].id == wanted {
                return match &self.fields[i].text {
                    Some(text) => Some(text.as_str()),
                    None => None,
                };
            }
            i += 1;
        }
        None
    }
}

/// The error for a call to the tracker that failed, with the operation and
/// what it was about.
pub fn annotate(operation: Operation, target: &str, failure: TransportFailure) -> (r: SessionError)
    ensures
        r@ == (SessionErrorView::Transport { operation, target: target@, failure: failure@ }),
{
    SessionError::Transport { operation, target: target.to_owned(), failure }
}

/// The result of an operation that ends with a call to the tracker, from
/// what the transport reports of that call.
pub fn conclude<T>(operation: Operation, target: &str, outcome: Result<T, TransportFailure>) -> (r:
    Result<T, SessionError>)
    ensures
        match outcome {
            Ok(value) => r == Ok::<T, SessionError>(value),
            Err(failure) => r is Err && r->Err_0@ == (SessionErrorView::Transport {
                operation,
                target: target@,
                failure: failure@,
            }),
        },
{
    match outcome {
        Ok(value) => Ok(value),
        Err(failure) => Err(annotate(operation, target, failure)),
    }
}

} // verus!
