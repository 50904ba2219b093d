//! A session with the tracker: the fields it resolved when it was set up,
//! and for each operation the request to send and what to make of the answer.
//!
//! A [`JiraSession`] sends nothing itself. Each of its operations gives the
//! request that a transport is to carry out; where an operation takes two
//! calls, a second function takes what the first call brought and gives the
//! next request. [`Session`] is the blocking interface that an adapter with
//! a transport offers on top of this.
//!
//! The two calls of a change to the pending versions of an issue are not
//! atomic: another writer may change the field between the read and the
//! write, and the later write then replaces the earlier one. Callers that
//! change one issue from several places serialize those changes themselves.

use crate::codec::{encode, encode_text, views};
use crate::comment::{first_attempt, first_attempt_of, CommentAttempt};
use crate::model::{
    resolve, text_of, Field, Issue, JiraConfig, SessionError, SessionErrorView, Transition,
    TransitionRequest, Version,
};
use crate::pending::{
    gather, parse_pending_version_field, parse_pending_versions, pending_of, remove_versions,
    without, PendingVersions,
};
use crate::request::{
    base64_encode, base64_text, get_of, json_string, percent_encode, percent_encoded, post_of,
    push_json, push_text, put_of, Request, RequestView,
};
use crate::version::{parse_version, VersionToken};
use vstd::prelude::*;

verus! {

/// Where a version goes when the versions of a project are reordered.
#[derive(Debug)]
pub enum JiraVersionPosition {
    /// To the head of the project's versions.
    First,
    /// Right behind the given version.
    After(Version),
}

/// The pending-versions field of a session.
#[derive(Debug)]
pub enum PendingVersionsField {
    /// No such field is configured, or the configured one is no field of
    /// the tracker: the operations on pending versions do nothing.
    Disabled,
    /// The field as the configuration names it, and its identifier.
    Enabled { field: String, field_id: String },
}

/// An enabled pending-versions field as plain values.
pub struct PendingFieldView {
    pub field: Seq<char>,
    pub field_id: Seq<char>,
}

/// A session as plain values.
pub struct SessionView {
    /// The identifier of the fix-versions field.
    pub fix_versions_field: Seq<char>,
    /// The pending-versions field, where the feature is enabled.
    pub pending_versions: Option<PendingFieldView>,
    /// The role to which comments are restricted, where one is configured.
    pub comment_role: Option<Seq<char>>,
}

/// What was settled when the session was set up. It does not change while
/// the session lives.
#[derive(Debug)]
pub struct JiraSession {
    fix_versions_field: String,
    pending_versions: PendingVersionsField,
    restrict_comment_visibility_to_role: Option<String>,
}

/// The blocking operations of a session, as an adapter with a transport
/// offers them. Each operation makes its calls through the transport and
/// gives the result; a change to pending versions and a search for them
/// succeed without a call where the feature is disabled.
pub trait Session: Send + Sync {
    fn get_issue(&self, key: &str) -> Result<Issue, SessionError>;

    fn get_transitions(&self, key: &str) -> Result<Vec<Transition>, SessionError>;

    fn transition_issue(&self, key: &str, transition: &TransitionRequest) -> Result<
        (),
        SessionError,
    >;

    fn comment_issue(&self, key: &str, comment: &str) -> Result<(), SessionError>;

    fn add_version(&self, proj: &str, version: &str) -> Result<(), SessionError>;

    fn get_versions(&self, proj: &str) -> Result<Vec<Version>, SessionError>;

    fn assign_fix_version(&self, key: &str, version: &str) -> Result<(), SessionError>;

    fn reorder_version(&self, version: &Version, position: JiraVersionPosition) -> Result<
        (),
        SessionError,
    >;

    fn add_pending_version(&self, key: &str, version: &str) -> Result<(), SessionError>;

    fn remove_pending_versions(&self, key: &str, versions: &Vec<VersionToken>) -> Result<
        (),
        SessionError,
    >;

    fn find_pending_versions(&self, proj: &str) -> Result<PendingVersions, SessionError>;
}

/// The binding of the optional pending-versions field: enabled where a
/// field is configured and the catalog has it, disabled otherwise.
pub open spec fn pending_binding(configured: Option<Seq<char>>, catalog: Seq<Field>) -> Option<
    PendingFieldView,
> {
    match configured {
        None => None,
        Some(name) => match resolve(name, catalog) {
            Some(id) => Some(PendingFieldView { field: name, field_id: id }),
            None => None,
        },
    }
}

/// The session that a configuration and the tracker's field catalog give,
/// or nothing where the fix-versions field cannot be resolved.
pub open spec fn session_for(config: JiraConfig, catalog: Seq<Field>) -> Option<SessionView> {
    match resolve(config.fix_versions_field@, catalog) {
        None => None,
        Some(id) => Some(
            SessionView {
                fix_versions_field: id,
                pending_versions: pending_binding(
                    text_of(config.pending_versions_field),
                    catalog,
                ),
                comment_role: text_of(config.restrict_comment_visibility_to_role),
            },
        ),
    }
}

/// The path of the issue `key`.
pub open spec fn issue_path(key: Seq<char>) -> Seq<char> {
    "/issue/"@ + key
}

/// The path that lists the transitions of the issue `key`, with the fields
/// of each transition.
pub open spec fn transitions_query_path(key: Seq<char>) -> Seq<char> {
    "/issue/"@ + key + "/transitions?expand=transitions.fields"@
}

/// The path to which a transition of the issue `key` is posted.
pub open spec fn transitions_path(key: Seq<char>) -> Seq<char> {
    "/issue/"@ + key + "/transitions"@
}

/// The path that lists the versions of a project.
pub open spec fn versions_path(project: Seq<char>) -> Seq<char> {
    "/project/"@ + project + "/versions"@
}

/// The path to which the new place of the version `id` is posted.
pub open spec fn move_path(id: Seq<char>) -> Seq<char> {
    "/version/"@ + id + "/move"@
}

/// The body that creates the version `name` in `project`.
pub open spec fn new_version_body(name: Seq<char>, project: Seq<char>) -> Seq<char> {
    "{\"name\":"@ + json_string(name) + ",\"project\":"@ + json_string(project) + "}"@
}

/// The body that adds the version called `name` to the values of `field`,
/// leaving the values that the field has.
pub open spec fn add_name_body(field: Seq<char>, name: Seq<char>) -> Seq<char> {
    "{\"update\":{"@ + json_string(field) + ":[{\"add\":{\"name\":"@ + json_string(name)
        + "}}]}}"@
}

/// The body that replaces the value of `field` by the text `value`.
pub open spec fn set_text_body(field: Seq<char>, value: Seq<char>) -> Seq<char> {
    "{\"update\":{"@ + json_string(field) + ":[{\"set\":"@ + json_string(value) + "}]}}"@
}

/// The body that says where a version goes: an anchor is named by its
/// locator.
pub open spec fn move_body(position: JiraVersionPosition) -> Seq<char> {
    match position {
        JiraVersionPosition::First => "{\"position\":\"First\"}"@,
        JiraVersionPosition::After(anchor) => "{\"after\":"@ + json_string(anchor.uri@) + "}"@,
    }
}

/// The query for the issues of `project` whose field `field` is not empty.
pub open spec fn search_query(project: Seq<char>, field: Seq<char>) -> Seq<char> {
    "(project = \""@ + project + "\") and \""@ + field + "\" is not EMPTY"@
}

/// The path of the search for that query, capped at 5000 results.
pub open spec fn search_path(project: Seq<char>, field: Seq<char>) -> Seq<char> {
    "/search?maxResults=5000&jql="@ + percent_encoded(search_query(project, field))
}

/// A plan as plain values: the request to send, nothing to send, or the
/// error that ends the operation.
pub open spec fn plan_view(plan: Result<Option<Request>, SessionError>) -> Result<
    Option<RequestView>,
    SessionErrorView,
> {
    match plan {
        Ok(Some(request)) => Ok(Some(request@)),
        Ok(None) => Ok(None),
        Err(e) => Err(e@),
    }
}

/// A request, or none, as plain values.
pub open spec fn request_view(request: Option<Request>) -> Option<RequestView> {
    match request {
        Some(r) => Some(r@),
        None => None,
    }
}

/// The read that starts adding the pending version `version` to the issue
/// `key`. With the feature disabled there is nothing to do; text that is no
/// version ends the operation before any call.
pub open spec fn add_pending_read(session: SessionView, key: Seq<char>, version: Seq<char>)
    -> Result<Option<RequestView>, SessionErrorView> {
    match session.pending_versions {
        None => Ok(None),
        Some(_) => match parse_version(version) {
            None => Err(SessionErrorView::Validation { text: version }),
            Some(_) => Ok(Some(get_of(issue_path(key)))),
        },
    }
}

/// The write that adds the pending version: the field of the issue as read
/// is decoded, the new version is put behind what it holds, and the whole
/// is encoded and set.
pub open spec fn add_pending_write(
    session: SessionView,
    key: Seq<char>,
    version: Seq<char>,
    issue: Issue,
) -> Result<Option<RequestView>, SessionErrorView> {
    match session.pending_versions {
        None => Ok(None),
        Some(field) => match parse_version(version) {
            None => Err(SessionErrorView::Validation { text: version }),
            Some(token) => Ok(
                Some(
                    put_of(
                        issue_path(key),
                        set_text_body(
                            field.field_id,
                            encode_text(pending_of(issue, field.field_id).push(token)),
                        ),
                    ),
                ),
            ),
        },
    }
}

/// The read that starts removing pending versions from the issue `key`.
pub open spec fn remove_pending_read(session: SessionView, key: Seq<char>) -> Option<RequestView> {
    match session.pending_versions {
        None => None,
        Some(_) => Some(get_of(issue_path(key))),
    }
}

/// The write that removes pending versions: of what the field of the issue
/// as read holds, the versions that are none of `versions` are encoded and
/// set.
pub open spec fn remove_pending_write(
    session: SessionView,
    key: Seq<char>,
    versions: Seq<Seq<nat>>,
    issue: Issue,
) -> Option<RequestView> {
    match session.pending_versions {
        None => None,
        Some(field) => Some(
            put_of(
                issue_path(key),
                set_text_body(
                    field.field_id,
                    encode_text(without(pending_of(issue, field.field_id), versions)),
                ),
            ),
        ),
    }
}

/// The search for the issues of `project` that have pending versions. The
/// query names the field as the configuration does.
pub open spec fn find_pending_search(session: SessionView, project: Seq<char>) -> Option<
    RequestView,
> {
    match session.pending_versions {
        None => None,
        Some(field) => Some(get_of(search_path(project, field.field))),
    }
}

/// The pending versions by issue key for the issues that the search found.
pub open spec fn find_pending_result(session: SessionView, found: Seq<Issue>) -> Map<
    Seq<char>,
    Seq<Seq<nat>>,
> {
    match session.pending_versions {
        None => Map::empty(),
        Some(field) => gather(found, field.field_id),
    }
}

/// With the pending-versions feature disabled, adding and removing pending
/// versions plan no call at all, neither a read nor a write, and succeed;
/// a search for pending versions plans no call and gives the empty mapping.
pub proof fn lemma_disabled_plans_nothing(
    session: SessionView,
    key: Seq<char>,
    version: Seq<char>,
    versions: Seq<Seq<nat>>,
    issue: Issue,
    project: Seq<char>,
    found: Seq<Issue>,
)
    requires
        session.pending_versions is None,
    ensures
        add_pending_read(session, key, version) == Ok::<Option<RequestView>, SessionErrorView>(
            None,
        ),
        add_pending_write(session, key, version, issue) == Ok::<
            Option<RequestView>,
            SessionErrorView,
        >(None),
        remove_pending_read(session, key) is None,
        remove_pending_write(session, key, versions, issue) is None,
        find_pending_search(session, project) is None,
        find_pending_result(session, found) == Map::<Seq<char>, Seq<Seq<nat>>>::empty(),
{
}

/// The identifier of the first field of the catalog whose identifier or
/// label is `field`; the error names the field where there is none.
pub fn lookup_field(field: &str, fields: &Vec<Field>) -> (r: Result<String, SessionError>)
    ensures
        match resolve(field@, fields@) {
            Some(id) => r is Ok && r->Ok_0@ == id,
            None => r is Err && r->Err_0@ == (SessionErrorView::Configuration { field: field@ }),
        },
{
    let wanted = field.to_owned();
    let mut i: usize = 0;
    assert(fields@.skip(0) == fields@);
    while i < fields.len()
        invariant
            i <= fields.len(),
            wanted@ == field@,
            resolve(field@, fields@) == resolve(field@, fields@.skip(i as int)),
        decreases fields.len() - i,
    {
        assert(fields@.skip(i as int).drop_first() == fields@.skip(i as int + 1));
        if fields[i].id == wanted || fields[i].name == wanted {
            return Ok(fields[i].id.clone());
        }
        i += 1;
    }
    Err(SessionError::Configuration { field: wanted })
}

/// A copy of an optional text.
fn copy_text(text: &Option<String>) -> (r: Option<String>)
    ensures
        text_of(r) == text_of(*text),
{
    match text {
        Some(s) => Some(s.clone()),
        None => None,
    }
}

/// The path of the issue `key`.
fn issue_path_of(key: &str) -> (r: String)
    ensures
        r@ == issue_path(key@),
{
    let mut path = String::new();
    push_text(&mut path, "/issue/");
    push_text(&mut path, key);
    path
}

/// The request that sets the text of `field` on the issue `key`.
fn set_text_request(key: &str, field: &str, value: &str) -> (r: Request)
    ensures
        r@ == put_of(issue_path(key@), set_text_body(field@, value@)),
{
    let mut body = String::new();
    push_text(&mut body, "{\"update\":{");
    push_json(&mut body, field);
    push_text(&mut body, ":[{\"set\":");
    push_json(&mut body, value);
    push_text(&mut body, "}]}}");
    Request::put(issue_path_of(key), body)
}

impl JiraConfig {
    /// The address of the tracker.
    pub fn base_url(&self) -> (r: String)
        ensures
            r@ == self.base_url@,
    {
        self.base_url.clone()
    }

    /// The configured name of the fix-versions field.
    pub fn fix_versions(&self) -> (r: String)
        ensures
            r@ == self.fix_versions_field@,
    {
        self.fix_versions_field.clone()
    }

    /// The base of the REST interface, below which the paths of all
    /// requests lie.
    pub fn api_base(&self) -> (r: String)
        ensures
            r@ == self.base_url@ + "/rest/api/2"@,
    {
        let mut out = self.base_url.clone();
        push_text(&mut out, "/rest/api/2");
        out
    }

    /// The address that answers with the name of the user logged in.
    pub fn login_check_url(&self) -> (r: String)
        ensures
            r@ == self.base_url@ + "/rest/auth/1/session"@,
    {
        let mut out = self.base_url.clone();
        push_text(&mut out, "/rest/auth/1/session");
        out
    }

    /// The value of the `Authorization` header for HTTP Basic
    /// authentication: the user name, a colon and the password, in base64.
    /// `None` where the credentials are longer than half the address space.
    pub fn authorization(&self) -> (r: Option<String>)
        ensures
            match r {
                Some(value) => value@ == "Basic "@ + base64_text(
                    vstd::utf8::encode_utf8(self.username@ + seq![':'] + self.password@),
                ),
                None => vstd::utf8::encode_utf8(
                    self.username@ + seq![':'] + self.password@,
                ).len() > usize::MAX / 2,
            },
    {
        let mut credentials = self.username.clone();
        credentials.push(':');
        push_text(&mut credentials, self.password.as_str());
        assert(credentials@ == self.username@ + seq![':'] + self.password@);
        let bytes = credentials.as_str().as_bytes();
        if bytes.len() > usize::MAX / 2 {
            return None;
        }
        let mut out = String::new();
        push_text(&mut out, "Basic ");
        let encoded = base64_encode(bytes);
        push_text(&mut out, encoded.as_str());
        Some(out)
    }
}

impl View for JiraSession {
    type V = SessionView;

    closed spec fn view(&self) -> SessionView {
        SessionView {
            fix_versions_field: self.fix_versions_field@,
            pending_versions: match self.pending_versions {
                PendingVersionsField::Disabled => None,
                PendingVersionsField::Enabled { field, field_id } => Some(
                    PendingFieldView { field: field@, field_id: field_id@ },
                ),
            },
            comment_role: text_of(self.restrict_comment_visibility_to_role),
        }
    }
}

impl JiraSession {
    /// Sets a session up from its configuration and the tracker's field
    /// catalog. The fix-versions field must be in the catalog, by
    /// identifier or by label: else there is no session. A pending-versions
    /// field that is not configured, or not in the catalog, disables that
    /// feature and is no error.
    pub fn new(config: &JiraConfig, fields: &Vec<Field>) -> (r: Result<JiraSession, SessionError>)
        ensures
            match session_for(*config, fields@) {
                Some(session) => r is Ok && r->Ok_0@ == session,
                None => r is Err && r->Err_0@ == (SessionErrorView::Configuration {
                    field: config.fix_versions_field@,
                }),
            },
    {
        let pending_versions = match &config.pending_versions_field {
            Some(name) => match lookup_field(name.as_str(), fields) {
                Ok(field_id) => PendingVersionsField::Enabled { field: name.clone(), field_id },
                Err(_) => PendingVersionsField::Disabled,
            },
            None => PendingVersionsField::Disabled,
        };
        let fix_versions_field = match lookup_field(config.fix_versions_field.as_str(), fields) {
            Ok(id) => id,
            Err(e) => {
                return Err(e);
            },
        };
        Ok(
            JiraSession {
                fix_versions_field,
                pending_versions,
                restrict_comment_visibility_to_role: copy_text(
                    &config.restrict_comment_visibility_to_role,
                ),
            },
        )
    }

    /// The identifier of the fix-versions field.
    pub fn fix_versions_field(&self) -> (r: &str)
        ensures
            r@ == self@.fix_versions_field,
    {
        self.fix_versions_field.as_str()
    }

    /// The pending-versions field, or that the feature is disabled.
    pub fn pending_versions_field(&self) -> (r: &PendingVersionsField)
        ensures
            match *r {
                PendingVersionsField::Disabled => self@.pending_versions is None,
                PendingVersionsField::Enabled { field, field_id } => self@.pending_versions == Some(
                    PendingFieldView { field: field@, field_id: field_id@ },
                ),
            },
    {
        &self.pending_versions
    }

    /// The role to which comments are restricted, where one is configured.
    pub fn comment_role(&self) -> (r: Option<&str>)
        ensures
            match r {
                Some(role) => self@.comment_role == Some(role@),
                None => self@.comment_role is None,
            },
    {
        match &self.restrict_comment_visibility_to_role {
            Some(role) => Some(role.as_str()),
            None => None,
        }
    }

    /// The request that reads the issue `key`.
    pub fn get_issue(&self, key: &str) -> (r: Request)
        ensures
            r@ == get_of(issue_path(key@)),
    {
        Request::get(issue_path_of(key))
    }

    /// The request that reads the transitions open to the issue `key`,
    /// each with its fields.
    pub fn get_transitions(&self, key: &str) -> (r: Request)
        ensures
            r@ == get_of(transitions_query_path(key@)),
    {
        let mut path = issue_path_of(key);
        push_text(&mut path, "/transitions?expand=transitions.fields");
        Request::get(path)
    }

    /// The request that makes the issue `key` take a transition.
    pub fn transition_issue(&self, key: &str, transition: &TransitionRequest) -> (r: Request)
        ensures
            r@ == post_of(transitions_path(key@), transition.payload@),
    {
        let mut path = issue_path_of(key);
        push_text(&mut path, "/transitions");
        Request::post(path, transition.payload.clone())
    }

    /// The first attempt at posting `comment` on the issue `key`:
    /// restricted to the configured role where there is one. What follows
    /// the attempt is for [`crate::comment::next_step`] to say.
    pub fn comment_issue(&self, key: &str, comment: &str) -> (r: CommentAttempt)
        ensures
            r@ == first_attempt_of(self@.comment_role, key@, comment@),
    {
        first_attempt(self.comment_role(), key, comment)
    }

    /// The request that creates the version `version` in the project
    /// `proj`. Nothing keeps a second call from creating it again.
    pub fn add_version(&self, proj: &str, version: &str) -> (r: Request)
        ensures
            r@ == post_of("/version"@, new_version_body(version@, proj@)),
    {
        let mut path = String::new();
        push_text(&mut path, "/version");
        let mut body = String::new();
        push_text(&mut body, "{\"name\":");
        push_json(&mut body, version);
        push_text(&mut body, ",\"project\":");
        push_json(&mut body, proj);
        push_text(&mut body, "}");
        Request::post(path, body)
    }

    /// The request that reads the versions of the project `proj`.
    pub fn get_versions(&self, proj: &str) -> (r: Request)
        ensures
            r@ == get_of(versions_path(proj@)),
    {
        let mut path = String::new();
        push_text(&mut path, "/project/");
        push_text(&mut path, proj);
        push_text(&mut path, "/versions");
        Request::get(path)
    }

    /// The request that adds the version called `version` to the fix
    /// versions of the issue `key`. The fix versions that the issue has
    /// stay; the tracker finds the version by its name.
    pub fn assign_fix_version(&self, key: &str, version: &str) -> (r: Request)
        ensures
            r@ == put_of(issue_path(key@), add_name_body(self@.fix_versions_field, version@)),
    {
        let mut body = String::new();
        push_text(&mut body, "{\"update\":{");
        push_json(&mut body, self.fix_versions_field.as_str());
        push_text(&mut body, ":[{\"add\":{\"name\":");
        push_json(&mut body, version);
        push_text(&mut body, "}}]}}");
        Request::put(issue_path_of(key), body)
    }

    /// The request that moves `version` to `position` among the versions
    /// of its project.
    pub fn reorder_version(&self, version: &Version, position: JiraVersionPosition) -> (r: Request)
        ensures
            r@ == post_of(move_path(version.id@), move_body(position)),
    {
        let mut path = String::new();
        push_text(&mut path, "/version/");
        push_text(&mut path, version.id.as_str());
        push_text(&mut path, "/move");
        let mut body = String::new();
        match &position {
            JiraVersionPosition::First => {
                push_text(&mut body, "{\"position\":\"First\"}");
            },
            JiraVersionPosition::After(anchor) => {
                push_text(&mut body, "{\"after\":");
                push_json(&mut body, anchor.uri.as_str());
                push_text(&mut body, "}");
            },
        }
        Request::post(path, body)
    }

    /// The first step of adding the pending version `version` to the issue
    /// `key`: the read of the issue. `Ok(None)` where the feature is
    /// disabled: the operation has succeeded and nothing is sent. Where
    /// the feature is enabled and `version` denotes no version, the error.
    pub fn add_pending_version(&self, key: &str, version: &str) -> (r: Result<
        Option<Request>,
        SessionError,
    >)
        ensures
            plan_view(r) == add_pending_read(self@, key@, version@),
    {
        match &self.pending_versions {
            PendingVersionsField::Disabled => Ok(None),
            PendingVersionsField::Enabled { field, field_id } => {
                match VersionToken::parse(version) {
                    None => Err(SessionError::Validation { text: version.to_owned() }),
                    Some(_) => Ok(Some(Request::get(issue_path_of(key)))),
                }
            },
        }
    }

    /// The second step of adding the pending version `version` to the
    /// issue `key`, given the issue as read: the write that sets the field
    /// to what it held and the new version, in ascending order, one of each.
    pub fn add_pending_version_update(&self, key: &str, version: &str, issue: &Issue) -> (r: Result<
        Option<Request>,
        SessionError,
    >)
        ensures
            plan_view(r) == add_pending_write(self@, key@, version@, *issue),
    {
        match &self.pending_versions {
            PendingVersionsField::Disabled => Ok(None),
            PendingVersionsField::Enabled { field, field_id } => {
                match VersionToken::parse(version) {
                    None => Err(SessionError::Validation { text: version.to_owned() }),
                    Some(token) => {
                        let mut pending = parse_pending_version_field(
                            issue.text_field(field_id.as_str()),
                        );
                        let ghost before = views(pending@);
                        assert(before == pending_of(*issue, field_id@));
                        pending.push(token);
                        assert(views(pending@) == before.push(token@));
                        let value = encode(&pending);
                        Ok(Some(set_text_request(key, field_id.as_str(), value.as_str())))
                    },
                }
            },
        }
    }

    /// The first step of removing pending versions from the issue `key`:
    /// the read of the issue. `None` where the feature is disabled: the
    /// operation has succeeded and nothing is sent.
    pub fn remove_pending_versions(&self, key: &str) -> (r: Option<Request>)
        ensures
            request_view(r) == remove_pending_read(self@, key@),
    {
        match &self.pending_versions {
            PendingVersionsField::Disabled => None,
            PendingVersionsField::Enabled { field, field_id } => Some(
                Request::get(issue_path_of(key)),
            ),
        }
    }

    /// The second step of removing `versions` from the pending versions of
    /// the issue `key`, given the issue as read: the write that sets the
    /// field to what is left, in ascending order, one of each.
    pub fn remove_pending_versions_update(
        &self,
        key: &str,
        versions: &Vec<VersionToken>,
        issue: &Issue,
    ) -> (r: Option<Request>)
        ensures
            request_view(r) == remove_pending_write(self@, key@, views(versions@), *issue),
    {
        match &self.pending_versions {
            PendingVersionsField::Disabled => None,
            PendingVersionsField::Enabled { field, field_id } => {
                let pending = parse_pending_version_field(issue.text_field(field_id.as_str()));
                assert(views(pending@) == pending_of(*issue, field_id@));
                let left = remove_versions(&pending, versions);
                let value = encode(&left);
                Some(set_text_request(key, field_id.as_str(), value.as_str()))
            },
        }
    }

    /// The search for the issues of `project` that have pending versions:
    /// one query, capped at 5000 results. `None` where the feature is
    /// disabled: nothing is sent, and the result is the empty mapping.
    pub fn find_pending_versions(&self, project: &str) -> (r: Option<Request>)
        ensures
            request_view(r) == find_pending_search(self@, project@),
    {
        match &self.pending_versions {
            PendingVersionsField::Disabled => None,
            PendingVersionsField::Enabled { field, field_id } => {
                let mut jql = String::new();
                push_text(&mut jql, "(project = \"");
                push_text(&mut jql, project);
                push_text(&mut jql, "\") and \"");
                push_text(&mut jql, field.as_str());
                push_text(&mut jql, "\" is not EMPTY");
                assert(jql@ == search_query(project@, field@));
                let encoded = percent_encode(jql.as_str());
                let mut path = String::new();
                push_text(&mut path, "/search?maxResults=5000&jql=");
                push_text(&mut path, encoded.as_str());
                Some(Request::get(path))
            },
        }
    }

    /// The pending versions by issue key for the issues that the search
    /// found; the empty mapping where the feature is disabled.
    pub fn find_pending_versions_result(&self, found: &Vec<Issue>) -> (r: PendingVersions)
        ensures
            r@ == find_pending_result(self@, found@),
    {
        match &self.pending_versions {
            PendingVersionsField::Disabled => PendingVersions::new(),
            PendingVersionsField::Enabled { field, field_id } => parse_pending_versions(
                found,
                field_id.as_str(),
            ),
        }
    }
}

} // verus!
