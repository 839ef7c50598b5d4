//! The GitHub issue tracker: the requests it is sent and how its answers are judged.

use vstd::prelude::*;
use crate::config::Config;
use crate::helpers::{build_string_query, query_string, query_view};
use crate::text::decimal;
use super::tracker::{HttpMethod, IssueTracker, TrackerRequest};

verus! {

/// Declares `serde_json::Error`, the error of a value that does not serialise.
#[verifier::external_type_specification]
#[verifier::external_body]
pub struct ExJsonError(serde_json::Error);

/// The lowercase hexadecimal digit of `d`, below 16.
pub open spec fn hex_digit(d: int) -> char {
    if d < 10 {
        (d + 48) as char
    } else {
        (d + 87) as char
    }
}

/// How `serde_json` writes one character inside a string literal: `"` and `\` and
/// the control characters below `0x20` are escaped, the usual ones by letter and the
/// others as `\u00XX`; every other character stands as it is.
pub open spec fn json_escaped_char(c: char) -> Seq<char> {
    if c == '"' {
        seq!['\\', '"']
    } else if c == '\\' {
        seq!['\\', '\\']
    } else if c == '\x08' {
        seq!['\\', 'b']
    } else if c == '\t' {
        seq!['\\', 't']
    } else if c == '\n' {
        seq!['\\', 'n']
    } else if c == '\x0c' {
        seq!['\\', 'f']
    } else if c == '\r' {
        seq!['\\', 'r']
    } else if (c as int) < 0x20 {
        seq!['\\', 'u', '0', '0', hex_digit(c as int / 16), hex_digit(c as int % 16)]
    } else {
        seq![c]
    }
}

/// The characters of `text`, each as `serde_json` writes it inside a string literal.
pub open spec fn json_escaped(text: Seq<char>) -> Seq<char>
    decreases text.len(),
{
    if text.len() == 0 {
        Seq::empty()
    } else {
        json_escaped(text.drop_last()) + json_escaped_char(text.last())
    }
}

/// The JSON string literal that `serde_json::to_string` writes for `text`.
pub open spec fn json_string(text: Seq<char>) -> Seq<char> {
    seq!['"'] + json_escaped(text) + seq!['"']
}

/// Writes `text` as a JSON string literal with `serde_json::to_string`. Claimed: it
/// succeeds (a `str` serialises into a `Vec` that cannot fail to take it), and the
/// literal is `json_string` of the text: the text between double quotes with `"`,
/// `\` and control characters escaped, as `format_escaped_str` does.
#[verifier::external_body]
fn json_quote(text: &str) -> (res: Result<String, serde_json::Error>)
    ensures
        res is Ok,
        res matches Ok(s) ==> s@ == json_string(text@),
{
    serde_json::to_string(text)
}

/// The GitHub repository that issues are tracked in.
pub struct Github {
    base_tracker_url: String,
    owner: String,
    repo: String,
    issues_per_request: String,
    token: String,
}

/// The repository's settings as character sequences.
pub struct GithubModel {
    pub base_tracker_url: Seq<char>,
    pub owner: Seq<char>,
    pub repo: Seq<char>,
    pub issues_per_request: Seq<char>,
    pub token: Seq<char>,
}

impl View for Github {
    type V = GithubModel;

    closed spec fn view(&self) -> GithubModel {
        GithubModel {
            base_tracker_url: self.base_tracker_url@,
            owner: self.owner@,
            repo: self.repo@,
            issues_per_request: self.issues_per_request@,
            token: self.token@,
        }
    }
}

/// The tracker for the repository that `config` names.
pub fn init_instance(config: Config) -> (g: Github)
    ensures
        g@.base_tracker_url == config.base_tracker_url@,
        g@.owner == config.owner@,
        g@.repo == config.repo@,
        g@.issues_per_request == config.issues_per_request@,
        g@.token == config.token@,
{
    Github {
        base_tracker_url: config.base_tracker_url,
        owner: config.owner,
        issues_per_request: config.issues_per_request,
        repo: config.repo,
        token: config.token,
    }
}

/// `<base>/repos/<owner>/<repo>/issues`.
pub open spec fn issues_url(g: GithubModel) -> Seq<char> {
    g.base_tracker_url + "/repos/"@ + g.owner + "/"@ + g.repo + "/issues"@
}

/// The `User-Agent` that every request carries.
pub open spec fn user_agent() -> Seq<char> {
    "SnitchRs"@
}

/// The body that asks for an issue whose title is the JSON literal `title_json`, with
/// an empty body: a JSON object with its keys in order, as `serde_json` writes a map.
pub open spec fn create_issue_body(title_json: Seq<char>) -> Seq<char> {
    "{\"body\":\"\",\"title\":"@ + title_json + "}"@
}

impl IssueTracker for Github {
    closed spec fn spec_request_url(&self) -> Seq<char> {
        issues_url(self@)
    }

    fn build_request_url(&self) -> (url: String) {
        let mut url = self.base_tracker_url.clone();
        url.append("/repos/");
        url.append(self.owner.as_str());
        url.append("/");
        url.append(self.repo.as_str());
        url.append("/issues");
        url
    }
}

impl Github {
    /// The url of the repository's issues, as [`IssueTracker::build_request_url`] builds it.
    pub proof fn lemma_request_url(&self)
        ensures
            self.spec_request_url() == issues_url(self@),
    {
    }

    /// The request for the first page of issues: `GET <issues url>?per_page=<n>&`.
    pub fn fetch_issues_request(&self) -> (req: TrackerRequest)
        ensures
            req.method == HttpMethod::Get,
            req.url@ == issues_url(self@) + "?"@ + query_string(
                seq![("per_page"@, self@.issues_per_request)],
            ),
            req.user_agent@ == user_agent(),
            req.authorization@ == self@.token,
            req.body is None,
    {
        let mut query = Vec::new();
        query.push(("per_page", self.issues_per_request.as_str()));
        proof {
            assert(query_view(query@) =~= seq![("per_page"@, self@.issues_per_request)]);
        }
        let query_text = build_string_query(query);
        let mut url = self.build_request_url();
        url.append("?");
        url.append(query_text.as_str());
        TrackerRequest {
            method: HttpMethod::Get,
            url,
            user_agent: String::from_str("SnitchRs"),
            authorization: self.token.clone(),
            body: None,
        }
    }

    /// The request for one issue: `GET <issues url>/<number>`.
    pub fn fetch_issue_request(&self, issue_number: &str) -> (req: TrackerRequest)
        ensures
            req.method == HttpMethod::Get,
            req.url@ == issues_url(self@) + "/"@ + issue_number@,
            req.user_agent@ == user_agent(),
            req.authorization@ == self@.token,
            req.body is None,
    {
        let mut url = self.build_request_url();
        url.append("/");
        url.append(issue_number);
        TrackerRequest {
            method: HttpMethod::Get,
            url,
            user_agent: String::from_str("SnitchRs"),
            authorization: self.token.clone(),
            body: None,
        }
    }

    /// The request that creates an issue whose title is the JSON string literal
    /// `title_json`: `POST <issues url>` with the body `{"body":"","title":<literal>}`.
    pub fn create_issue_request_for_literal(&self, title_json: &str) -> (req: TrackerRequest)
        ensures
            req.method == HttpMethod::Post,
            req.url@ == issues_url(self@),
            req.user_agent@ == user_agent(),
            req.authorization@ == self@.token,
            req.body matches Some(body) && body@ == create_issue_body(title_json@),
    {
        let mut body = String::from_str("{\"body\":\"\",\"title\":");
        body.append(title_json);
        body.append("}");
        TrackerRequest {
            method: HttpMethod::Post,
            url: self.build_request_url(),
            user_agent: String::from_str("SnitchRs"),
            authorization: self.token.clone(),
            body: Some(body),
        }
    }

    /// The request that creates an issue titled `title`: `POST <issues url>` with the
    /// JSON body `{"body":"","title":<title>}`, the title written by `serde_json`.
    pub fn create_issue_request(&self, title: &str) -> (req: TrackerRequest)
        ensures
            req.method == HttpMethod::Post,
            req.url@ == issues_url(self@),
            req.user_agent@ == user_agent(),
            req.authorization@ == self@.token,
            req.body matches Some(body) && body@ == create_issue_body(json_string(title@)),
    {
        let quoted = json_quote(title).unwrap();
        self.create_issue_request_for_literal(quoted.as_str())
    }
}

/// Why an answer of the tracker is refused.
#[derive(Clone, Copy, Debug, PartialEq, Eq, Structural)]
pub enum TrackerError {
    /// The repository was not found (404).
    RepoNotFound,
    /// The token was refused (401).
    Unauthorized,
    /// Any other status that does not mean success.
    UnexpectedStatus(u16),
}

/// Judges the status of the answer to a request for issues: 200 is success, 404 and
/// 401 have errors of their own, and every other status is unexpected.
pub fn check_fetch_status(status: u16) -> (res: Result<(), TrackerError>)
    ensures
        res == (if status == 200 {
            Ok(())
        } else if status == 404 {
            Err(TrackerError::RepoNotFound)
        } else if status == 401 {
            Err(TrackerError::Unauthorized)
        } else {
            Err(TrackerError::UnexpectedStatus(status))
        }),
{
    if status == 200 {
        Ok(())
    } else if status == 404 {
        Err(TrackerError::RepoNotFound)
    } else if status == 401 {
        Err(TrackerError::Unauthorized)
    } else {
        Err(TrackerError::UnexpectedStatus(status))
    }
}

/// Judges the status of the answer to a request that creates an issue: 201 and 200
/// are success, every other status is unexpected.
pub fn check_create_status(status: u16) -> (res: Result<(), TrackerError>)
    ensures
        res == (if status == 201 || status == 200 {
            Ok(())
        } else {
            Err(TrackerError::UnexpectedStatus(status))
        }),
{
    if status == 201 || status == 200 {
        Ok(())
    } else {
        Err(TrackerError::UnexpectedStatus(status))
    }
}

/// The message that reports an error.
pub open spec fn error_message(e: TrackerError) -> Seq<char> {
    match e {
        TrackerError::RepoNotFound => "Repo not found, check configuration"@,
        TrackerError::Unauthorized => "Request unauthorized, check access token"@,
        TrackerError::UnexpectedStatus(status) => "Received error reaching out to github API: "@
            + decimal(status as nat),
    }
}

impl TrackerError {
    /// The message that reports this error.
    pub fn message(&self) -> (res: String)
        ensures
            res@ == error_message(*self),
    {
        match self {
            TrackerError::RepoNotFound => String::from_str("Repo not found, check configuration"),
            TrackerError::Unauthorized => String::from_str(
                "Request unauthorized, check access token",
            ),
            TrackerError::UnexpectedStatus(status) => {
                let mut res = String::from_str("Received error reaching out to github API: ");
                res.append(crate::text::decimal_string(*status as u64).as_str());
                res
            },
        }
    }
}

} // verus!
