//! What an issue tracker holds and how it is asked.

use vstd::prelude::*;

verus! {

/// An issue as the tracker reports it.
#[derive(Clone, Debug)]
pub struct Issue {
    pub html_url: String,
    pub title: String,
    pub number: u32,
    pub state: String,
}

/// The HTTP method of a request.
#[derive(Clone, Copy, Debug, PartialEq, Eq, Structural)]
pub enum HttpMethod {
    Get,
    Post,
}

/// A request to the tracker, to be sent as it stands.
#[derive(Clone, Debug)]
pub struct TrackerRequest {
    pub method: HttpMethod,
    pub url: String,
    /// The `User-Agent` header.
    pub user_agent: String,
    /// The `Authorization` header.
    pub authorization: String,
    /// The JSON body, if any.
    pub body: Option<String>,
}

/// A tracker of issues for one repository.
pub trait IssueTracker {
    /// The url of the repository's issues.
    spec fn spec_request_url(&self) -> Seq<char>;

    /// Builds the url of the repository's issues.
    fn build_request_url(&self) -> (url: String)
        ensures
            url@ == self.spec_request_url(),
    ;
}

} // verus!
