//! Plain-value shapes of the remote paged query service's responses.
//!
//! The transport layer fetches one page at a time and hands it over as one
//! of these types; every field is a plain value, so the paging and backfill
//! logic over them can be verified.  A page's item list mirrors the remote
//! schema: the list itself may be absent, and so may any single item.

use vstd::prelude::*;

verus! {

/// A required piece of a response was absent.
#[derive(Debug, PartialEq, Eq)]
pub enum ApiResponseError {
    /// The response carried no data at all.
    NoData,
    /// A required nested node was missing; the payload names it.
    EmptyNode(String),
}

/// One repository as listed for the account: owner login, name, current
/// stargazer total and optional primary language.
#[derive(Debug, Clone)]
pub struct RepoEntry {
    pub owner: String,
    pub name: String,
    pub stargazer_count: i64,
    pub primary_language: Option<String>,
}

/// One page of the account's repository listing.
#[derive(Debug)]
pub struct RepoPage {
    pub nodes: Option<Vec<Option<RepoEntry>>>,
    pub has_next_page: bool,
    pub end_cursor: Option<String>,
}

/// The user who authored a commit, when the service can attribute it.
#[derive(Debug, Clone)]
pub struct CommitUser {
    pub login: String,
}

/// A commit's author field; its user link may be absent.
#[derive(Debug, Clone)]
pub struct CommitAuthor {
    pub user: Option<CommitUser>,
}

/// One commit of a repository's default-branch history.
#[derive(Debug, Clone)]
pub struct CommitEntry {
    pub author: Option<CommitAuthor>,
}

/// One page of a repository's default-branch commit history.
#[derive(Debug)]
pub struct CommitPage {
    pub nodes: Option<Vec<Option<CommitEntry>>>,
    pub has_next_page: bool,
    pub start_cursor: Option<String>,
    pub end_cursor: Option<String>,
}

/// One stargazer event edge: who starred and when.
#[derive(Debug, Clone)]
pub struct StargazerEdge {
    pub login: String,
    pub starred_at: String,
}

/// One page of a repository's stargazer history, fetched backward from the
/// most recent end.
#[derive(Debug)]
pub struct StargazerPage {
    pub total_count: i64,
    pub edges: Option<Vec<Option<StargazerEdge>>>,
    pub has_previous_page: bool,
    pub start_cursor: Option<String>,
}

} // verus!
