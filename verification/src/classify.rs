//! The originality classifier.
//!
//! A repository is original when the tracked account is its true author: a
//! self-owned repository trivially so, any other when the account wrote
//! the majority of a sample of the repository's earliest commits.  The
//! majority check divides integers exactly as the sync protocol does, so
//! it passes only a unanimous sample (see
//! [`lemma_commit_vote_unanimous`]).
//!
//! Earliest commits are sampled through forward-only paging: walk to the
//! last page, take commits from it, and fall back to the second-to-last
//! page for the remainder.  [`first_commits_advance`] drives that walk one
//! fetched page at a time.

use vstd::prelude::*;

use crate::api::ApiResponseError;
use crate::api::CommitEntry;
use crate::api::CommitPage;
use crate::store::str_eq;

verus! {

/// Whether a commit is attributed to the given account login.
pub open spec fn spec_commit_author_is(login: Seq<char>, c: CommitEntry) -> bool {
    c.author matches Some(a) && (a.user matches Some(u) && u.login@ == login)
}

/// How many commits of the sample are attributed to the login.
pub open spec fn spec_count_matching(login: Seq<char>, cs: Seq<CommitEntry>) -> int
    decreases cs.len(),
{
    if cs.len() == 0 {
        0
    } else {
        spec_count_matching(login, cs.drop_last()) + if spec_commit_author_is(login, cs.last()) {
            1int
        } else {
            0int
        }
    }
}

/// The protocol's majority check over a commit sample, integer division
/// included: `matching / sampled > 1 / 2`.
pub open spec fn spec_commit_vote(login: Seq<char>, cs: Seq<CommitEntry>) -> bool {
    spec_count_matching(login, cs) / cs.len() as int > 1int / 2int
}

/// What the classifier concludes from a fetched commit sample alone: some
/// commits came back and the vote passes.
pub open spec fn spec_original_by_commits(login: Seq<char>, commits: Option<
    Vec<CommitEntry>,
>) -> bool {
    commits matches Some(cs) && spec_commit_vote(login, cs@)
}

/// The full classification of a repository: self-owned, or voted original
/// by its earliest commits.
pub open spec fn spec_is_original(
    owner: Seq<char>,
    login: Seq<char>,
    commits: Option<Vec<CommitEntry>>,
) -> bool {
    owner == login || spec_original_by_commits(login, commits)
}

/// Whether classifying the repository requires a commit-history fetch at
/// all: only when it is not self-owned.
pub open spec fn spec_needs_commit_history(owner: Seq<char>, login: Seq<char>) -> bool {
    owner != login
}

/// Whether the commit is attributed to the account `login`.
pub fn check_commit_author(login: &str, commit: &CommitEntry) -> (r: bool)
    ensures
        r == spec_commit_author_is(login@, *commit),
{
    match commit.author {
        None => false,
        Some(ref author) => match author.user {
            None => false,
            Some(ref user) => str_eq(user.login.as_str(), login),
        },
    }
}

proof fn lemma_count_matching_bounds(login: Seq<char>, cs: Seq<CommitEntry>)
    ensures
        0 <= spec_count_matching(login, cs) <= cs.len(),
    decreases cs.len(),
{
    if cs.len() > 0 {
        lemma_count_matching_bounds(login, cs.drop_last());
    }
}

/// The integer-division majority check passes exactly the unanimous
/// non-empty samples: every sampled commit must match the login.
pub proof fn lemma_commit_vote_unanimous(login: Seq<char>, cs: Seq<CommitEntry>)
    requires
        cs.len() > 0,
    ensures
        spec_commit_vote(login, cs) <==> spec_count_matching(login, cs) == cs.len(),
{
    lemma_count_matching_bounds(login, cs);
    let c = spec_count_matching(login, cs);
    let l = cs.len() as int;
    assert(1int / 2int == 0);
    if c < l {
        assert(c / l == 0) by (nonlinear_arith)
            requires
                0 <= c < l,
        ;
    } else {
        assert(l / l == 1) by (nonlinear_arith)
            requires
                l > 0,
        ;
    }
}

fn count_matching_commits(login: &str, commits: &Vec<CommitEntry>) -> (c: usize)
    ensures
        c == spec_count_matching(login@, commits@),
        c <= commits@.len(),
{
    let mut c: usize = 0;
    let mut i: usize = 0;
    while i < commits.len()
        invariant
            i <= commits@.len(),
            c <= i,
            c == spec_count_matching(login@, commits@.subrange(0, i as int)),
        decreases commits@.len() - i,
    {
        if check_commit_author(login, &commits[i]) {
            c = c + 1;
        }
        proof {
            assert(commits@.subrange(0, i + 1 as int).drop_last() =~= commits@.subrange(
                0,
                i as int,
            ));
            assert(commits@.subrange(0, i + 1 as int).last() == commits@[i as int]);
        }
        i = i + 1;
    }
    proof {
        assert(commits@.subrange(0, commits@.len() as int) =~= commits@);
    }
    c
}

/// What a fetched commit sample says about originality: no sample means
/// not original, otherwise the majority vote decides.
pub fn decide_from_commits(login: &str, first_commits: &Option<Vec<CommitEntry>>) -> (r: bool)
    requires
        first_commits matches Some(cs) ==> cs@.len() > 0,
    ensures
        r == spec_original_by_commits(login@, *first_commits),
{
    match first_commits {
        None => false,
        Some(commits) => {
            let same_login_count = count_matching_commits(login, commits);
            same_login_count / commits.len() > 1 / 2
        },
    }
}

/// Whether classifying `(owner, _)` needs a commit-history fetch: a
/// self-owned repository is decided without one.
pub fn needs_commit_history(owner: &str, login: &str) -> (r: bool)
    ensures
        r == spec_needs_commit_history(owner@, login@),
{
    !str_eq(owner, login)
}

/// The repository's classification, given whatever sample was fetched
/// (none for a self-owned repository).
pub fn decide_original(owner: &str, login: &str, first_commits: &Option<Vec<CommitEntry>>) -> (r:
    bool)
    requires
        first_commits matches Some(cs) ==> cs@.len() > 0,
    ensures
        r == spec_is_original(owner@, login@, *first_commits),
{
    if str_eq(owner, login) {
        true
    } else {
        decide_from_commits(login, first_commits)
    }
}

/// A self-owned repository is classified original outright: no
/// commit-history fetch is needed, and the classification holds with no
/// commit sample at all.
pub proof fn lemma_self_owned_short_circuit(owner: Seq<char>, login: Seq<char>)
    requires
        owner == login,
    ensures
        !spec_needs_commit_history(owner, login),
        spec_is_original(owner, login, None),
{
}

/// What the earliest-commits walk asks of its driver next.
#[derive(Debug, PartialEq, Eq)]
pub enum CommitsAction {
    /// Fetch the page after the current cursor; the walk has not reached
    /// the last page yet.
    FetchMore,
    /// The last page fell short of the limit: fetch the saved
    /// second-to-last page to fill the remainder.
    FetchPrevious,
    /// The sample is complete.
    Done,
}

/// The earliest-commits walk between page fetches.
#[derive(Debug)]
pub struct FirstCommitsState {
    /// Cursor of the next page to fetch forward.
    pub cursor: Option<String>,
    /// Start cursor of the page before the current one, kept as the
    /// fallback source of earlier commits.
    pub previous_cursor: Option<String>,
    /// The commits sampled so far.
    pub commits: Vec<CommitEntry>,
}

/// How commits are taken from a page's node list: present nodes in order,
/// stopping the moment the sample reaches `limit`.
pub open spec fn spec_take_commits(
    acc: Seq<CommitEntry>,
    nodes: Seq<Option<CommitEntry>>,
    limit: int,
) -> Seq<CommitEntry>
    decreases nodes.len(),
{
    if nodes.len() == 0 {
        acc
    } else {
        match nodes[0] {
            None => spec_take_commits(acc, nodes.drop_first(), limit),
            Some(c) => {
                if acc.len() + 1 == limit {
                    acc.push(c)
                } else {
                    spec_take_commits(acc.push(c), nodes.drop_first(), limit)
                }
            },
        }
    }
}

/// A fresh walk: no cursors, nothing sampled.
pub fn first_commits_start() -> (st: FirstCommitsState)
    ensures
        st.cursor is None,
        st.previous_cursor is None,
        st.commits@.len() == 0,
{
    FirstCommitsState { cursor: None, previous_cursor: None, commits: Vec::new() }
}

fn clone_commit(c: &CommitEntry) -> (r: CommitEntry)
    ensures
        r == *c,
{
    let author = match &c.author {
        None => None,
        Some(a) => {
            let user = match &a.user {
                None => None,
                Some(u) => Some(crate::api::CommitUser { login: u.login.clone() }),
            };
            Some(crate::api::CommitAuthor { user })
        },
    };
    CommitEntry { author }
}

fn clone_cursor(c: &Option<String>) -> (r: Option<String>)
    ensures
        r == *c,
{
    match c {
        Some(s) => Some(s.clone()),
        None => None,
    }
}

fn take_commits_from(commits: &mut Vec<CommitEntry>, nodes: &Vec<Option<CommitEntry>>, limit: usize)
    ensures
        final (commits)@ == spec_take_commits(old(commits)@, nodes@, limit as int),
{
    let ghost gacc = old(commits)@;
    let mut i: usize = 0;
    let mut done = false;
    proof {
        assert(nodes@.subrange(0, nodes@.len() as int) =~= nodes@);
    }
    while i < nodes.len() && !done
        invariant
            i <= nodes@.len(),
            spec_take_commits(gacc, nodes@, limit as int) == if done {
                commits@
            } else {
                spec_take_commits(
                    commits@,
                    nodes@.subrange(i as int, nodes@.len() as int),
                    limit as int,
                )
            },
        decreases nodes@.len() - i,
    {
        let ghost pre = commits@;
        let ghost suffix = nodes@.subrange(i as int, nodes@.len() as int);
        proof {
            assert(suffix.drop_first() =~= nodes@.subrange(i + 1 as int, nodes@.len() as int));
            assert(suffix[0] == nodes@[i as int]);
        }
        match &nodes[i] {
            Some(commit_node) => {
                commits.push(clone_commit(commit_node));
                if commits.len() == limit {
                    done = true;
                }
                proof {
                    let c0 = nodes@[i as int]->0;
                    if pre.len() + 1 == limit {
                        assert(spec_take_commits(pre, suffix, limit as int) == pre.push(c0));
                    } else {
                        assert(spec_take_commits(pre, suffix, limit as int) == spec_take_commits(
                            pre.push(c0),
                            suffix.drop_first(),
                            limit as int,
                        ));
                    }
                }
            },
            None => {
                proof {
                    assert(spec_take_commits(pre, suffix, limit as int) == spec_take_commits(
                        pre,
                        suffix.drop_first(),
                        limit as int,
                    ));
                }
            },
        }
        i = i + 1;
    }
    proof {
        if !done {
            assert(nodes@.subrange(i as int, nodes@.len() as int).len() == 0);
        }
    }
}

/// Absorb one forward page of commit history.
///
/// While pages remain ahead, the walk only saves the cursors and asks for
/// the next page: the earliest commits sit on the last page.  On the last
/// page it samples up to `count_limit` commits, and asks for the saved
/// second-to-last page only if the sample still falls short and such a
/// page exists.
pub fn first_commits_advance(
    st: &mut FirstCommitsState,
    page: &CommitPage,
    count_limit: usize,
) -> (r: Result<CommitsAction, ApiResponseError>)
    ensures
        page.has_next_page ==> {
            &&& r matches Ok(a) && a == CommitsAction::FetchMore
            &&& final (st).previous_cursor == page.start_cursor
            &&& final (st).cursor == page.end_cursor
            &&& final (st).commits@ == old(st).commits@
        },
        !page.has_next_page && page.nodes is None ==> {
            &&& r matches Err(e) && (e matches ApiResponseError::EmptyNode(f) && f@ == "nodes"@)
            &&& *final (st) == *old(st)
        },
        !page.has_next_page && page.nodes is Some ==> {
            &&& final (st).commits@ == spec_take_commits(
                old(st).commits@,
                page.nodes->0@,
                count_limit as int,
            )
            &&& final (st).cursor == old(st).cursor
            &&& final (st).previous_cursor == old(st).previous_cursor
            &&& r matches Ok(a)
            &&& a == (if final (st).commits@.len() < count_limit && old(st).previous_cursor
                is Some {
                CommitsAction::FetchPrevious
            } else {
                CommitsAction::Done
            })
        },
{
    if page.has_next_page {
        st.previous_cursor = clone_cursor(&page.start_cursor);
        st.cursor = clone_cursor(&page.end_cursor);
        return Ok(CommitsAction::FetchMore);
    }
    let nodes = match &page.nodes {
        None => {
            return Err(ApiResponseError::EmptyNode("nodes".to_owned()));
        },
        Some(v) => v,
    };
    take_commits_from(&mut st.commits, nodes, count_limit);
    if st.commits.len() < count_limit && st.previous_cursor.is_some() {
        Ok(CommitsAction::FetchPrevious)
    } else {
        Ok(CommitsAction::Done)
    }
}

/// Absorb the second-to-last page, filling the sample's remainder.  After
/// this the walk is done.
pub fn first_commits_fill_previous(
    st: &mut FirstCommitsState,
    page: &CommitPage,
    count_limit: usize,
) -> (r: Result<(), ApiResponseError>)
    ensures
        page.nodes is None ==> {
            &&& r matches Err(e) && (e matches ApiResponseError::EmptyNode(f) && f@
                == "nodes in previous history"@)
            &&& *final (st) == *old(st)
        },
        page.nodes matches Some(v) ==> {
            &&& r is Ok
            &&& final (st).commits@ == spec_take_commits(old(st).commits@, v@, count_limit as int)
            &&& final (st).cursor == old(st).cursor
            &&& final (st).previous_cursor == old(st).previous_cursor
        },
{
    let nodes = match &page.nodes {
        None => {
            return Err(ApiResponseError::EmptyNode("nodes in previous history".to_owned()));
        },
        Some(v) => v,
    };
    take_commits_from(&mut st.commits, nodes, count_limit);
    Ok(())
}

/// The finished sample: the commits when any were found, nothing when the
/// history yielded none.
pub fn first_commits_finish(st: FirstCommitsState) -> (r: Option<Vec<CommitEntry>>)
    ensures
        st.commits@.len() > 0 ==> (r matches Some(cs) && cs@ == st.commits@),
        st.commits@.len() == 0 ==> r is None,
{
    if st.commits.len() > 0 {
        Some(st.commits)
    } else {
        None
    }
}

} // verus!
