//! Collecting the account's starred-and-owned repositories, one forward
//! page at a time.
//!
//! Pages arrive in descending-stargazer order, so the walk keeps present
//! entries only while their stargazer counts stay positive: the first
//! zero-star entry (and any missing entry) ends the useful data, and a
//! page that lost entries that way is the last page worth fetching.

use vstd::prelude::*;

use crate::api::ApiResponseError;
use crate::api::RepoEntry;
use crate::api::RepoPage;

verus! {

/// What the listing walk does after a page.
#[derive(Debug, PartialEq, Eq)]
pub enum ListingAction {
    /// Fetch the page after this page's end cursor.
    Continue,
    /// The listing is complete.
    Stop,
}

/// The entries kept from one page's node list: present entries in order,
/// up to (and excluding) the first entry without stargazers.
pub open spec fn spec_kept_repos(nodes: Seq<Option<RepoEntry>>) -> Seq<RepoEntry>
    decreases nodes.len(),
{
    if nodes.len() == 0 {
        Seq::empty()
    } else {
        match nodes[0] {
            None => spec_kept_repos(nodes.drop_first()),
            Some(e) => {
                if e.stargazer_count > 0 {
                    seq![e] + spec_kept_repos(nodes.drop_first())
                } else {
                    Seq::empty()
                }
            },
        }
    }
}

fn clone_repo(e: &RepoEntry) -> (r: RepoEntry)
    ensures
        r == *e,
{
    let primary_language = match &e.primary_language {
        Some(s) => Some(s.clone()),
        None => None,
    };
    RepoEntry {
        owner: e.owner.clone(),
        name: e.name.clone(),
        stargazer_count: e.stargazer_count,
        primary_language,
    }
}

/// Absorb one page of the repository listing.
///
/// The kept entries are appended to `result`.  A page without a node
/// list is a missing-node failure, not an empty page: it leaves the
/// result untouched and aborts the walk with an error.  Otherwise the
/// walk continues to the next page only when the page announces one and
/// lost no entry to the keep rule above; the caller then pages on from
/// the page's end cursor.
pub fn collect_repo_page(result: &mut Vec<RepoEntry>, page: &RepoPage) -> (r: Result<
    ListingAction,
    ApiResponseError,
>)
    ensures
        page.nodes is None ==> {
            &&& r matches Err(e) && (e matches ApiResponseError::EmptyNode(f) && f@ == "nodes"@)
            &&& final (result)@ == old(result)@
        },
        page.nodes matches Some(v) ==> {
            &&& final (result)@ == old(result)@ + spec_kept_repos(v@)
            &&& r matches Ok(a)
            &&& a == (if !page.has_next_page || v@.len() != spec_kept_repos(v@).len() {
                ListingAction::Stop
            } else {
                ListingAction::Continue
            })
        },
{
    let nodes = match &page.nodes {
        None => {
            return Err(ApiResponseError::EmptyNode("nodes".to_owned()));
        },
        Some(v) => v,
    };
    let ghost gacc = result@;
    let kept_before = result.len();
    let mut i: usize = 0;
    let mut stopped = false;
    proof {
        assert(nodes@.subrange(0, nodes@.len() as int) =~= nodes@);
    }
    while i < nodes.len() && !stopped
        invariant
            i <= nodes@.len(),
            result@.len() >= gacc.len(),
            gacc + spec_kept_repos(nodes@) == if stopped {
                result@
            } else {
                result@ + spec_kept_repos(nodes@.subrange(i as int, nodes@.len() as int))
            },
        decreases nodes@.len() - i,
    {
        let ghost pre = result@;
        let ghost suffix = nodes@.subrange(i as int, nodes@.len() as int);
        proof {
            assert(suffix.drop_first() =~= nodes@.subrange(i + 1 as int, nodes@.len() as int));
            assert(suffix[0] == nodes@[i as int]);
        }
        match &nodes[i] {
            None => {
                proof {
                    assert(spec_kept_repos(suffix) == spec_kept_repos(suffix.drop_first()));
                }
            },
            Some(e) => {
                if e.stargazer_count > 0 {
                    result.push(clone_repo(e));
                    proof {
                        let e0 = nodes@[i as int]->0;
                        assert(spec_kept_repos(suffix) == seq![e0] + spec_kept_repos(
                            suffix.drop_first(),
                        ));
                        assert(pre + (seq![e0] + spec_kept_repos(suffix.drop_first())) =~= (
                        pre.push(e0)) + spec_kept_repos(suffix.drop_first()));
                    }
                } else {
                    stopped = true;
                    proof {
                        assert(spec_kept_repos(suffix) =~= Seq::<RepoEntry>::empty());
                        assert(pre + Seq::<RepoEntry>::empty() =~= pre);
                    }
                }
            },
        }
        i = i + 1;
    }
    proof {
        if !stopped {
            assert(spec_kept_repos(nodes@.subrange(i as int, nodes@.len() as int)) =~= Seq::<
                RepoEntry,
            >::empty());
            assert(result@ + Seq::<RepoEntry>::empty() =~= result@);
        }
    }
    let kept = result.len() - kept_before;
    let end = nodes.len() != kept;
    if !page.has_next_page || end {
        Ok(ListingAction::Stop)
    } else {
        Ok(ListingAction::Continue)
    }
}

} // verus!
