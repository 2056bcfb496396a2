//! The sync pipeline's store-side steps.
//!
//! One run fetches the account's repositories, replaces the snapshot and
//! language tables from them, classifies repositories still lacking an
//! originality flag, and backfills the stargazer log of every repository
//! on the growth work queue.  The network walks live with the caller;
//! each step here takes plain fetched values and updates the store, with
//! the update pinned exactly.

use vstd::prelude::*;

use crate::api::CommitEntry;
use crate::api::RepoEntry;
use crate::api::StargazerEdge;
use crate::classify::decide_original;
use crate::classify::spec_is_original;
use crate::store::StarCountDiff;
use crate::store::StarCountEntry;
use crate::store::StargazerEntry;
use crate::store::Store;
use crate::store::StoreError;
use crate::store::flags_have_key;
use crate::store::insert_original_status;
use crate::store::insert_repository_primary_language;
use crate::store::insert_star_counts;
use crate::store::insert_stargazers;
use crate::store::langs_have_key;
use crate::store::snaps_have_key;
use crate::store::snaps_without_key;
use crate::store::update_star_count;

verus! {

/// The snapshot row a fetched repository entry yields.
pub open spec fn spec_star_count_of(r: RepoEntry) -> StarCountEntry {
    StarCountEntry { owner: r.owner, name: r.name, stargazer_count: r.stargazer_count }
}

/// No two fetched entries name the same repository.
pub open spec fn repos_distinct(repos: Seq<RepoEntry>) -> bool {
    forall|i: int, j: int|
        0 <= i < j < repos.len() ==> !((#[trigger] repos[j]).owner@ == (
        #[trigger] repos[i]).owner@ && repos[j].name@ == repos[i].name@)
}

/// Every fetched total fits the store's integer column.
pub open spec fn repos_counts_ok(repos: Seq<RepoEntry>) -> bool {
    forall|i: int| 0 <= i < repos.len() ==> 0 <= (#[trigger] repos[i]).stargazer_count <= i32::MAX
}

fn star_count_rows(repositories: &Vec<RepoEntry>) -> (r: Vec<StarCountEntry>)
    ensures
        r@ == repositories@.map_values(|e: RepoEntry| spec_star_count_of(e)),
{
    let mut r: Vec<StarCountEntry> = Vec::new();
    let mut i: usize = 0;
    while i < repositories.len()
        invariant
            i <= repositories@.len(),
            r@ == repositories@.subrange(0, i as int).map_values(
                |e: RepoEntry| spec_star_count_of(e),
            ),
        decreases repositories@.len() - i,
    {
        let repo = &repositories[i];
        r.push(
            StarCountEntry {
                owner: repo.owner.clone(),
                name: repo.name.clone(),
                stargazer_count: repo.stargazer_count,
            },
        );
        proof {
            assert(repositories@.subrange(0, i + 1 as int).map_values(
                |e: RepoEntry| spec_star_count_of(e),
            ) =~= repositories@.subrange(0, i as int).map_values(
                |e: RepoEntry| spec_star_count_of(e),
            ).push(spec_star_count_of(repositories@[i as int])));
        }
        i = i + 1;
    }
    proof {
        assert(repositories@.subrange(0, repositories@.len() as int) =~= repositories@);
    }
    r
}

/// Record the fetched repositories' current star totals: one snapshot row
/// per repository, appended to the (freshly cleared) snapshot table.
pub fn update_star_counts(db: &mut Store, repositories: &Vec<RepoEntry>) -> (r: Result<
    (),
    StoreError,
>)
    requires
        old(db).wf(),
        repos_distinct(repositories@),
        repos_counts_ok(repositories@),
        forall|i: int|
            0 <= i < repositories@.len() ==> !snaps_have_key(
                old(db).snapshots@,
                (#[trigger] repositories@[i]).owner@,
                repositories@[i].name@,
            ),
        old(db).snapshots@.len() + repositories@.len() <= i32::MAX,
    ensures
        r is Ok,
        final (db).snapshots@ == old(db).snapshots@ + repositories@.map_values(
            |e: RepoEntry| spec_star_count_of(e),
        ),
        final (db).languages@ == old(db).languages@,
        final (db).original_flags@ == old(db).original_flags@,
        final (db).stargazers@ == old(db).stargazers@,
        final (db).wf(),
{
    let rows = star_count_rows(repositories);
    proof {
        let mapped = repositories@.map_values(|e: RepoEntry| spec_star_count_of(e));
        assert forall|i: int, j: int| 0 <= i < j < mapped.len() implies !mapped[j].keyed(
            mapped[i].owner@,
            mapped[i].name@,
        ) by {
            assert(mapped[i] == spec_star_count_of(repositories@[i]));
            assert(mapped[j] == spec_star_count_of(repositories@[j]));
        }
        assert forall|i: int| 0 <= i < mapped.len() implies !snaps_have_key(
            old(db).snapshots@,
            #[trigger] mapped[i].owner@,
            mapped[i].name@,
        ) by {
            assert(mapped[i] == spec_star_count_of(repositories@[i]));
        }
        assert forall|i: int| 0 <= i < mapped.len() implies 0 <= (
        #[trigger] mapped[i]).stargazer_count <= i32::MAX by {
            assert(mapped[i] == spec_star_count_of(repositories@[i]));
        }
    }
    insert_star_counts(db, &rows)
}

/// Record the fetched repositories' primary languages, one row each.
pub fn update_primary_languages(db: &mut Store, repositories: &Vec<RepoEntry>) -> (r: Result<
    (),
    StoreError,
>)
    requires
        old(db).wf(),
        repos_distinct(repositories@),
        forall|i: int|
            0 <= i < repositories@.len() ==> !langs_have_key(
                old(db).languages@,
                (#[trigger] repositories@[i]).owner@,
                repositories@[i].name@,
            ),
    ensures
        r is Ok,
        final (db).languages@.len() == old(db).languages@.len() + repositories@.len(),
        forall|i: int|
            0 <= i < old(db).languages@.len() ==> final (db).languages@[i] == old(db).languages@[i],
        forall|i: int|
            0 <= i < repositories@.len() ==> {
                let row = #[trigger] final (db).languages@[old(db).languages@.len() + i];
                &&& row.owner@ == repositories@[i].owner@
                &&& row.name@ == repositories@[i].name@
                &&& (row.primary_language is Some <==> repositories@[i].primary_language is Some)
                &&& (repositories@[i].primary_language is Some ==> row.primary_language->0@
                    == repositories@[i].primary_language->0@)
            },
        final (db).snapshots@ == old(db).snapshots@,
        final (db).original_flags@ == old(db).original_flags@,
        final (db).stargazers@ == old(db).stargazers@,
        final (db).wf(),
{
    let mut i: usize = 0;
    while i < repositories.len()
        invariant
            i <= repositories@.len(),
            old(db).wf(),
            db.wf(),
            repos_distinct(repositories@),
            forall|k: int|
                0 <= k < repositories@.len() ==> !langs_have_key(
                    old(db).languages@,
                    (#[trigger] repositories@[k]).owner@,
                    repositories@[k].name@,
                ),
            db.languages@.len() == old(db).languages@.len() + i,
            forall|k: int|
                0 <= k < old(db).languages@.len() ==> db.languages@[k] == old(db).languages@[k],
            forall|k: int|
                0 <= k < i ==> {
                    let row = #[trigger] db.languages@[old(db).languages@.len() + k];
                    &&& row.owner@ == repositories@[k].owner@
                    &&& row.name@ == repositories@[k].name@
                    &&& (row.primary_language is Some <==> repositories@[k].primary_language
                        is Some)
                    &&& (repositories@[k].primary_language is Some ==> row.primary_language->0@
                        == repositories@[k].primary_language->0@)
                },
            db.snapshots@ == old(db).snapshots@,
            db.original_flags@ == old(db).original_flags@,
            db.stargazers@ == old(db).stargazers@,
        decreases repositories@.len() - i,
    {
        let repo = &repositories[i];
        let primary_language = match &repo.primary_language {
            Some(lang) => Some(lang.clone()),
            None => None,
        };
        proof {
            assert(!langs_have_key(db.languages@, repo.owner@, repo.name@)) by {
                if langs_have_key(db.languages@, repo.owner@, repo.name@) {
                    let k = choose|k: int|
                        0 <= k < db.languages@.len() && db.languages@[k].keyed(
                            repo.owner@,
                            repo.name@,
                        );
                    if k < old(db).languages@.len() {
                        assert(old(db).languages@[k].keyed(repo.owner@, repo.name@));
                    } else {
                        let j = k - old(db).languages@.len();
                        assert(db.languages@[old(db).languages@.len() + j].owner@
                            == repositories@[j].owner@);
                    }
                }
            }
        }
        let r = insert_repository_primary_language(
            db,
            repo.owner.as_str(),
            repo.name.as_str(),
            &primary_language,
        );
        proof {
            assert(r is Ok);
            assert forall|k: int| 0 <= k < old(db).languages@.len() implies db.languages@[k] == old(
                db,
            ).languages@[k] by {
                assert(db.languages@.drop_last()[k] == db.languages@[k]);
            }
            assert forall|k: int| 0 <= k < i + 1 implies {
                let row = #[trigger] db.languages@[old(db).languages@.len() + k];
                &&& row.owner@ == repositories@[k].owner@
                &&& row.name@ == repositories@[k].name@
                &&& (row.primary_language is Some <==> repositories@[k].primary_language is Some)
                &&& (repositories@[k].primary_language is Some ==> row.primary_language->0@
                    == repositories@[k].primary_language->0@)
            } by {
                if k < i {
                    assert(db.languages@.drop_last()[old(db).languages@.len() + k]
                        == db.languages@[old(db).languages@.len() + k]);
                }
            }
        }
        i = i + 1;
    }
    Ok(())
}

/// Classify one not-yet-flagged repository and record the flag: original
/// when self-owned or voted so by the fetched earliest commits.
pub fn record_original_status(
    db: &mut Store,
    owner: &str,
    name: &str,
    login: &str,
    first_commits: &Option<Vec<CommitEntry>>,
) -> (r: Result<(), StoreError>)
    requires
        old(db).wf(),
        !flags_have_key(old(db).original_flags@, owner@, name@),
        first_commits matches Some(cs) ==> cs@.len() > 0,
    ensures
        r is Ok,
        final (db).original_flags@.len() == old(db).original_flags@.len() + 1,
        final (db).original_flags@.drop_last() == old(db).original_flags@,
        final (db).original_flags@.last().owner@ == owner@,
        final (db).original_flags@.last().name@ == name@,
        final (db).original_flags@.last().original == spec_is_original(
            owner@,
            login@,
            *first_commits,
        ),
        final (db).snapshots@ == old(db).snapshots@,
        final (db).languages@ == old(db).languages@,
        final (db).stargazers@ == old(db).stargazers@,
        final (db).wf(),
{
    let is_original = decide_original(owner, login, first_commits);
    insert_original_status(db, owner, name, is_original)
}

fn stargazer_entries(new_items: &Vec<StargazerEdge>) -> (r: Vec<StargazerEntry>)
    ensures
        r@.len() == new_items@.len(),
        forall|i: int|
            0 <= i < new_items@.len() ==> (#[trigger] r@[i]).login@ == new_items@[i].login@
                && r@[i].starred_at@ == new_items@[i].starred_at@,
{
    let mut r: Vec<StargazerEntry> = Vec::new();
    let mut i: usize = 0;
    while i < new_items.len()
        invariant
            i <= new_items@.len(),
            r@.len() == i,
            forall|k: int|
                0 <= k < i ==> (#[trigger] r@[k]).login@ == new_items@[k].login@
                    && r@[k].starred_at@ == new_items@[k].starred_at@,
        decreases new_items@.len() - i,
    {
        let x = &new_items[i];
        r.push(StargazerEntry { login: x.login.clone(), starred_at: x.starred_at.clone() });
        i = i + 1;
    }
    r
}

/// Apply one repository's finished backfill: append the accumulated
/// events all-or-nothing, and when the authoritative total outgrew the
/// diff's expectation during the walk, refresh the snapshot to it.
pub fn apply_backfill(
    db: &mut Store,
    diff: &StarCountDiff,
    new_total_count: i64,
    new_items: &Vec<StargazerEdge>,
) -> (r: Result<(), StoreError>)
    requires
        old(db).wf(),
        old(db).stargazers@.len() + new_items@.len() <= i64::MAX,
        new_total_count > diff.new_count ==> 0 <= new_total_count <= i32::MAX,
        old(db).snapshots@.len() < i32::MAX,
    ensures
        r is Ok <==> (forall|i: int|
            0 <= i < new_items@.len() ==> crate::date::spec_timestamp_ok(
                #[trigger] new_items@[i].starred_at@,
            )),
        r is Err ==> final (db).snapshots@ == old(db).snapshots@ && final (db).stargazers@ == old(
            db,
        ).stargazers@,
        r is Ok ==> {
            &&& final (db).stargazers@.len() == old(db).stargazers@.len() + new_items@.len()
            &&& (forall|i: int|
                0 <= i < old(db).stargazers@.len() ==> final (db).stargazers@[i] == old(
                    db,
                ).stargazers@[i])
            &&& (forall|i: int|
                0 <= i < new_items@.len() ==> {
                    let ev = #[trigger] final (db).stargazers@[old(db).stargazers@.len() + i];
                    &&& ev.owner@ == diff.owner@
                    &&& ev.name@ == diff.name@
                    &&& ev.starred_at@ == new_items@[i].starred_at@
                    &&& ev.starred_by@ == new_items@[i].login@
                })
            &&& (new_total_count > diff.new_count ==> {
                &&& final (db).snapshots@.len() >= 1
                &&& final (db).snapshots@.drop_last() == snaps_without_key(
                    old(db).snapshots@,
                    diff.owner@,
                    diff.name@,
                )
                &&& final (db).snapshots@.last().owner@ == diff.owner@
                &&& final (db).snapshots@.last().name@ == diff.name@
                &&& final (db).snapshots@.last().stargazer_count == new_total_count
            })
            &&& (new_total_count <= diff.new_count ==> final (db).snapshots@ == old(db).snapshots@)
        },
        final (db).languages@ == old(db).languages@,
        final (db).original_flags@ == old(db).original_flags@,
        final (db).wf(),
{
    let items = stargazer_entries(new_items);
    let ghost gitems = items@;
    let inserted = insert_stargazers(db, diff.owner.as_str(), diff.name.as_str(), items);
    proof {
        assert forall|i: int| 0 <= i < gitems.len() implies (
        #[trigger] gitems[i]).starred_at@ == new_items@[i].starred_at@ by {
            assert(gitems[i].login@ == new_items@[i].login@);
        }
        if forall|i: int|
            0 <= i < new_items@.len() ==> crate::date::spec_timestamp_ok(
                #[trigger] new_items@[i].starred_at@,
            ) {
            assert forall|i: int| 0 <= i < gitems.len() implies crate::date::spec_timestamp_ok(
                (#[trigger] gitems[i]).starred_at@,
            ) by {
                assert(crate::date::spec_timestamp_ok(new_items@[i].starred_at@));
            }
        }
        if forall|i: int|
            0 <= i < gitems.len() ==> crate::date::spec_timestamp_ok(
                (#[trigger] gitems[i]).starred_at@,
            ) {
            assert forall|i: int| 0 <= i < new_items@.len() implies crate::date::spec_timestamp_ok(
                (#[trigger] new_items@[i]).starred_at@,
            ) by {
                assert(crate::date::spec_timestamp_ok(gitems[i].starred_at@));
            }
        }
    }
    match inserted {
        Err(e) => {
            return Err(e);
        },
        Ok(()) => {},
    }
    if new_total_count > diff.new_count {
        let updated = update_star_count(db, diff.owner.as_str(), diff.name.as_str(), new_total_count);
        match updated {
            Err(e) => {
                return Err(e);
            },
            Ok(()) => {},
        }
    }
    Ok(())
}

} // verus!
