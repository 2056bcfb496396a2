//! The analytical store: four tables of plain rows.
//!
//! Snapshots and languages are materialised views of upstream truth and are
//! replaced wholesale on every sync; originality flags are write-once; the
//! stargazer log is append-only.  Every operation's contract pins the new
//! table contents exactly.  Duplicate stargazer events are accepted: the
//! log enforces no uniqueness, so a retried backfill may append an event
//! twice (an accepted risk of the sync protocol).

use vstd::prelude::*;

use crate::date::spec_timestamp_ok;
use crate::date::timestamp_date;

verus! {

/// A store operation failed; the store is left as it was.
#[derive(Debug, PartialEq, Eq)]
pub enum StoreError {
    /// A stargazer event carried a timestamp without a valid
    /// `YYYY-MM-DD` prefix.
    InvalidTimestamp,
}

/// The latest observed stargazer total of one repository.
#[derive(Debug)]
pub struct StarCountEntry {
    pub owner: String,
    pub name: String,
    pub stargazer_count: i64,
}

/// The primary language of one repository, if it has one.
#[derive(Debug)]
pub struct LanguageEntry {
    pub owner: String,
    pub name: String,
    pub primary_language: Option<String>,
}

/// The write-once originality classification of one repository.
#[derive(Debug)]
pub struct OriginalStatusEntry {
    pub owner: String,
    pub name: String,
    pub original: bool,
}

/// One row of the append-only stargazer event log.
#[derive(Debug)]
pub struct StargazerEvent {
    pub owner: String,
    pub name: String,
    pub starred_at: String,
    pub starred_by: String,
}

/// One stargazer event handed to [`insert_stargazers`]: who starred the
/// repository and when.
#[derive(Debug)]
pub struct StargazerEntry {
    pub login: String,
    pub starred_at: String,
}

/// A repository whose observed total outgrew its logged events: the unit of
/// the backfill work queue.
#[derive(Debug)]
pub struct StarCountDiff {
    pub owner: String,
    pub name: String,
    pub new_count: i64,
    pub old_count: i64,
}

impl StarCountEntry {
    pub open spec fn keyed(self, o: Seq<char>, n: Seq<char>) -> bool {
        self.owner@ == o && self.name@ == n
    }
}

impl LanguageEntry {
    pub open spec fn keyed(self, o: Seq<char>, n: Seq<char>) -> bool {
        self.owner@ == o && self.name@ == n
    }
}

impl OriginalStatusEntry {
    pub open spec fn keyed(self, o: Seq<char>, n: Seq<char>) -> bool {
        self.owner@ == o && self.name@ == n
    }
}

impl StargazerEvent {
    pub open spec fn keyed(self, o: Seq<char>, n: Seq<char>) -> bool {
        self.owner@ == o && self.name@ == n
    }
}

pub open spec fn snaps_have_key(s: Seq<StarCountEntry>, o: Seq<char>, n: Seq<char>) -> bool {
    exists|i: int| 0 <= i < s.len() && s[i].keyed(o, n)
}

pub open spec fn langs_have_key(s: Seq<LanguageEntry>, o: Seq<char>, n: Seq<char>) -> bool {
    exists|i: int| 0 <= i < s.len() && s[i].keyed(o, n)
}

pub open spec fn flags_have_key(s: Seq<OriginalStatusEntry>, o: Seq<char>, n: Seq<char>) -> bool {
    exists|i: int| 0 <= i < s.len() && s[i].keyed(o, n)
}

/// Whether the flag table marks `(o, n)` as original.
pub open spec fn flagged_original(s: Seq<OriginalStatusEntry>, o: Seq<char>, n: Seq<char>) -> bool {
    exists|i: int| 0 <= i < s.len() && s[i].keyed(o, n) && s[i].original
}

/// How many logged events belong to the repository `(o, n)`.
pub open spec fn spec_event_count(s: Seq<StargazerEvent>, o: Seq<char>, n: Seq<char>) -> int
    decreases s.len(),
{
    if s.len() == 0 {
        0
    } else {
        spec_event_count(s.drop_last(), o, n) + if s.last().keyed(o, n) {
            1int
        } else {
            0int
        }
    }
}

/// The in-memory analytical store.
///
/// Current star counts, primary languages, originality flags and the
/// stargazer event log.
#[derive(Debug)]
pub struct Store {
    pub snapshots: Vec<StarCountEntry>,
    pub languages: Vec<LanguageEntry>,
    pub original_flags: Vec<OriginalStatusEntry>,
    pub stargazers: Vec<StargazerEvent>,
}

impl Store {
    /// At most one snapshot row per repository.
    pub open spec fn snaps_unique(self) -> bool {
        forall|i: int, j: int|
            0 <= i < j < self.snapshots@.len() ==> !self.snapshots@[j].keyed(
                self.snapshots@[i].owner@,
                self.snapshots@[i].name@,
            )
    }

    /// At most one language row per repository.
    pub open spec fn langs_unique(self) -> bool {
        forall|i: int, j: int|
            0 <= i < j < self.languages@.len() ==> !self.languages@[j].keyed(
                self.languages@[i].owner@,
                self.languages@[i].name@,
            )
    }

    /// At most one originality flag per repository.
    pub open spec fn flags_unique(self) -> bool {
        forall|i: int, j: int|
            0 <= i < j < self.original_flags@.len() ==> !self.original_flags@[j].keyed(
                self.original_flags@[i].owner@,
                self.original_flags@[i].name@,
            )
    }

    /// Every logged event carries a usable calendar day.
    pub open spec fn events_dated(self) -> bool {
        forall|i: int|
            0 <= i < self.stargazers@.len() ==> spec_timestamp_ok(
                #[trigger] self.stargazers@[i].starred_at@,
            )
    }

    /// Every snapshot row holds a total that fits the store's 32-bit
    /// integer column, and the table itself stays within that range, so
    /// that sums over it fit the counting type.
    pub open spec fn snaps_bounded(self) -> bool {
        &&& self.snapshots@.len() <= i32::MAX
        &&& forall|i: int|
            0 <= i < self.snapshots@.len() ==> 0 <= (#[trigger] self.snapshots@[i]).stargazer_count
                <= i32::MAX
    }

    /// The store's invariant: one row per key in the keyed tables, dated
    /// events, and counts that fit the counting types.
    pub open spec fn wf(self) -> bool {
        &&& self.snaps_unique()
        &&& self.snaps_bounded()
        &&& self.langs_unique()
        &&& self.flags_unique()
        &&& self.events_dated()
        &&& self.stargazers@.len() <= i64::MAX
    }

    /// An empty store.
    pub fn new() -> (s: Store)
        ensures
            s.snapshots@.len() == 0,
            s.languages@.len() == 0,
            s.original_flags@.len() == 0,
            s.stargazers@.len() == 0,
            s.wf(),
    {
        Store {
            snapshots: Vec::new(),
            languages: Vec::new(),
            original_flags: Vec::new(),
            stargazers: Vec::new(),
        }
    }
}

/// Relies on `str`'s `PartialEq`: two string slices are equal exactly when
/// their character sequences are.
#[verifier::external_body]
pub(crate) fn str_eq(a: &str, b: &str) -> (r: bool)
    ensures
        r == (a@ == b@),
{
    a == b
}

/// Prepare the store for a sync run: the snapshot and language tables are
/// cleared (they are rebuilt from upstream truth), while the originality
/// flags and the event log persist.
pub fn setup(conn: &mut Store)
    requires
        old(conn).wf(),
    ensures
        final (conn).snapshots@.len() == 0,
        final (conn).languages@.len() == 0,
        final (conn).original_flags@ == old(conn).original_flags@,
        final (conn).stargazers@ == old(conn).stargazers@,
        final (conn).wf(),
{
    conn.snapshots = Vec::new();
    conn.languages = Vec::new();
}

fn clone_star_count(e: &StarCountEntry) -> (r: StarCountEntry)
    ensures
        r == *e,
{
    StarCountEntry {
        owner: e.owner.clone(),
        name: e.name.clone(),
        stargazer_count: e.stargazer_count,
    }
}

/// Bulk-insert snapshot rows, one repository each.
pub fn insert_star_counts(conn: &mut Store, repos: &Vec<StarCountEntry>) -> (r: Result<
    (),
    StoreError,
>)
    requires
        old(conn).wf(),
        forall|i: int, j: int|
            0 <= i < j < repos@.len() ==> !repos@[j].keyed(repos@[i].owner@, repos@[i].name@),
        forall|i: int|
            0 <= i < repos@.len() ==> !snaps_have_key(
                old(conn).snapshots@,
                #[trigger] repos@[i].owner@,
                repos@[i].name@,
            ),
        forall|i: int|
            0 <= i < repos@.len() ==> 0 <= (#[trigger] repos@[i]).stargazer_count <= i32::MAX,
        old(conn).snapshots@.len() + repos@.len() <= i32::MAX,
    ensures
        r is Ok,
        final (conn).snapshots@ == old(conn).snapshots@ + repos@,
        final (conn).languages@ == old(conn).languages@,
        final (conn).original_flags@ == old(conn).original_flags@,
        final (conn).stargazers@ == old(conn).stargazers@,
        final (conn).wf(),
{
    let ghost orig = conn.snapshots@;
    let mut i: usize = 0;
    while i < repos.len()
        invariant
            i <= repos@.len(),
            conn.snapshots@ == orig + repos@.subrange(0, i as int),
            conn.languages@ == old(conn).languages@,
            conn.original_flags@ == old(conn).original_flags@,
            conn.stargazers@ == old(conn).stargazers@,
            old(conn).wf(),
            orig == old(conn).snapshots@,
            forall|a: int, b: int|
                0 <= a < b < repos@.len() ==> !repos@[b].keyed(repos@[a].owner@, repos@[a].name@),
            forall|a: int|
                0 <= a < repos@.len() ==> !snaps_have_key(
                    orig,
                    #[trigger] repos@[a].owner@,
                    repos@[a].name@,
                ),
        decreases repos@.len() - i,
    {
        let e = clone_star_count(&repos[i]);
        conn.snapshots.push(e);
        proof {
            assert(orig + repos@.subrange(0, i + 1 as int) =~= (orig + repos@.subrange(
                0,
                i as int,
            )).push(repos@[i as int]));
        }
        i = i + 1;
    }
    proof {
        assert(repos@.subrange(0, repos@.len() as int) =~= repos@);
        assert forall|a: int, b: int|
            0 <= a < b < final (conn).snapshots@.len() implies !final (conn).snapshots@[b].keyed(
            final (conn).snapshots@[a].owner@,
            final (conn).snapshots@[a].name@,
        ) by {
            let s = final (conn).snapshots@;
            let n = orig.len() as int;
            if b < n {
                assert(old(conn).snaps_unique());
            } else if a >= n {
                assert(!repos@[b - n].keyed(repos@[a - n].owner@, repos@[a - n].name@));
            } else {
                assert(s[a] == orig[a]);
                if s[b].keyed(s[a].owner@, s[a].name@) {
                    assert(repos@[b - n].keyed(repos@[b - n].owner@, repos@[b - n].name@));
                    assert(snaps_have_key(orig, repos@[b - n].owner@, repos@[b - n].name@));
                }
            }
        }
    }
    Ok(())
}

/// Replace the snapshot table wholesale: clear it, then bulk-insert the
/// given rows.  The other tables are untouched.
pub fn replace_all_snapshots(conn: &mut Store, repos: &Vec<StarCountEntry>) -> (r: Result<
    (),
    StoreError,
>)
    requires
        old(conn).wf(),
        forall|i: int, j: int|
            0 <= i < j < repos@.len() ==> !repos@[j].keyed(repos@[i].owner@, repos@[i].name@),
        forall|i: int|
            0 <= i < repos@.len() ==> 0 <= (#[trigger] repos@[i]).stargazer_count <= i32::MAX,
        repos@.len() <= i32::MAX,
    ensures
        r is Ok,
        final (conn).snapshots@ == repos@,
        final (conn).languages@ == old(conn).languages@,
        final (conn).original_flags@ == old(conn).original_flags@,
        final (conn).stargazers@ == old(conn).stargazers@,
        final (conn).wf(),
{
    conn.snapshots = Vec::new();
    let r = insert_star_counts(conn, repos);
    proof {
        assert(Seq::<StarCountEntry>::empty() + repos@ =~= repos@);
    }
    r
}

/// Two wholesale replacements with the same rows leave the snapshot table
/// exactly as one does: [`replace_all_snapshots`] is idempotent.  The
/// force of the law sits in that function's `ensures` — the new table is
/// the given rows, whatever stood before — from which this equality of
/// any two runs follows at once.
pub proof fn lemma_replace_all_snapshots_idempotent(
    once: Store,
    twice: Store,
    rows: Seq<StarCountEntry>,
)
    requires
        once.snapshots@ == rows,
        twice.snapshots@ == rows,
    ensures
        twice.snapshots@ == once.snapshots@,
{
}

/// The snapshot rows that do not belong to the repository `(o, n)`, in
/// their original order.
pub open spec fn snaps_without_key(s: Seq<StarCountEntry>, o: Seq<char>, n: Seq<char>) -> Seq<
    StarCountEntry,
>
    decreases s.len(),
{
    if s.len() == 0 {
        s
    } else {
        let rest = snaps_without_key(s.drop_last(), o, n);
        if s.last().keyed(o, n) {
            rest
        } else {
            rest.push(s.last())
        }
    }
}

pub open spec fn snaps_pairwise_unique(s: Seq<StarCountEntry>) -> bool {
    forall|i: int, j: int| 0 <= i < j < s.len() ==> !s[j].keyed(s[i].owner@, s[i].name@)
}

proof fn lemma_without_key_props(s: Seq<StarCountEntry>, o: Seq<char>, n: Seq<char>)
    ensures
        snaps_without_key(s, o, n).len() <= s.len(),
        forall|i: int|
            0 <= i < snaps_without_key(s, o, n).len() ==> !(#[trigger] snaps_without_key(
                s,
                o,
                n,
            )[i]).keyed(o, n),
        forall|i: int|
            0 <= i < snaps_without_key(s, o, n).len() ==> s.contains(
                #[trigger] snaps_without_key(s, o, n)[i],
            ),
    decreases s.len(),
{
    if s.len() > 0 {
        lemma_without_key_props(s.drop_last(), o, n);
        let res = snaps_without_key(s, o, n);
        let rest = snaps_without_key(s.drop_last(), o, n);
        assert forall|i: int| 0 <= i < res.len() implies s.contains(#[trigger] res[i]) by {
            if i < rest.len() {
                let j = choose|j: int| 0 <= j < s.drop_last().len() && s.drop_last()[j] == rest[i];
                assert(s[j] == rest[i]);
            } else {
                assert(s[s.len() - 1] == res[i]);
            }
        }
    }
}

proof fn lemma_without_key_unique(s: Seq<StarCountEntry>, o: Seq<char>, n: Seq<char>)
    requires
        snaps_pairwise_unique(s),
    ensures
        snaps_pairwise_unique(snaps_without_key(s, o, n)),
    decreases s.len(),
{
    if s.len() > 0 {
        let pre = s.drop_last();
        assert(snaps_pairwise_unique(pre)) by {
            assert forall|i: int, j: int| 0 <= i < j < pre.len() implies !pre[j].keyed(
                pre[i].owner@,
                pre[i].name@,
            ) by {
                assert(s[i] == pre[i] && s[j] == pre[j]);
            }
        }
        lemma_without_key_unique(pre, o, n);
        lemma_without_key_props(pre, o, n);
        let res = snaps_without_key(s, o, n);
        let rest = snaps_without_key(pre, o, n);
        if !s.last().keyed(o, n) {
            assert forall|i: int, j: int| 0 <= i < j < res.len() implies !res[j].keyed(
                res[i].owner@,
                res[i].name@,
            ) by {
                if j == res.len() - 1 {
                    let k = choose|k: int| 0 <= k < pre.len() && pre[k] == rest[i];
                    assert(s[k] == rest[i]);
                    assert(!s[s.len() - 1].keyed(s[k].owner@, s[k].name@));
                }
            }
        }
    }
}

/// Refresh one repository's snapshot: any existing row for the key is
/// deleted, then a single fresh row is appended.
pub fn update_star_count(conn: &mut Store, owner: &str, name: &str, count: i64) -> (r: Result<
    (),
    StoreError,
>)
    requires
        old(conn).wf(),
        0 <= count <= i32::MAX,
        old(conn).snapshots@.len() < i32::MAX,
    ensures
        r is Ok,
        final (conn).snapshots@.len() >= 1,
        final (conn).snapshots@.drop_last() == snaps_without_key(
            old(conn).snapshots@,
            owner@,
            name@,
        ),
        final (conn).snapshots@.last().owner@ == owner@,
        final (conn).snapshots@.last().name@ == name@,
        final (conn).snapshots@.last().stargazer_count == count,
        final (conn).languages@ == old(conn).languages@,
        final (conn).original_flags@ == old(conn).original_flags@,
        final (conn).stargazers@ == old(conn).stargazers@,
        final (conn).wf(),
{
    let ghost orig = conn.snapshots@;
    let mut kept: Vec<StarCountEntry> = Vec::new();
    let mut i: usize = 0;
    while i < conn.snapshots.len()
        invariant
            i <= conn.snapshots@.len(),
            conn.snapshots@ == orig,
            kept@ == snaps_without_key(orig.subrange(0, i as int), owner@, name@),
        decreases conn.snapshots@.len() - i,
    {
        let e = &conn.snapshots[i];
        let same = str_eq(e.owner.as_str(), owner) && str_eq(e.name.as_str(), name);
        if !same {
            kept.push(clone_star_count(e));
        }
        proof {
            assert(orig.subrange(0, i + 1 as int).drop_last() =~= orig.subrange(0, i as int));
            assert(orig.subrange(0, i + 1 as int).last() == orig[i as int]);
        }
        i = i + 1;
    }
    proof {
        assert(orig.subrange(0, orig.len() as int) =~= orig);
        lemma_without_key_props(orig, owner@, name@);
        lemma_without_key_unique(orig, owner@, name@);
    }
    kept.push(
        StarCountEntry { owner: owner.to_owned(), name: name.to_owned(), stargazer_count: count },
    );
    conn.snapshots = kept;
    proof {
        assert(final (conn).snapshots@.drop_last() =~= snaps_without_key(orig, owner@, name@));
    }
    Ok(())
}

/// The keys that already carry an originality flag, one pair per flag row
/// in table order.
pub fn original_status_keys(conn: &Store) -> (r: Vec<(String, String)>)
    ensures
        r@.len() == conn.original_flags@.len(),
        forall|i: int|
            0 <= i < r@.len() ==> (#[trigger] r@[i]).0@ == conn.original_flags@[i].owner@ && r@[i].1@
                == conn.original_flags@[i].name@,
{
    let mut r: Vec<(String, String)> = Vec::new();
    let mut i: usize = 0;
    while i < conn.original_flags.len()
        invariant
            i <= conn.original_flags@.len(),
            r@.len() == i,
            forall|j: int|
                0 <= j < i ==> (#[trigger] r@[j]).0@ == conn.original_flags@[j].owner@ && r@[j].1@
                    == conn.original_flags@[j].name@,
        decreases conn.original_flags@.len() - i,
    {
        let e = &conn.original_flags[i];
        r.push((e.owner.clone(), e.name.clone()));
        i = i + 1;
    }
    r
}

/// Whether the repository already carries an originality flag.
pub fn has_original_status(conn: &Store, owner: &str, name: &str) -> (r: bool)
    ensures
        r == flags_have_key(conn.original_flags@, owner@, name@),
{
    let mut i: usize = 0;
    while i < conn.original_flags.len()
        invariant
            i <= conn.original_flags@.len(),
            forall|j: int|
                0 <= j < i ==> !(#[trigger] conn.original_flags@[j]).keyed(owner@, name@),
        decreases conn.original_flags@.len() - i,
    {
        let e = &conn.original_flags[i];
        if str_eq(e.owner.as_str(), owner) && str_eq(e.name.as_str(), name) {
            return true;
        }
        i = i + 1;
    }
    false
}

/// Record a repository's originality classification.  Flags are write-once:
/// the caller must have checked [`has_original_status`] first.
pub fn insert_original_status(conn: &mut Store, owner: &str, name: &str, is_original: bool) -> (r:
    Result<(), StoreError>)
    requires
        old(conn).wf(),
        !flags_have_key(old(conn).original_flags@, owner@, name@),
    ensures
        r is Ok,
        final (conn).original_flags@.len() == old(conn).original_flags@.len() + 1,
        final (conn).original_flags@.drop_last() == old(conn).original_flags@,
        final (conn).original_flags@.last().owner@ == owner@,
        final (conn).original_flags@.last().name@ == name@,
        final (conn).original_flags@.last().original == is_original,
        final (conn).snapshots@ == old(conn).snapshots@,
        final (conn).languages@ == old(conn).languages@,
        final (conn).stargazers@ == old(conn).stargazers@,
        final (conn).wf(),
{
    conn.original_flags.push(
        OriginalStatusEntry {
            owner: owner.to_owned(),
            name: name.to_owned(),
            original: is_original,
        },
    );
    proof {
        let s = final (conn).original_flags@;
        assert(s.drop_last() =~= old(conn).original_flags@);
        assert forall|i: int, j: int| 0 <= i < j < s.len() implies !s[j].keyed(
            s[i].owner@,
            s[i].name@,
        ) by {
            if j == s.len() - 1 {
                if s[j].keyed(s[i].owner@, s[i].name@) {
                    assert(old(conn).original_flags@[i].keyed(owner@, name@));
                }
            } else {
                assert(old(conn).flags_unique());
                assert(s[i] == old(conn).original_flags@[i]);
                assert(s[j] == old(conn).original_flags@[j]);
            }
        }
    }
    Ok(())
}

/// Record a repository's primary language.  One row per repository: the
/// language table is rebuilt from scratch on each sync.
pub fn insert_repository_primary_language(
    conn: &mut Store,
    owner: &str,
    name: &str,
    primary_language: &Option<String>,
) -> (r: Result<(), StoreError>)
    requires
        old(conn).wf(),
        !langs_have_key(old(conn).languages@, owner@, name@),
    ensures
        r is Ok,
        final (conn).languages@.len() == old(conn).languages@.len() + 1,
        final (conn).languages@.drop_last() == old(conn).languages@,
        final (conn).languages@.last().owner@ == owner@,
        final (conn).languages@.last().name@ == name@,
        final (conn).languages@.last().primary_language is Some <==> primary_language is Some,
        primary_language is Some ==> final (conn).languages@.last().primary_language->0@
            == primary_language->0@,
        final (conn).snapshots@ == old(conn).snapshots@,
        final (conn).original_flags@ == old(conn).original_flags@,
        final (conn).stargazers@ == old(conn).stargazers@,
        final (conn).wf(),
{
    let lang: Option<String> = match primary_language {
        Some(s) => Some(s.clone()),
        None => None,
    };
    conn.languages.push(
        LanguageEntry { owner: owner.to_owned(), name: name.to_owned(), primary_language: lang },
    );
    proof {
        let s = final (conn).languages@;
        assert(s.drop_last() =~= old(conn).languages@);
        assert forall|i: int, j: int| 0 <= i < j < s.len() implies !s[j].keyed(
            s[i].owner@,
            s[i].name@,
        ) by {
            if j == s.len() - 1 {
                if s[j].keyed(s[i].owner@, s[i].name@) {
                    assert(old(conn).languages@[i].keyed(owner@, name@));
                }
            } else {
                assert(old(conn).langs_unique());
                assert(s[i] == old(conn).languages@[i]);
                assert(s[j] == old(conn).languages@[j]);
            }
        }
    }
    Ok(())
}

/// Append a batch of stargazer events for one repository, all or nothing.
///
/// The batch arrives in descending-timestamp order from the backfill
/// engine; a partial append would leave the log inconsistent with the
/// counts, so on any invalid timestamp the whole batch is rejected and the
/// store is untouched.
pub fn insert_stargazers(
    conn: &mut Store,
    owner: &str,
    name: &str,
    items: Vec<StargazerEntry>,
) -> (r: Result<(), StoreError>)
    requires
        old(conn).wf(),
        old(conn).stargazers@.len() + items@.len() <= i64::MAX,
    ensures
        r is Ok <==> (forall|i: int|
            0 <= i < items@.len() ==> spec_timestamp_ok(#[trigger] items@[i].starred_at@)),
        r is Err ==> final (conn).stargazers@ == old(conn).stargazers@,
        r is Ok ==> final (conn).stargazers@.len() == old(conn).stargazers@.len() + items@.len(),
        r is Ok ==> forall|i: int|
            0 <= i < old(conn).stargazers@.len() ==> final (conn).stargazers@[i] == old(
                conn,
            ).stargazers@[i],
        r is Ok ==> forall|i: int|
            0 <= i < items@.len() ==> {
                let ev = #[trigger] final (conn).stargazers@[old(conn).stargazers@.len() + i];
                ev.owner@ == owner@ && ev.name@ == name@ && ev.starred_at@ == items@[i].starred_at@
                    && ev.starred_by@ == items@[i].login@
            },
        final (conn).snapshots@ == old(conn).snapshots@,
        final (conn).languages@ == old(conn).languages@,
        final (conn).original_flags@ == old(conn).original_flags@,
        final (conn).wf(),
{
    let mut i: usize = 0;
    while i < items.len()
        invariant
            i <= items@.len(),
            forall|j: int| 0 <= j < i ==> spec_timestamp_ok(#[trigger] items@[j].starred_at@),
            old(conn).wf(),
            conn.snapshots@ == old(conn).snapshots@,
            conn.languages@ == old(conn).languages@,
            conn.original_flags@ == old(conn).original_flags@,
            conn.stargazers@ == old(conn).stargazers@,
        decreases items@.len() - i,
    {
        if timestamp_date(items[i].starred_at.as_str()).is_none() {
            return Err(StoreError::InvalidTimestamp);
        }
        i = i + 1;
    }
    let ghost orig = conn.stargazers@;
    let mut k: usize = 0;
    while k < items.len()
        invariant
            k <= items@.len(),
            old(conn).wf(),
            conn.snapshots@ == old(conn).snapshots@,
            conn.languages@ == old(conn).languages@,
            conn.original_flags@ == old(conn).original_flags@,
            orig == old(conn).stargazers@,
            conn.stargazers@.len() == orig.len() + k,
            forall|j: int| 0 <= j < orig.len() ==> conn.stargazers@[j] == orig[j],
            forall|j: int|
                0 <= j < k ==> {
                    let ev = #[trigger] conn.stargazers@[orig.len() + j];
                    ev.owner@ == owner@ && ev.name@ == name@ && ev.starred_at@
                        == items@[j].starred_at@ && ev.starred_by@ == items@[j].login@
                },
            forall|j: int| 0 <= j < items@.len() ==> spec_timestamp_ok(
                #[trigger] items@[j].starred_at@,
            ),
        decreases items@.len() - k,
    {
        let it = &items[k];
        conn.stargazers.push(
            StargazerEvent {
                owner: owner.to_owned(),
                name: name.to_owned(),
                starred_at: it.starred_at.clone(),
                starred_by: it.login.clone(),
            },
        );
        k = k + 1;
    }
    proof {
        assert(final (conn).events_dated()) by {
            assert forall|j: int| 0 <= j < final (conn).stargazers@.len() implies spec_timestamp_ok(
                (#[trigger] final (conn).stargazers@[j]).starred_at@,
            ) by {
                if j < orig.len() {
                    assert(final (conn).stargazers@[j] == orig[j]);
                    assert(old(conn).events_dated());
                } else {
                    let jj = j - orig.len();
                    assert(final (conn).stargazers@[orig.len() + jj].starred_at@
                        == items@[jj].starred_at@);
                    assert(orig.len() + jj == j);
                }
            }
        }
    }
    Ok(())
}

/// The diff row derived for one snapshot: the observed total beside the
/// number of logged events.
pub open spec fn spec_diff_of(e: StarCountEntry, events: Seq<StargazerEvent>) -> StarCountDiff {
    StarCountDiff {
        owner: e.owner,
        name: e.name,
        new_count: e.stargazer_count,
        old_count: spec_event_count(events, e.owner@, e.name@) as i64,
    }
}

/// Whether a snapshot row belongs on the backfill work queue: the
/// repository is flagged original and its observed total strictly exceeds
/// its logged events.  Strict growth is deliberate: net unstars shrink the
/// total below the log and must not be mistaken for missing history.
pub open spec fn spec_needs_backfill(
    e: StarCountEntry,
    flags: Seq<OriginalStatusEntry>,
    events: Seq<StargazerEvent>,
) -> bool {
    flagged_original(flags, e.owner@, e.name@) && e.stargazer_count > spec_event_count(
        events,
        e.owner@,
        e.name@,
    )
}

/// The backfill work queue: one diff per qualifying snapshot row, in
/// snapshot-table order.
pub open spec fn spec_growth_diffs(
    snaps: Seq<StarCountEntry>,
    flags: Seq<OriginalStatusEntry>,
    events: Seq<StargazerEvent>,
) -> Seq<StarCountDiff>
    decreases snaps.len(),
{
    if snaps.len() == 0 {
        Seq::empty()
    } else {
        let rest = spec_growth_diffs(snaps.drop_last(), flags, events);
        if spec_needs_backfill(snaps.last(), flags, events) {
            rest.push(spec_diff_of(snaps.last(), events))
        } else {
            rest
        }
    }
}

/// A store in steady state has an empty work queue: when no
/// flagged-original repository's observed total strictly exceeds its
/// logged events, there is nothing to backfill.
pub proof fn lemma_steady_state_no_diffs(
    snaps: Seq<StarCountEntry>,
    flags: Seq<OriginalStatusEntry>,
    events: Seq<StargazerEvent>,
)
    requires
        forall|i: int|
            0 <= i < snaps.len() ==> !spec_needs_backfill(#[trigger] snaps[i], flags, events),
    ensures
        spec_growth_diffs(snaps, flags, events).len() == 0,
    decreases snaps.len(),
{
    if snaps.len() > 0 {
        assert(snaps.last() == snaps[snaps.len() - 1]);
        assert forall|i: int| 0 <= i < snaps.drop_last().len() implies !spec_needs_backfill(
            #[trigger] snaps.drop_last()[i],
            flags,
            events,
        ) by {
            assert(snaps.drop_last()[i] == snaps[i]);
        }
        lemma_steady_state_no_diffs(snaps.drop_last(), flags, events);
    }
}

/// How many logged events the repository `(owner, name)` has on file.
pub fn count_stargazer_events(conn: &Store, owner: &str, name: &str) -> (c: i64)
    requires
        conn.wf(),
    ensures
        c == spec_event_count(conn.stargazers@, owner@, name@),
        0 <= c <= conn.stargazers@.len(),
{
    let mut c: i64 = 0;
    let mut i: usize = 0;
    while i < conn.stargazers.len()
        invariant
            i <= conn.stargazers@.len(),
            conn.stargazers@.len() <= i64::MAX,
            0 <= c <= i,
            c == spec_event_count(conn.stargazers@.subrange(0, i as int), owner@, name@),
        decreases conn.stargazers@.len() - i,
    {
        let e = &conn.stargazers[i];
        let same = str_eq(e.owner.as_str(), owner) && str_eq(e.name.as_str(), name);
        if same {
            c = c + 1;
        }
        proof {
            assert(conn.stargazers@.subrange(0, i + 1 as int).drop_last() =~= conn.stargazers@
                .subrange(0, i as int));
            assert(conn.stargazers@.subrange(0, i + 1 as int).last() == conn.stargazers@[i as int]);
        }
        i = i + 1;
    }
    proof {
        assert(conn.stargazers@.subrange(0, conn.stargazers@.len() as int) =~= conn.stargazers@);
    }
    c
}

/// Whether the flag table marks the repository as original.
pub fn is_flagged_original(conn: &Store, owner: &str, name: &str) -> (r: bool)
    ensures
        r == flagged_original(conn.original_flags@, owner@, name@),
{
    let mut i: usize = 0;
    while i < conn.original_flags.len()
        invariant
            i <= conn.original_flags@.len(),
            forall|j: int|
                0 <= j < i ==> !((#[trigger] conn.original_flags@[j]).keyed(owner@, name@)
                    && conn.original_flags@[j].original),
        decreases conn.original_flags@.len() - i,
    {
        let e = &conn.original_flags[i];
        if e.original && str_eq(e.owner.as_str(), owner) && str_eq(e.name.as_str(), name) {
            return true;
        }
        i = i + 1;
    }
    false
}

/// The repositories whose stars grew since the last sync: flagged-original
/// snapshots whose observed total strictly exceeds the logged event count.
/// This is the backfill engine's work queue.
pub fn get_newly_starred_original_repositories(conn: &Store) -> (r: Vec<StarCountDiff>)
    requires
        conn.wf(),
    ensures
        r@ == spec_growth_diffs(conn.snapshots@, conn.original_flags@, conn.stargazers@),
{
    let mut r: Vec<StarCountDiff> = Vec::new();
    let mut i: usize = 0;
    while i < conn.snapshots.len()
        invariant
            i <= conn.snapshots@.len(),
            conn.wf(),
            r@ == spec_growth_diffs(
                conn.snapshots@.subrange(0, i as int),
                conn.original_flags@,
                conn.stargazers@,
            ),
        decreases conn.snapshots@.len() - i,
    {
        let e = &conn.snapshots[i];
        let flagged = is_flagged_original(conn, e.owner.as_str(), e.name.as_str());
        let old_count = count_stargazer_events(conn, e.owner.as_str(), e.name.as_str());
        if flagged && e.stargazer_count > old_count {
            r.push(
                StarCountDiff {
                    owner: e.owner.clone(),
                    name: e.name.clone(),
                    new_count: e.stargazer_count,
                    old_count,
                },
            );
        }
        proof {
            assert(conn.snapshots@.subrange(0, i + 1 as int).drop_last() =~= conn.snapshots@
                .subrange(0, i as int));
            assert(conn.snapshots@.subrange(0, i + 1 as int).last() == conn.snapshots@[i as int]);
        }
        i = i + 1;
    }
    proof {
        assert(conn.snapshots@.subrange(0, conn.snapshots@.len() as int) =~= conn.snapshots@);
    }
    r
}

} // verus!
