//! The stargazer backfill engine.
//!
//! For a repository whose observed total outgrew its logged events, the
//! engine pages backward from the most recent stargazer and accumulates
//! exactly the missing slice.  The caller performs each page fetch and
//! feeds the page to [`backfill_step`]; the step function decides how the
//! accumulation advances and whether an earlier page is still needed.

use vstd::prelude::*;

use crate::api::ApiResponseError;
use crate::api::StargazerEdge;
use crate::api::StargazerPage;
use crate::store::StarCountDiff;

verus! {

/// The engine's state between page fetches.
#[derive(Debug)]
pub struct BackfillState {
    /// Events accounted for so far: the logged count plus what this run
    /// has accumulated.
    pub accum_count: i64,
    /// The authoritative total, as reported by the most recent page (the
    /// diff's expected total until a page arrives).
    pub total_count: i64,
    /// The accumulated stargazer events, most recent first.
    pub collected: Vec<StargazerEdge>,
    /// The cursor of the next (earlier) page to fetch, once a page asked
    /// for one.
    pub cursor: Option<String>,
}

/// How one page's edge list is absorbed: present edges are taken in order,
/// each raising the accounted count by one, stopping early the moment the
/// count reaches `total`.  Returns the extended collection and the new
/// count.
pub open spec fn spec_absorb(
    collected: Seq<StargazerEdge>,
    accum: int,
    total: int,
    edges: Seq<Option<StargazerEdge>>,
) -> (Seq<StargazerEdge>, int)
    decreases edges.len(),
{
    if edges.len() == 0 {
        (collected, accum)
    } else {
        match edges[0] {
            None => spec_absorb(collected, accum, total, edges.drop_first()),
            Some(item) => {
                if accum + 1 == total {
                    (collected.push(item), accum + 1)
                } else {
                    spec_absorb(collected.push(item), accum + 1, total, edges.drop_first())
                }
            },
        }
    }
}

/// How many edges of a page are present.
pub open spec fn spec_count_somes(edges: Seq<Option<StargazerEdge>>) -> int
    decreases edges.len(),
{
    if edges.len() == 0 {
        0
    } else {
        spec_count_somes(edges.drop_first()) + if edges[0] is Some {
            1int
        } else {
            0int
        }
    }
}

/// The fresh engine state for one work-queue diff: the logged count is
/// already accounted for, and the diff's observed total is the expected
/// total until a page reports otherwise.
pub fn backfill_start(diff: &StarCountDiff) -> (st: BackfillState)
    ensures
        st.accum_count == diff.old_count,
        st.total_count == diff.new_count,
        st.collected@.len() == 0,
        st.cursor is None,
{
    BackfillState {
        accum_count: diff.old_count,
        total_count: diff.new_count,
        collected: Vec::new(),
        cursor: None,
    }
}

/// How many items to request for the next page: the remaining gap plus a
/// small buffer for churn between the count snapshot and the fetch, capped
/// by the page size.
pub fn next_request_count(st: &BackfillState, page_size: i64) -> (r: i64)
    requires
        st.total_count - st.accum_count + 5 <= i64::MAX,
        i64::MIN <= st.total_count - st.accum_count,
    ensures
        r == if st.total_count - st.accum_count + 5 <= page_size {
            st.total_count - st.accum_count + 5
        } else {
            page_size as int
        },
{
    let gap = st.total_count - st.accum_count + 5;
    if gap <= page_size {
        gap
    } else {
        page_size
    }
}

fn clone_edge(e: &StargazerEdge) -> (r: StargazerEdge)
    ensures
        r == *e,
{
    StargazerEdge { login: e.login.clone(), starred_at: e.starred_at.clone() }
}

fn clone_cursor(c: &Option<String>) -> (r: Option<String>)
    ensures
        r == *c,
{
    match c {
        Some(s) => Some(s.clone()),
        None => None,
    }
}

/// Absorb one fetched page.
///
/// The page's reported total is always trusted over the previous
/// expectation, present edges are accumulated until the accounted count
/// reaches that total, and the result says whether an earlier page must
/// still be fetched: only when the page has one and the count still falls
/// short.  A page without an edge list is a missing-node failure; the
/// state then keeps everything but the refreshed total.
pub fn backfill_step(st: &mut BackfillState, page: &StargazerPage) -> (r: Result<
    bool,
    ApiResponseError,
>)
    requires
        0 <= old(st).accum_count,
        page.edges matches Some(v) ==> old(st).accum_count + v@.len() <= i64::MAX,
    ensures
        final (st).total_count == page.total_count,
        page.edges is None ==> {
            &&& r matches Err(e) && (e matches ApiResponseError::EmptyNode(f) && f@ == "edges"@)
            &&& final (st).collected@ == old(st).collected@
            &&& final (st).accum_count == old(st).accum_count
            &&& final (st).cursor == old(st).cursor
        },
        page.edges matches Some(v) ==> {
            &&& r matches Ok(cont)
            &&& final (st).collected@ == spec_absorb(
                old(st).collected@,
                old(st).accum_count as int,
                page.total_count as int,
                v@,
            ).0
            &&& final (st).accum_count as int == spec_absorb(
                old(st).collected@,
                old(st).accum_count as int,
                page.total_count as int,
                v@,
            ).1
            &&& cont == (page.has_previous_page && final (st).accum_count < final (st).total_count)
            &&& (cont ==> final (st).cursor == page.start_cursor)
            &&& (!cont ==> final (st).cursor == old(st).cursor)
        },
{
    st.total_count = page.total_count;
    let edges = match &page.edges {
        None => {
            return Err(ApiResponseError::EmptyNode("edges".to_owned()));
        },
        Some(v) => v,
    };
    let ghost gcol = st.collected@;
    let ghost gacc = st.accum_count as int;
    let ghost total = page.total_count as int;
    let mut i: usize = 0;
    let mut done = false;
    proof {
        assert(edges@.subrange(0, edges@.len() as int) =~= edges@);
    }
    while i < edges.len() && !done
        invariant
            i <= edges@.len(),
            st.total_count == page.total_count,
            total == page.total_count as int,
            st.cursor == old(st).cursor,
            gacc <= st.accum_count <= gacc + i,
            spec_absorb(gcol, gacc, total, edges@).0 == if done {
                st.collected@
            } else {
                spec_absorb(
                    st.collected@,
                    st.accum_count as int,
                    total,
                    edges@.subrange(i as int, edges@.len() as int),
                ).0
            },
            spec_absorb(gcol, gacc, total, edges@).1 == if done {
                st.accum_count as int
            } else {
                spec_absorb(
                    st.collected@,
                    st.accum_count as int,
                    total,
                    edges@.subrange(i as int, edges@.len() as int),
                ).1
            },
            gacc + edges@.len() <= i64::MAX,
            gacc >= 0,
        decreases edges@.len() - i,
    {
        let ghost pre_col = st.collected@;
        let ghost pre_acc = st.accum_count as int;
        let ghost suffix = edges@.subrange(i as int, edges@.len() as int);
        proof {
            assert(suffix.drop_first() =~= edges@.subrange(i + 1 as int, edges@.len() as int));
            assert(suffix[0] == edges@[i as int]);
            assert(suffix.len() > 0);
        }
        match &edges[i] {
            Some(item) => {
                st.collected.push(clone_edge(item));
                st.accum_count = st.accum_count + 1;
                if st.accum_count == st.total_count {
                    done = true;
                }
                proof {
                    let item0 = edges@[i as int]->0;
                    if pre_acc + 1 == total {
                        assert(spec_absorb(pre_col, pre_acc, total, suffix).0 == pre_col.push(
                            item0,
                        ));
                        assert(spec_absorb(pre_col, pre_acc, total, suffix).1 == pre_acc + 1);
                    } else {
                        assert(spec_absorb(pre_col, pre_acc, total, suffix).0 == spec_absorb(
                            pre_col.push(item0),
                            pre_acc + 1,
                            total,
                            suffix.drop_first(),
                        ).0);
                        assert(spec_absorb(pre_col, pre_acc, total, suffix).1 == spec_absorb(
                            pre_col.push(item0),
                            pre_acc + 1,
                            total,
                            suffix.drop_first(),
                        ).1);
                    }
                }
            },
            None => {
                proof {
                    assert(spec_absorb(pre_col, pre_acc, total, suffix).0 == spec_absorb(
                        pre_col,
                        pre_acc,
                        total,
                        suffix.drop_first(),
                    ).0);
                    assert(spec_absorb(pre_col, pre_acc, total, suffix).1 == spec_absorb(
                        pre_col,
                        pre_acc,
                        total,
                        suffix.drop_first(),
                    ).1);
                }
            },
        }
        i = i + 1;
    }
    proof {
        if !done {
            assert(edges@.subrange(i as int, edges@.len() as int).len() == 0);
        }
    }
    let cont = page.has_previous_page && st.accum_count < st.total_count;
    if cont {
        st.cursor = clone_cursor(&page.start_cursor);
    }
    Ok(cont)
}

proof fn lemma_count_somes_nonneg(edges: Seq<Option<StargazerEdge>>)
    ensures
        spec_count_somes(edges) >= 0,
    decreases edges.len(),
{
    if edges.len() > 0 {
        lemma_count_somes_nonneg(edges.drop_first());
    }
}

/// What one absorption step achieves, exactly: the accounted count rises
/// by the page's present edges, but never past the total once it was
/// short of it; the collection grows by just as much.
pub proof fn lemma_absorb_accumulates(
    collected: Seq<StargazerEdge>,
    accum: int,
    total: int,
    edges: Seq<Option<StargazerEdge>>,
)
    ensures
        ({
            let (ncol, nacc) = spec_absorb(collected, accum, total, edges);
            &&& ncol.len() - collected.len() == nacc - accum
            &&& nacc == if accum >= total || spec_count_somes(edges) <= total - accum {
                accum + spec_count_somes(edges)
            } else {
                total
            }
        }),
    decreases edges.len(),
{
    lemma_count_somes_nonneg(edges);
    if edges.len() > 0 {
        lemma_count_somes_nonneg(edges.drop_first());
        match edges[0] {
            None => {
                lemma_absorb_accumulates(collected, accum, total, edges.drop_first());
            },
            Some(item) => {
                if accum + 1 != total {
                    lemma_absorb_accumulates(
                        collected.push(item),
                        accum + 1,
                        total,
                        edges.drop_first(),
                    );
                }
            },
        }
    }
}

/// A whole churn-free walk, page by page: each page's edge list is
/// absorbed in turn, and the walk ends the moment the accounted count
/// reaches the total — exactly when [`backfill_step`] stops asking for an
/// earlier page.
pub open spec fn spec_absorb_run(
    collected: Seq<StargazerEdge>,
    accum: int,
    total: int,
    pages: Seq<Seq<Option<StargazerEdge>>>,
) -> (Seq<StargazerEdge>, int)
    decreases pages.len(),
{
    if pages.len() == 0 || accum >= total {
        (collected, accum)
    } else {
        let (c1, a1) = spec_absorb(collected, accum, total, pages[0]);
        spec_absorb_run(c1, a1, total, pages.drop_first())
    }
}

/// Backfill termination: under no concurrent churn (every page reports
/// the same total), a walk over pages that each deliver at least one
/// present edge reaches the total within `total - accum` pages, and the
/// accumulated events number exactly the gap `total - accum`.
pub proof fn lemma_backfill_run_collects_gap(
    collected: Seq<StargazerEdge>,
    accum: int,
    total: int,
    pages: Seq<Seq<Option<StargazerEdge>>>,
)
    requires
        accum <= total,
        total - accum <= pages.len(),
        forall|k: int| 0 <= k < pages.len() ==> spec_count_somes(#[trigger] pages[k]) >= 1,
    ensures
        spec_absorb_run(collected, accum, total, pages).1 == total,
        spec_absorb_run(collected, accum, total, pages).0.len() == collected.len() + (total
            - accum),
    decreases pages.len(),
{
    if accum < total {
        let (c1, a1) = spec_absorb(collected, accum, total, pages[0]);
        lemma_absorb_accumulates(collected, accum, total, pages[0]);
        let rest = pages.drop_first();
        assert forall|k: int| 0 <= k < rest.len() implies spec_count_somes(
            #[trigger] rest[k],
        ) >= 1 by {
            assert(rest[k] == pages[k + 1]);
        }
        lemma_backfill_run_collects_gap(c1, a1, total, rest);
    }
}

} // verus!
