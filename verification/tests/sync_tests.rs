use yastar::api::ApiResponseError;
use yastar::api::CommitAuthor;
use yastar::api::CommitEntry;
use yastar::api::CommitPage;
use yastar::api::CommitUser;
use yastar::api::RepoEntry;
use yastar::api::RepoPage;
use yastar::api::StargazerEdge;
use yastar::api::StargazerPage;
use yastar::backfill::backfill_start;
use yastar::backfill::backfill_step;
use yastar::backfill::next_request_count;
use yastar::classify::check_commit_author;
use yastar::classify::decide_from_commits;
use yastar::classify::decide_original;
use yastar::classify::first_commits_advance;
use yastar::classify::first_commits_finish;
use yastar::classify::first_commits_fill_previous;
use yastar::classify::first_commits_start;
use yastar::classify::needs_commit_history;
use yastar::classify::CommitsAction;
use yastar::date::timestamp_date;
use yastar::date::Date;
use yastar::listing::collect_repo_page;
use yastar::listing::ListingAction;
use yastar::pipeline::apply_backfill;
use yastar::pipeline::record_original_status;
use yastar::pipeline::update_primary_languages;
use yastar::pipeline::update_star_counts;
use yastar::store::count_stargazer_events;
use yastar::store::get_newly_starred_original_repositories;
use yastar::store::is_flagged_original;
use yastar::store::setup;
use yastar::store::StarCountDiff;
use yastar::store::Store;

fn edge(i: usize) -> StargazerEdge {
    StargazerEdge {
        login: format!("user{}", i),
        starred_at: format!("2024-09-{:02}T11:08:{:02}Z", (i % 28) + 1, i % 60),
    }
}

fn commit_by(login: &str) -> CommitEntry {
    CommitEntry {
        author: Some(CommitAuthor {
            user: Some(CommitUser {
                login: login.to_string(),
            }),
        }),
    }
}

#[test]
fn backfill_fetches_exactly_the_gap() {
    // old_count = 80, new_count = 105, page size 20, no churn.
    let after_count = 80;
    let expected_total_count = 105;
    let page_size = 20;
    let diff = StarCountDiff {
        owner: "akirak".to_string(),
        name: "flake-templates".to_string(),
        new_count: expected_total_count,
        old_count: after_count,
    };
    let mut st = backfill_start(&diff);
    let mut fetched_pages = 0;
    let mut next = 0;
    loop {
        let count = next_request_count(&st, page_size);
        assert!(count <= page_size);
        let mut edges = Vec::new();
        for _ in 0..count {
            edges.push(Some(edge(next)));
            next += 1;
        }
        let page = StargazerPage {
            total_count: expected_total_count,
            edges: Some(edges),
            has_previous_page: true,
            start_cursor: Some(format!("cursor{}", fetched_pages)),
        };
        fetched_pages += 1;
        let cont = backfill_step(&mut st, &page).unwrap();
        if !cont {
            break;
        }
        assert!(fetched_pages < 10);
    }
    assert_eq!(st.accum_count, expected_total_count);
    assert_eq!(
        expected_total_count,
        after_count + st.collected.len() as i64
    );
    assert_eq!(st.collected.len(), 25);
    assert_eq!(fetched_pages, 2);
}

#[test]
fn backfill_stops_when_no_earlier_page() {
    // Net unstars: the log already holds more events than the total.
    let diff = StarCountDiff {
        owner: "o".to_string(),
        name: "r".to_string(),
        new_count: 12,
        old_count: 10,
    };
    let mut st = backfill_start(&diff);
    let page = StargazerPage {
        total_count: 8,
        edges: Some(vec![Some(edge(0)), Some(edge(1))]),
        has_previous_page: false,
        start_cursor: None,
    };
    let cont = backfill_step(&mut st, &page).unwrap();
    assert!(!cont);
    assert_eq!(st.total_count, 8);
    assert_eq!(st.collected.len(), 2);
}

#[test]
fn backfill_missing_edges_is_an_error() {
    let diff = StarCountDiff {
        owner: "o".to_string(),
        name: "r".to_string(),
        new_count: 5,
        old_count: 0,
    };
    let mut st = backfill_start(&diff);
    let page = StargazerPage {
        total_count: 5,
        edges: None,
        has_previous_page: true,
        start_cursor: None,
    };
    let r = backfill_step(&mut st, &page);
    assert_eq!(r, Err(ApiResponseError::EmptyNode("edges".to_string())));
}

#[test]
fn apply_backfill_appends_and_refreshes_total() {
    let mut db = Store::new();
    setup(&mut db);
    let repos = vec![RepoEntry {
        owner: "o".to_string(),
        name: "r".to_string(),
        stargazer_count: 10,
        primary_language: Some("Rust".to_string()),
    }];
    update_star_counts(&mut db, &repos).unwrap();
    update_primary_languages(&mut db, &repos).unwrap();
    record_original_status(&mut db, "o", "r", "o", &None).unwrap();

    let diffs = get_newly_starred_original_repositories(&db);
    assert_eq!(diffs.len(), 1);
    let items: Vec<StargazerEdge> = (0..10).map(edge).collect();
    // Two more stars arrived while backfilling: the page reported 12.
    apply_backfill(&mut db, &diffs[0], 12, &items).unwrap();
    assert_eq!(count_stargazer_events(&db, "o", "r"), 10);
    assert_eq!(db.snapshots.len(), 1);
    assert_eq!(db.snapshots[0].stargazer_count, 12);
}

#[test]
fn listing_stops_at_zero_star_repo() {
    let repo = |name: &str, stars: i64| {
        Some(RepoEntry {
            owner: "o".to_string(),
            name: name.to_string(),
            stargazer_count: stars,
            primary_language: None,
        })
    };
    let mut result = Vec::new();
    let page = RepoPage {
        nodes: Some(vec![repo("a", 5), repo("z", 0), repo("b", 3)]),
        has_next_page: true,
        end_cursor: Some("c".to_string()),
    };
    let action = collect_repo_page(&mut result, &page).unwrap();
    assert_eq!(action, ListingAction::Stop);
    assert_eq!(result.len(), 1);
    assert_eq!(result[0].name, "a");
}

#[test]
fn listing_continues_on_full_page() {
    let repo = |name: &str, stars: i64| {
        Some(RepoEntry {
            owner: "o".to_string(),
            name: name.to_string(),
            stargazer_count: stars,
            primary_language: None,
        })
    };
    let mut result = Vec::new();
    let full = RepoPage {
        nodes: Some(vec![repo("a", 5), repo("b", 3)]),
        has_next_page: true,
        end_cursor: Some("c".to_string()),
    };
    assert_eq!(
        collect_repo_page(&mut result, &full).unwrap(),
        ListingAction::Continue
    );
    assert_eq!(result.len(), 2);

    // A missing entry counts as lost data and ends the walk.
    let with_hole = RepoPage {
        nodes: Some(vec![repo("c", 2), None]),
        has_next_page: true,
        end_cursor: Some("d".to_string()),
    };
    assert_eq!(
        collect_repo_page(&mut result, &with_hole).unwrap(),
        ListingAction::Stop
    );
    assert_eq!(result.len(), 3);
}

#[test]
fn listing_missing_nodes_is_an_error() {
    // A page whose node list is absent is a missing-node failure, not an
    // empty page: the walk aborts and the partial result is untouched.
    let mut result = vec![RepoEntry {
        owner: "o".to_string(),
        name: "kept".to_string(),
        stargazer_count: 1,
        primary_language: None,
    }];
    let page = RepoPage {
        nodes: None,
        has_next_page: true,
        end_cursor: Some("c".to_string()),
    };
    assert_eq!(
        collect_repo_page(&mut result, &page),
        Err(ApiResponseError::EmptyNode("nodes".to_string()))
    );
    assert_eq!(result.len(), 1);
}

#[test]
fn self_owned_repo_is_original_without_commit_history() {
    assert!(!needs_commit_history("alice", "alice"));
    assert!(needs_commit_history("bob", "alice"));
    // No commit sample at all, yet classified original.
    assert!(decide_original("alice", "alice", &None));
}

#[test]
fn commit_vote_passes_only_unanimous_samples() {
    let ours = commit_by("alice");
    let theirs = commit_by("bob");
    assert!(check_commit_author("alice", &ours));
    assert!(!check_commit_author("alice", &theirs));
    assert!(!check_commit_author(
        "alice",
        &CommitEntry { author: None }
    ));

    // The protocol compares matching/sampled > 1/2 in integers, so a
    // 2-of-3 majority does not pass; only a unanimous sample does.
    let two_of_three = Some(vec![commit_by("alice"), commit_by("alice"), commit_by("bob")]);
    assert!(!decide_from_commits("alice", &two_of_three));
    let unanimous = Some(vec![commit_by("alice"), commit_by("alice")]);
    assert!(decide_from_commits("alice", &unanimous));
    assert!(!decide_from_commits("alice", &None));
}

#[test]
fn first_commits_two_page_fallback() {
    let mut st = first_commits_start();

    // Walk forward past a page that is not the last.
    let middle = CommitPage {
        nodes: None,
        has_next_page: true,
        start_cursor: Some("start1".to_string()),
        end_cursor: Some("end1".to_string()),
    };
    assert_eq!(
        first_commits_advance(&mut st, &middle, 5).unwrap(),
        CommitsAction::FetchMore
    );
    assert_eq!(st.cursor, Some("end1".to_string()));
    assert_eq!(st.previous_cursor, Some("start1".to_string()));

    // The last page holds two commits; the limit is five, so the walk
    // falls back to the saved second-to-last page.
    let last = CommitPage {
        nodes: Some(vec![Some(commit_by("a")), None, Some(commit_by("b"))]),
        has_next_page: false,
        start_cursor: None,
        end_cursor: None,
    };
    assert_eq!(
        first_commits_advance(&mut st, &last, 5).unwrap(),
        CommitsAction::FetchPrevious
    );
    assert_eq!(st.commits.len(), 2);

    let previous = CommitPage {
        nodes: Some(vec![
            Some(commit_by("c")),
            Some(commit_by("d")),
            Some(commit_by("e")),
            Some(commit_by("f")),
        ]),
        has_next_page: true,
        start_cursor: None,
        end_cursor: None,
    };
    first_commits_fill_previous(&mut st, &previous, 5).unwrap();
    // The fill stops at the limit.
    assert_eq!(st.commits.len(), 5);

    let commits = first_commits_finish(st).unwrap();
    assert_eq!(commits.len(), 5);
}

#[test]
fn first_commits_empty_history_yields_none() {
    let mut st = first_commits_start();
    let last = CommitPage {
        nodes: Some(vec![None]),
        has_next_page: false,
        start_cursor: None,
        end_cursor: None,
    };
    assert_eq!(
        first_commits_advance(&mut st, &last, 5).unwrap(),
        CommitsAction::Done
    );
    assert!(first_commits_finish(st).is_none());

    let mut st2 = first_commits_start();
    let broken = CommitPage {
        nodes: None,
        has_next_page: false,
        start_cursor: None,
        end_cursor: None,
    };
    assert_eq!(
        first_commits_advance(&mut st2, &broken, 5),
        Err(ApiResponseError::EmptyNode("nodes".to_string()))
    );
}

#[test]
fn pipeline_scenario_store_reaches_steady_state() {
    // An empty store; one repository with ten stars, a language, an
    // originality flag, and ten logged events: nothing left to backfill.
    let mut db = Store::new();
    setup(&mut db);
    let repos = vec![RepoEntry {
        owner: "o".to_string(),
        name: "r".to_string(),
        stargazer_count: 10,
        primary_language: Some("Rust".to_string()),
    }];
    update_star_counts(&mut db, &repos).unwrap();
    update_primary_languages(&mut db, &repos).unwrap();
    record_original_status(&mut db, "o", "r", "o", &None).unwrap();
    assert!(is_flagged_original(&db, "o", "r"));

    let items: Vec<StargazerEdge> = (0..10).map(edge).collect();
    let diff = StarCountDiff {
        owner: "o".to_string(),
        name: "r".to_string(),
        new_count: 10,
        old_count: 0,
    };
    apply_backfill(&mut db, &diff, 10, &items).unwrap();

    assert!(get_newly_starred_original_repositories(&db).is_empty());
}

#[test]
fn timestamp_dates_parse_and_validate() {
    assert_eq!(
        timestamp_date("2024-09-21T11:08:01Z"),
        Some(Date {
            year: 2024,
            month: 9,
            day: 21
        })
    );
    assert_eq!(
        timestamp_date("2024-02-29T00:00:00Z"),
        Some(Date {
            year: 2024,
            month: 2,
            day: 29
        })
    );
    assert_eq!(timestamp_date("2023-02-29T00:00:00Z"), None);
    assert_eq!(timestamp_date("2024-13-01T00:00:00Z"), None);
    assert_eq!(timestamp_date("2024-00-10T00:00:00Z"), None);
    assert_eq!(timestamp_date("short"), None);
    assert_eq!(timestamp_date("2024/09/21T00:00:00Z"), None);
}
