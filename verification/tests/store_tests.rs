use yastar::date::Date;
use yastar::history::collect_star_history_by_language;
use yastar::history::collect_total_star_history;
use yastar::store::get_newly_starred_original_repositories;
use yastar::store::insert_original_status;
use yastar::store::insert_repository_primary_language;
use yastar::store::insert_star_counts;
use yastar::store::insert_stargazers;
use yastar::store::original_status_keys;
use yastar::store::replace_all_snapshots;
use yastar::store::setup;
use yastar::store::update_star_count;
use yastar::store::StarCountEntry;
use yastar::store::StargazerEntry;
use yastar::store::Store;
use yastar::store::StoreError;

fn setup_test_db() -> Store {
    let mut conn = Store::new();
    setup(&mut conn);
    conn
}

#[test]
fn test_insert_star_counts() {
    let mut conn = setup_test_db();
    let test_repos = vec![StarCountEntry {
        owner: "test_owner".to_string(),
        name: "test_repo".to_string(),
        stargazer_count: 42,
    }];

    assert!(insert_star_counts(&mut conn, &test_repos).is_ok());
    assert!(update_star_count(&mut conn, "test_owner", "test_repo", 43).is_ok());
}

#[test]
fn test_insert_stargazers() {
    let mut conn = setup_test_db();

    assert!(insert_stargazers(
        &mut conn,
        "test_owner",
        "test_repo",
        vec![StargazerEntry {
            login: format!("test_another_user"),
            starred_at: format!("2024-09-21T11:08:01Z")
        }]
    )
    .is_ok());
}

#[test]
fn test_insert_repository_primary_language() {
    let mut conn = setup_test_db();
    assert!(insert_repository_primary_language(
        &mut conn,
        "test_owner",
        "test_repo",
        &Some(format!("Rust"))
    )
    .is_ok());
}

#[test]
fn test_original_status_operations() {
    let mut conn = setup_test_db();

    assert!(insert_original_status(&mut conn, "test_owner", "test_repo", true).is_ok());

    let keys = original_status_keys(&conn);
    assert!(keys.contains(&("test_owner".to_string(), "test_repo".to_string())));
}

#[test]
fn test_star_history_by_language() {
    let mut conn = setup_test_db();

    let date1 = "2024-09-21T11:08:01Z";
    let date2 = "2024-09-22T11:08:01Z";
    let date3 = "2024-09-23T11:08:01Z";
    let date4 = "2024-09-24T11:08:01Z";

    let data = vec![
        (
            "test_repo1",
            "Rust",
            6,
            vec![date1, date1, date1, date2, date2, date2],
        ),
        (
            "test_repo2",
            "Rust",
            5,
            vec![date2, date2, date2, date3, date3],
        ),
        ("test_repo3", "C++", 4, vec![date1, date2, date3, date4]),
    ];

    insert_star_counts(
        &mut conn,
        &data
            .iter()
            .map(|(name, _, stargazer_count, _)| StarCountEntry {
                owner: "test_owner".to_string(),
                name: name.to_string(),
                stargazer_count: *stargazer_count,
            })
            .collect(),
    )
    .unwrap();

    for (name, language, _, _) in data.iter() {
        insert_original_status(&mut conn, "test_owner", name, true).unwrap();
        insert_repository_primary_language(
            &mut conn,
            "test_owner",
            name,
            &Some(language.to_string()),
        )
        .unwrap();
    }

    for (name, _, _, dates) in data.iter() {
        insert_stargazers(
            &mut conn,
            "test_owner",
            name,
            dates
                .iter()
                .map(|date| StargazerEntry {
                    login: format!("test_another_user"),
                    starred_at: date.to_string(),
                })
                .collect(),
        )
        .unwrap();
    }

    let result = collect_star_history_by_language(&conn, 10);

    assert_eq!(result.len(), 3);
}

#[test]
fn test_get_newly_starred_original_repositories() {
    let conn = setup_test_db();
    let result = get_newly_starred_original_repositories(&conn);
    assert!(result.is_empty());
}

#[test]
fn star_history_by_language_exact_points() {
    let mut conn = setup_test_db();

    let date1 = "2024-09-21T11:08:01Z";
    let date2 = "2024-09-22T11:08:01Z";
    let date3 = "2024-09-23T11:08:01Z";
    let date4 = "2024-09-24T11:08:01Z";

    let data = vec![
        ("r1", "Rust", 6, vec![date1, date1, date1, date2, date2, date2]),
        ("r2", "Rust", 5, vec![date2, date2, date2, date3, date3]),
        ("r3", "C++", 4, vec![date1, date2, date3, date4]),
    ];

    insert_star_counts(
        &mut conn,
        &data
            .iter()
            .map(|(name, _, count, _)| StarCountEntry {
                owner: "o".to_string(),
                name: name.to_string(),
                stargazer_count: *count,
            })
            .collect(),
    )
    .unwrap();
    for (name, language, _, _) in data.iter() {
        insert_original_status(&mut conn, "o", name, true).unwrap();
        insert_repository_primary_language(&mut conn, "o", name, &Some(language.to_string()))
            .unwrap();
    }
    for (name, _, _, dates) in data.iter() {
        insert_stargazers(
            &mut conn,
            "o",
            name,
            dates
                .iter()
                .map(|date| StargazerEntry {
                    login: "u".to_string(),
                    starred_at: date.to_string(),
                })
                .collect(),
        )
        .unwrap();
    }

    let rows = collect_star_history_by_language(&conn, 10);
    let d = |day: u32| Date { year: 2024, month: 9, day };
    assert_eq!(rows.len(), 3);
    assert_eq!(rows[0], (d(21), "Rust".to_string(), 3));
    assert_eq!(rows[1], (d(22), "Rust".to_string(), 9));
    assert_eq!(rows[2], (d(23), "Rust".to_string(), 11));
}

#[test]
fn replace_all_snapshots_is_idempotent() {
    let mut conn = setup_test_db();
    let rows = vec![
        StarCountEntry {
            owner: "o".to_string(),
            name: "a".to_string(),
            stargazer_count: 3,
        },
        StarCountEntry {
            owner: "o".to_string(),
            name: "b".to_string(),
            stargazer_count: 7,
        },
    ];
    replace_all_snapshots(&mut conn, &rows).unwrap();
    let once: Vec<(String, String, i64)> = conn
        .snapshots
        .iter()
        .map(|e| (e.owner.clone(), e.name.clone(), e.stargazer_count))
        .collect();
    replace_all_snapshots(&mut conn, &rows).unwrap();
    let twice: Vec<(String, String, i64)> = conn
        .snapshots
        .iter()
        .map(|e| (e.owner.clone(), e.name.clone(), e.stargazer_count))
        .collect();
    assert_eq!(once, twice);
    assert_eq!(once.len(), 2);
}

#[test]
fn growth_diff_requires_strict_growth_and_originality() {
    let mut conn = setup_test_db();
    insert_star_counts(
        &mut conn,
        &vec![
            StarCountEntry {
                owner: "o".to_string(),
                name: "orig".to_string(),
                stargazer_count: 50,
            },
            StarCountEntry {
                owner: "o".to_string(),
                name: "fork".to_string(),
                stargazer_count: 50,
            },
        ],
    )
    .unwrap();
    insert_original_status(&mut conn, "o", "orig", true).unwrap();
    insert_original_status(&mut conn, "o", "fork", false).unwrap();
    for repo in ["orig", "fork"] {
        let events: Vec<StargazerEntry> = (0..30)
            .map(|i| StargazerEntry {
                login: format!("user{}", i),
                starred_at: format!("2024-09-{:02}T00:00:0{}Z", (i % 28) + 1, i % 10),
            })
            .collect();
        insert_stargazers(&mut conn, "o", repo, events).unwrap();
    }

    let diffs = get_newly_starred_original_repositories(&conn);
    assert_eq!(diffs.len(), 1);
    assert_eq!(diffs[0].owner, "o");
    assert_eq!(diffs[0].name, "orig");
    assert_eq!(diffs[0].new_count, 50);
    assert_eq!(diffs[0].old_count, 30);
}

#[test]
fn growth_diff_ignores_repo_with_full_event_log() {
    let mut conn = setup_test_db();
    insert_star_counts(
        &mut conn,
        &vec![StarCountEntry {
            owner: "o".to_string(),
            name: "r".to_string(),
            stargazer_count: 10,
        }],
    )
    .unwrap();
    insert_repository_primary_language(&mut conn, "o", "r", &Some("Rust".to_string())).unwrap();
    insert_original_status(&mut conn, "o", "r", true).unwrap();
    let events: Vec<StargazerEntry> = (0..10)
        .map(|i| StargazerEntry {
            login: format!("user{}", i),
            starred_at: format!("2024-09-1{}T11:08:01Z", i % 10),
        })
        .collect();
    insert_stargazers(&mut conn, "o", "r", events).unwrap();

    assert!(get_newly_starred_original_repositories(&conn).is_empty());
}

#[test]
fn insert_stargazers_rejects_bad_timestamp_wholesale() {
    let mut conn = setup_test_db();
    let items = vec![
        StargazerEntry {
            login: "a".to_string(),
            starred_at: "2024-09-21T11:08:01Z".to_string(),
        },
        StargazerEntry {
            login: "b".to_string(),
            starred_at: "not a timestamp".to_string(),
        },
    ];
    let r = insert_stargazers(&mut conn, "o", "r", items);
    assert_eq!(r, Err(StoreError::InvalidTimestamp));
    assert_eq!(collect_total_star_history(&conn).len(), 0);
}

#[test]
fn total_history_is_sorted_and_cumulative() {
    let mut conn = setup_test_db();
    let items = vec![
        StargazerEntry {
            login: "a".to_string(),
            starred_at: "2024-09-22T05:00:00Z".to_string(),
        },
        StargazerEntry {
            login: "b".to_string(),
            starred_at: "2024-09-21T09:00:00Z".to_string(),
        },
        StargazerEntry {
            login: "c".to_string(),
            starred_at: "2024-09-22T01:00:00Z".to_string(),
        },
    ];
    insert_stargazers(&mut conn, "o", "r", items).unwrap();
    let rows = collect_total_star_history(&conn);
    let d = |day: u32| Date { year: 2024, month: 9, day };
    assert_eq!(rows, vec![(d(21), 1), (d(22), 2), (d(22), 3)]);
    for w in rows.windows(2) {
        assert!(w[0].1 <= w[1].1);
    }
}
