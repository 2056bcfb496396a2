use yastar::chart::color_for_language;
use yastar::chart::label_anchor_index;
use yastar::chart::language_history_for_chart;
use yastar::chart::parse_hex_color;
use yastar::chart::series_for_language;
use yastar::chart::total_history_for_chart;
use yastar::chart::unique_languages;
use yastar::chart::ChartError;
use yastar::chart::HistoryError;
use yastar::chart::LanguageColor;
use yastar::chart::Rgb;
use yastar::date::Date;
use yastar::store::insert_original_status;
use yastar::store::insert_repository_primary_language;
use yastar::store::insert_star_counts;
use yastar::store::insert_stargazers;
use yastar::store::setup;
use yastar::store::StarCountEntry;
use yastar::store::StargazerEntry;
use yastar::store::Store;

fn d(day: u32) -> Date {
    Date {
        year: 2024,
        month: 9,
        day,
    }
}

#[test]
fn hex_colors_parse_exactly() {
    assert_eq!(
        parse_hex_color("#aabbcc"),
        Some(Rgb {
            r: 0xaa,
            g: 0xbb,
            b: 0xcc
        })
    );
    assert_eq!(
        parse_hex_color("00FF7f"),
        Some(Rgb {
            r: 0,
            g: 255,
            b: 0x7f
        })
    );
    assert_eq!(
        parse_hex_color("##dea584"),
        Some(Rgb {
            r: 0xde,
            g: 0xa5,
            b: 0x84
        })
    );
    assert_eq!(parse_hex_color("#12345"), None);
    assert_eq!(parse_hex_color("#1234567"), None);
    assert_eq!(parse_hex_color("#gg0000"), None);
    assert_eq!(parse_hex_color(""), None);
}

#[test]
fn language_colors_fall_back_to_red() {
    let colors = vec![
        LanguageColor {
            language: "Rust".to_string(),
            color: Some("#dea584".to_string()),
        },
        LanguageColor {
            language: "Haskell".to_string(),
            color: None,
        },
        LanguageColor {
            language: "Broken".to_string(),
            color: Some("oops".to_string()),
        },
    ];
    assert_eq!(
        color_for_language(&colors, "Rust"),
        Ok(Rgb {
            r: 0xde,
            g: 0xa5,
            b: 0x84
        })
    );
    let red = Rgb { r: 255, g: 0, b: 0 };
    assert_eq!(color_for_language(&colors, "Haskell"), Ok(red));
    assert_eq!(color_for_language(&colors, "COBOL"), Ok(red));
    assert_eq!(
        color_for_language(&colors, "Broken"),
        Err(ChartError::InvalidHexColor)
    );
}

#[test]
fn unique_languages_drops_repeats_keeps_order() {
    let rows = vec![
        (d(1), "Rust".to_string(), 1),
        (d(1), "C++".to_string(), 1),
        (d(2), "Rust".to_string(), 2),
        (d(3), "C++".to_string(), 2),
        (d(3), "Zig".to_string(), 1),
    ];
    let langs = unique_languages(&rows);
    assert_eq!(
        langs,
        vec!["Rust".to_string(), "C++".to_string(), "Zig".to_string()]
    );
}

#[test]
fn series_split_by_language() {
    let rows = vec![
        (d(1), "Rust".to_string(), 1),
        (d(1), "C++".to_string(), 4),
        (d(2), "Rust".to_string(), 2),
    ];
    assert_eq!(series_for_language(&rows, "Rust"), vec![(d(1), 1), (d(2), 2)]);
    assert_eq!(series_for_language(&rows, "C++"), vec![(d(1), 4)]);
    assert_eq!(series_for_language(&rows, "Zig"), vec![]);
}

#[test]
fn label_anchor_is_one_past_middle() {
    assert_eq!(label_anchor_index(3), 2);
    assert_eq!(label_anchor_index(4), 3);
    assert_eq!(label_anchor_index(9), 5);
}

#[test]
fn too_few_points_is_no_meaningful_data() {
    let mut conn = Store::new();
    setup(&mut conn);
    insert_stargazers(
        &mut conn,
        "o",
        "r",
        vec![StargazerEntry {
            login: "u".to_string(),
            starred_at: "2024-09-21T11:08:01Z".to_string(),
        }],
    )
    .unwrap();

    // One event gives one total-history point: nothing to draw.
    assert_eq!(
        total_history_for_chart(&conn),
        Err(HistoryError::NoMeaningfulData)
    );
    assert_eq!(
        language_history_for_chart(&conn, 0),
        Err(HistoryError::NoMeaningfulData)
    );

    insert_stargazers(
        &mut conn,
        "o",
        "r",
        vec![StargazerEntry {
            login: "v".to_string(),
            starred_at: "2024-09-22T11:08:01Z".to_string(),
        }],
    )
    .unwrap();
    let rows = total_history_for_chart(&conn).unwrap();
    assert_eq!(rows, vec![(d(21), 1), (d(22), 2)]);
}

#[test]
fn language_history_respects_threshold() {
    let mut conn = Store::new();
    setup(&mut conn);
    insert_star_counts(
        &mut conn,
        &vec![StarCountEntry {
            owner: "o".to_string(),
            name: "r".to_string(),
            stargazer_count: 5,
        }],
    )
    .unwrap();
    insert_repository_primary_language(&mut conn, "o", "r", &Some("Rust".to_string())).unwrap();
    insert_original_status(&mut conn, "o", "r", true).unwrap();
    insert_stargazers(
        &mut conn,
        "o",
        "r",
        vec![
            StargazerEntry {
                login: "u".to_string(),
                starred_at: "2024-09-21T11:08:01Z".to_string(),
            },
            StargazerEntry {
                login: "v".to_string(),
                starred_at: "2024-09-22T11:08:01Z".to_string(),
            },
        ],
    )
    .unwrap();

    let rows = language_history_for_chart(&conn, 5).unwrap();
    assert_eq!(
        rows,
        vec![
            (d(21), "Rust".to_string(), 1),
            (d(22), "Rust".to_string(), 2)
        ]
    );
    // A higher threshold excludes the language, leaving nothing to draw.
    assert_eq!(
        language_history_for_chart(&conn, 6),
        Err(HistoryError::NoMeaningfulData)
    );
}
