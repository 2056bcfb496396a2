//! Chart preparation: everything the renderer needs short of drawing.
//!
//! The drawing itself is an external collaborator (a pure function from an
//! ordered series to an image); this module prepares its inputs: the
//! guard against meaningless charts, per-language colors from an injected
//! language→color table, the language list of a series, and the split of
//! the series into one line per language.

use itertools::Itertools;
use vstd::prelude::*;

use crate::date::Date;
use crate::history::collect_star_history_by_language;
use crate::history::collect_total_star_history;
use crate::history::contains_str;
use crate::history::spec_language_history;
use crate::history::spec_total_history;
use crate::store::Store;
use crate::store::str_eq;

verus! {

/// Chart rendering found nothing worth drawing.
#[derive(Debug, PartialEq, Eq)]
pub enum HistoryError {
    /// Fewer than two points: no line to draw.
    NoMeaningfulData,
}

/// A color entry of the chart configuration could not be used.
#[derive(Debug, PartialEq, Eq)]
pub enum ChartError {
    /// The table's color string for the language is not a hex color.
    InvalidHexColor,
}

/// An RGB color.
#[derive(Clone, Copy, Debug, PartialEq, Eq, Structural)]
pub struct Rgb {
    pub r: u8,
    pub g: u8,
    pub b: u8,
}

/// The fallback for languages without a configured color.
pub open spec fn spec_fallback_color() -> Rgb {
    Rgb { r: 255, g: 0, b: 0 }
}

/// One row of the injected language→color table.
#[derive(Debug)]
pub struct LanguageColor {
    pub language: String,
    pub color: Option<String>,
}

pub open spec fn spec_is_hex_digit(c: char) -> bool {
    ||| 48 <= c as u32 <= 57
    ||| 97 <= c as u32 <= 102
    ||| 65 <= c as u32 <= 70
}

pub open spec fn spec_hex_val(c: char) -> int {
    if 48 <= c as u32 <= 57 {
        c as u32 - 48
    } else if 97 <= c as u32 <= 102 {
        c as u32 - 87
    } else {
        c as u32 - 55
    }
}

/// The byte a two-character slice yields under base-16 integer parsing:
/// two hex digits, or a plus sign before a single digit (the sign a
/// radix parse accepts).
pub open spec fn spec_hex_pair(c0: char, c1: char) -> Option<u8> {
    if c0 == '+' && spec_is_hex_digit(c1) {
        Some(spec_hex_val(c1) as u8)
    } else if spec_is_hex_digit(c0) && spec_is_hex_digit(c1) {
        Some((16 * spec_hex_val(c0) + spec_hex_val(c1)) as u8)
    } else {
        None
    }
}

/// The string with every leading `#` removed.
pub open spec fn spec_strip_hashes(s: Seq<char>) -> Seq<char>
    decreases s.len(),
{
    if s.len() > 0 && s[0] == '#' {
        spec_strip_hashes(s.drop_first())
    } else {
        s
    }
}

/// The color a hex string names: after stripping leading `#`s, exactly
/// six characters forming three byte pairs.
pub open spec fn spec_parse_hex_color(s: Seq<char>) -> Option<Rgb> {
    let h = spec_strip_hashes(s);
    if h.len() == 6 {
        match (spec_hex_pair(h[0], h[1]), spec_hex_pair(h[2], h[3]), spec_hex_pair(h[4], h[5])) {
            (Some(r), Some(g), Some(b)) => Some(Rgb { r, g, b }),
            _ => None,
        }
    } else {
        None
    }
}

fn hex_pair(c0: char, c1: char) -> (r: Option<u8>)
    ensures
        r == spec_hex_pair(c0, c1),
{
    let v0 = c0 as u32;
    let v1 = c1 as u32;
    let d1: Option<u32> = if 48 <= v1 && v1 <= 57 {
        Some(v1 - 48)
    } else if 97 <= v1 && v1 <= 102 {
        Some(v1 - 87)
    } else if 65 <= v1 && v1 <= 70 {
        Some(v1 - 55)
    } else {
        None
    };
    let d0: Option<u32> = if 48 <= v0 && v0 <= 57 {
        Some(v0 - 48)
    } else if 97 <= v0 && v0 <= 102 {
        Some(v0 - 87)
    } else if 65 <= v0 && v0 <= 70 {
        Some(v0 - 55)
    } else {
        None
    };
    if c0 == '+' {
        match d1 {
            Some(x) => Some(x as u8),
            None => None,
        }
    } else {
        match (d0, d1) {
            (Some(a), Some(b)) => Some((16 * a + b) as u8),
            _ => None,
        }
    }
}

/// Parse a `#rrggbb` hex color (leading `#`s optional and repeatable).
pub fn parse_hex_color(hex: &str) -> (r: Option<Rgb>)
    ensures
        r == spec_parse_hex_color(hex@),
{
    let n = hex.unicode_len();
    let mut st: usize = 0;
    proof {
        assert(hex@.subrange(0, hex@.len() as int) =~= hex@);
    }
    while st < n && hex.get_char(st) == '#'
        invariant
            st <= n,
            n == hex@.len(),
            spec_strip_hashes(hex@) == spec_strip_hashes(
                hex@.subrange(st as int, hex@.len() as int),
            ),
        decreases n - st,
    {
        proof {
            let suffix = hex@.subrange(st as int, hex@.len() as int);
            assert(suffix[0] == hex@[st as int]);
            assert(suffix.drop_first() =~= hex@.subrange(st + 1 as int, hex@.len() as int));
        }
        st = st + 1;
    }
    let ghost h = spec_strip_hashes(hex@);
    proof {
        let suffix = hex@.subrange(st as int, hex@.len() as int);
        if st < n {
            assert(suffix[0] == hex@[st as int]);
        }
        assert(spec_strip_hashes(suffix) == suffix);
        assert(h =~= suffix);
    }
    if n - st != 6 {
        return None;
    }
    let p0 = hex_pair(hex.get_char(st), hex.get_char(st + 1));
    let p1 = hex_pair(hex.get_char(st + 2), hex.get_char(st + 3));
    let p2 = hex_pair(hex.get_char(st + 4), hex.get_char(st + 5));
    proof {
        assert(h[0] == hex@[st as int] && h[1] == hex@[st + 1] && h[2] == hex@[st + 2] && h[3]
            == hex@[st + 3] && h[4] == hex@[st + 4] && h[5] == hex@[st + 5]);
    }
    match (p0, p1, p2) {
        (Some(r), Some(g), Some(b)) => Some(Rgb { r, g, b }),
        _ => None,
    }
}

/// The first color-table entry for a language, if any.
pub open spec fn spec_lookup_color(entries: Seq<LanguageColor>, lang: Seq<char>) -> Option<
    Option<String>,
>
    decreases entries.len(),
{
    if entries.len() == 0 {
        None
    } else if entries[0].language@ == lang {
        Some(entries[0].color)
    } else {
        spec_lookup_color(entries.drop_first(), lang)
    }
}

/// The color the chart gives a language: its configured hex color when
/// one is set (which must parse), the fallback otherwise.
pub open spec fn spec_color_for(entries: Seq<LanguageColor>, lang: Seq<char>) -> Option<Rgb> {
    match spec_lookup_color(entries, lang) {
        Some(Some(hex)) => spec_parse_hex_color(hex@),
        _ => Some(spec_fallback_color()),
    }
}

/// The color for one language's line, from the injected color table.
/// Fails exactly when the table names a color that is not a hex color.
pub fn color_for_language(colors: &Vec<LanguageColor>, language: &str) -> (r: Result<
    Rgb,
    ChartError,
>)
    ensures
        spec_color_for(colors@, language@) matches Some(c) ==> r == Ok::<Rgb, ChartError>(c),
        spec_color_for(colors@, language@) is None ==> r == Err::<Rgb, ChartError>(
            ChartError::InvalidHexColor,
        ),
{
    let mut i: usize = 0;
    proof {
        assert(colors@.subrange(0, colors@.len() as int) =~= colors@);
    }
    while i < colors.len()
        invariant
            i <= colors@.len(),
            spec_lookup_color(colors@, language@) == spec_lookup_color(
                colors@.subrange(i as int, colors@.len() as int),
                language@,
            ),
        decreases colors@.len() - i,
    {
        proof {
            let suffix = colors@.subrange(i as int, colors@.len() as int);
            assert(suffix[0] == colors@[i as int]);
            assert(suffix.drop_first() =~= colors@.subrange(i + 1 as int, colors@.len() as int));
        }
        let e = &colors[i];
        if str_eq(e.language.as_str(), language) {
            match &e.color {
                Some(hex) => {
                    match parse_hex_color(hex.as_str()) {
                        Some(c) => {
                            return Ok(c);
                        },
                        None => {
                            return Err(ChartError::InvalidHexColor);
                        },
                    }
                },
                None => {
                    return Ok(Rgb { r: 255, g: 0, b: 0 });
                },
            }
        }
        i = i + 1;
    }
    proof {
        assert(colors@.subrange(colors@.len() as int, colors@.len() as int).len() == 0);
    }
    Ok(Rgb { r: 255, g: 0, b: 0 })
}

/// The strings of a list that appear for the first time, in order.
pub open spec fn spec_first_occurrences(s: Seq<String>) -> Seq<String>
    decreases s.len(),
{
    if s.len() == 0 {
        Seq::empty()
    } else {
        let rest = spec_first_occurrences(s.drop_last());
        if contains_str(s.drop_last(), s.last()@) {
            rest
        } else {
            rest.push(s.last())
        }
    }
}

/// Relies on itertools' `unique`: duplicates (by character equality)
/// dropped, the first occurrence of each string kept, order preserved.
#[verifier::external_body]
fn unique_strings(v: &Vec<String>) -> (r: Vec<String>)
    ensures
        r@ == spec_first_occurrences(v@),
{
    v.iter().unique().cloned().collect()
}

/// The languages of a per-language series, each once, in order of first
/// appearance.
pub fn unique_languages(rows: &Vec<(Date, String, i64)>) -> (r: Vec<String>)
    ensures
        r@ == spec_first_occurrences(rows@.map_values(|t: (Date, String, i64)| t.1)),
{
    let mut langs: Vec<String> = Vec::new();
    let mut i: usize = 0;
    while i < rows.len()
        invariant
            i <= rows@.len(),
            langs@ == rows@.subrange(0, i as int).map_values(|t: (Date, String, i64)| t.1),
        decreases rows@.len() - i,
    {
        langs.push(rows[i].1.clone());
        proof {
            assert(rows@.subrange(0, i + 1 as int).map_values(|t: (Date, String, i64)| t.1)
                =~= rows@.subrange(0, i as int).map_values(|t: (Date, String, i64)| t.1).push(
                rows@[i as int].1,
            ));
        }
        i = i + 1;
    }
    proof {
        assert(rows@.subrange(0, rows@.len() as int) =~= rows@);
    }
    unique_strings(&langs)
}

/// One language's line: the (day, cumulative) points of the series that
/// belong to it, in series order.
pub open spec fn spec_series_for(rows: Seq<(Date, String, i64)>, lang: Seq<char>) -> Seq<
    (Date, i64),
>
    decreases rows.len(),
{
    if rows.len() == 0 {
        Seq::empty()
    } else {
        let rest = spec_series_for(rows.drop_last(), lang);
        if rows.last().1@ == lang {
            rest.push((rows.last().0, rows.last().2))
        } else {
            rest
        }
    }
}

/// The points of one language's line.
pub fn series_for_language(rows: &Vec<(Date, String, i64)>, language: &str) -> (r: Vec<
    (Date, i64),
>)
    ensures
        r@ == spec_series_for(rows@, language@),
{
    let mut r: Vec<(Date, i64)> = Vec::new();
    let mut i: usize = 0;
    while i < rows.len()
        invariant
            i <= rows@.len(),
            r@ == spec_series_for(rows@.subrange(0, i as int), language@),
        decreases rows@.len() - i,
    {
        let row = &rows[i];
        if str_eq(row.1.as_str(), language) {
            r.push((row.0, row.2));
        }
        proof {
            assert(rows@.subrange(0, i + 1 as int).drop_last() =~= rows@.subrange(0, i as int));
            assert(rows@.subrange(0, i + 1 as int).last() == rows@[i as int]);
        }
        i = i + 1;
    }
    proof {
        assert(rows@.subrange(0, rows@.len() as int) =~= rows@);
    }
    r
}

/// Where a language's name label sits on its line: one past the middle
/// point.  The line must have at least three points for that index to
/// exist.
pub fn label_anchor_index(len: usize) -> (i: usize)
    requires
        len >= 3,
    ensures
        i == len / 2 + 1,
        i < len,
{
    len / 2 + 1
}

/// The per-language series for the chart, or [`HistoryError::NoMeaningfulData`]
/// when it has fewer than two points.
pub fn language_history_for_chart(conn: &Store, min_stargazer_count: i64) -> (r: Result<
    Vec<(Date, String, i64)>,
    HistoryError,
>)
    requires
        conn.wf(),
    ensures
        r is Err <==> spec_language_history(*conn, min_stargazer_count as int).len() < 2,
        r matches Err(e) ==> e == HistoryError::NoMeaningfulData,
        r matches Ok(v) ==> v@ == spec_language_history(*conn, min_stargazer_count as int),
{
    let rows = collect_star_history_by_language(conn, min_stargazer_count);
    if rows.len() < 2 {
        Err(HistoryError::NoMeaningfulData)
    } else {
        Ok(rows)
    }
}

/// The total series for the chart, or [`HistoryError::NoMeaningfulData`]
/// when it has fewer than two points.
pub fn total_history_for_chart(conn: &Store) -> (r: Result<Vec<(Date, i64)>, HistoryError>)
    requires
        conn.wf(),
    ensures
        r is Err <==> spec_total_history(conn.stargazers@).len() < 2,
        r matches Err(e) ==> e == HistoryError::NoMeaningfulData,
        r matches Ok(v) ==> v@ == spec_total_history(conn.stargazers@),
{
    let rows = collect_total_star_history(conn);
    if rows.len() < 2 {
        Err(HistoryError::NoMeaningfulData)
    } else {
        Ok(rows)
    }
}

} // verus!
