//! Time series over the stargazer event log.
//!
//! The total history has one point per logged event, ordered by calendar
//! day, whose cumulative column simply counts the events so far.  The
//! per-language history has one point per (day, language) pair with
//! activity, restricted to languages whose all-time total over original
//! repositories meets a threshold.

use vstd::prelude::*;

use crate::date::Date;
use crate::date::spec_timestamp_date;
use crate::date::spec_timestamp_ok;
use crate::date::timestamp_date;
use crate::store::LanguageEntry;
use crate::store::OriginalStatusEntry;
use crate::store::StarCountEntry;
use crate::store::StargazerEvent;
use crate::store::Store;
use crate::store::flagged_original;
use crate::store::str_eq;

verus! {

/// The calendar day of one logged event.
pub open spec fn spec_event_day(e: StargazerEvent) -> Date {
    spec_timestamp_date(e.starred_at@)->0
}

/// The days of all logged events, one per event, in log order.
pub open spec fn spec_days_of(events: Seq<StargazerEvent>) -> Seq<Date> {
    events.map_values(|e: StargazerEvent| spec_event_day(e))
}

/// A date sequence in non-decreasing calendar order.
pub open spec fn spec_dates_sorted(s: Seq<Date>) -> bool {
    forall|i: int, j: int| 0 <= i < j < s.len() ==> !(#[trigger] s[j]).lt(#[trigger] s[i])
}

/// `d` placed into an already-sorted sequence: before the first strictly
/// later entry, after any equal ones.
pub open spec fn spec_insert_sorted(s: Seq<Date>, d: Date) -> Seq<Date>
    decreases s.len(),
{
    if s.len() == 0 {
        seq![d]
    } else if d.lt(s[0]) {
        seq![d] + s
    } else {
        seq![s[0]] + spec_insert_sorted(s.drop_first(), d)
    }
}

/// The dates sorted into non-decreasing order, duplicates kept.
pub open spec fn spec_sorted_of(days: Seq<Date>) -> Seq<Date>
    decreases days.len(),
{
    if days.len() == 0 {
        Seq::empty()
    } else {
        spec_insert_sorted(spec_sorted_of(days.drop_last()), days.last())
    }
}

proof fn lemma_insert_sorted_props(s: Seq<Date>, d: Date)
    requires
        spec_dates_sorted(s),
    ensures
        spec_dates_sorted(spec_insert_sorted(s, d)),
        spec_insert_sorted(s, d).len() == s.len() + 1,
        spec_insert_sorted(s, d).to_multiset() == s.to_multiset().insert(d),
    decreases s.len(),
{
    broadcast use vstd::seq_lib::group_to_multiset_ensures;

    if s.len() == 0 {
        assert(seq![d] =~= Seq::empty().push(d));
        assert(seq![d].to_multiset() == Seq::<Date>::empty().to_multiset().insert(d));
    } else if d.lt(s[0]) {
        let r = seq![d] + s;
        assert forall|i: int, j: int| 0 <= i < j < r.len() implies !(#[trigger] r[j]).lt(
            #[trigger] r[i],
        ) by {
            if i > 0 {
                assert(r[i] == s[i - 1] && r[j] == s[j - 1]);
            } else {
                if j > 0 {
                    assert(r[j] == s[j - 1]);
                    assert(!s[j - 1].lt(s[0]) || j == 1);
                }
            }
        }
        assert(r =~= s.insert(0, d));
        vstd::seq_lib::lemma_multiset_commutative(seq![d], s);
        assert(seq![d].to_multiset() == Seq::<Date>::empty().to_multiset().insert(d)) by {
            assert(seq![d] =~= Seq::empty().push(d));
        }
        assert(r.to_multiset() == s.to_multiset().insert(d)) by {
            assert(r.to_multiset() == seq![d].to_multiset().add(s.to_multiset()));
            assert(seq![d].to_multiset() == vstd::multiset::Multiset::empty().insert(d));
            assert(vstd::multiset::Multiset::empty().insert(d).add(s.to_multiset())
                =~= s.to_multiset().insert(d));
        }
    } else {
        let rest = s.drop_first();
        assert(spec_dates_sorted(rest)) by {
            assert forall|i: int, j: int| 0 <= i < j < rest.len() implies !(#[trigger] rest[j]).lt(
                #[trigger] rest[i],
            ) by {
                assert(rest[i] == s[i + 1] && rest[j] == s[j + 1]);
            }
        }
        lemma_insert_sorted_props(rest, d);
        let ri = spec_insert_sorted(rest, d);
        let r = seq![s[0]] + ri;
        assert(!d.lt(s[0]));
        assert forall|i: int, j: int| 0 <= i < j < r.len() implies !(#[trigger] r[j]).lt(
            #[trigger] r[i],
        ) by {
            if i == 0 {
                assert(r[j] == ri[j - 1]);
                assert(ri.to_multiset().contains(ri[j - 1])) by {
                    assert(ri.contains(ri[j - 1]));
                }
                if ri[j - 1] == d {
                    assert(!r[j].lt(r[0]));
                } else {
                    assert(rest.to_multiset().contains(ri[j - 1])) by {
                        assert(rest.to_multiset().insert(d).contains(ri[j - 1]));
                    }
                    assert(rest.contains(ri[j - 1]));
                    let k = choose|k: int| 0 <= k < rest.len() && rest[k] == ri[j - 1];
                    assert(s[k + 1] == ri[j - 1]);
                    assert(!s[k + 1].lt(s[0]));
                }
            } else {
                assert(r[i] == ri[i - 1] && r[j] == ri[j - 1]);
            }
        }
        assert(r.to_multiset() == s.to_multiset().insert(d)) by {
            vstd::seq_lib::lemma_multiset_commutative(seq![s[0]], ri);
            assert(seq![s[0]].to_multiset() == vstd::multiset::Multiset::empty().insert(s[0])) by {
                assert(seq![s[0]] =~= Seq::empty().push(s[0]));
            }
            assert(s =~= seq![s[0]] + rest);
            vstd::seq_lib::lemma_multiset_commutative(seq![s[0]], rest);
            assert(vstd::multiset::Multiset::empty().insert(s[0]).add(
                rest.to_multiset().insert(d),
            ) =~= vstd::multiset::Multiset::empty().insert(s[0]).add(rest.to_multiset()).insert(d));
        }
    }
}

/// The sort is a sorted permutation of its input.
pub proof fn lemma_sorted_of_props(days: Seq<Date>)
    ensures
        spec_dates_sorted(spec_sorted_of(days)),
        spec_sorted_of(days).len() == days.len(),
        spec_sorted_of(days).to_multiset() == days.to_multiset(),
    decreases days.len(),
{
    broadcast use vstd::seq_lib::group_to_multiset_ensures;

    if days.len() > 0 {
        lemma_sorted_of_props(days.drop_last());
        lemma_insert_sorted_props(spec_sorted_of(days.drop_last()), days.last());
        assert(days =~= days.drop_last().push(days.last()));
    }
}

proof fn lemma_insert_sorted_at(s: Seq<Date>, d: Date, p: int)
    requires
        0 <= p <= s.len(),
        forall|i: int| 0 <= i < p ==> !d.lt(#[trigger] s[i]),
        p < s.len() ==> d.lt(s[p as int]),
    ensures
        spec_insert_sorted(s, d) == s.insert(p, d),
    decreases s.len(),
{
    if s.len() == 0 {
        assert(spec_insert_sorted(s, d) =~= s.insert(0, d));
    } else if d.lt(s[0]) {
        assert(p == 0);
        assert(seq![d] + s =~= s.insert(0, d));
    } else {
        assert(p > 0);
        let rest = s.drop_first();
        assert(forall|i: int| 0 <= i < p - 1 ==> !d.lt(#[trigger] rest[i])) by {
            assert(forall|i: int| 0 <= i < p - 1 ==> rest[i] == s[i + 1]);
        }
        if p - 1 < rest.len() {
            assert(rest[p - 1] == s[p as int]);
        }
        lemma_insert_sorted_at(rest, d, p - 1);
        assert(seq![s[0]] + rest.insert(p - 1, d) =~= s.insert(p, d));
    }
}

/// The calendar day of one logged event.
pub fn event_day(e: &StargazerEvent) -> (d: Date)
    requires
        spec_timestamp_ok(e.starred_at@),
    ensures
        d == spec_event_day(*e),
{
    timestamp_date(e.starred_at.as_str()).unwrap()
}

/// The days of every logged event, sorted into calendar order.
fn sorted_event_days(conn: &Store) -> (r: Vec<Date>)
    requires
        conn.wf(),
    ensures
        r@ == spec_sorted_of(spec_days_of(conn.stargazers@)),
        spec_dates_sorted(r@),
        r@.len() == conn.stargazers@.len(),
{
    let mut days: Vec<Date> = Vec::new();
    let mut i: usize = 0;
    while i < conn.stargazers.len()
        invariant
            i <= conn.stargazers@.len(),
            conn.wf(),
            days@ == spec_days_of(conn.stargazers@.subrange(0, i as int)),
        decreases conn.stargazers@.len() - i,
    {
        let d = event_day(&conn.stargazers[i]);
        days.push(d);
        proof {
            assert(spec_days_of(conn.stargazers@.subrange(0, i + 1 as int)) =~= spec_days_of(
                conn.stargazers@.subrange(0, i as int),
            ).push(spec_event_day(conn.stargazers@[i as int])));
        }
        i = i + 1;
    }
    proof {
        assert(conn.stargazers@.subrange(0, conn.stargazers@.len() as int) =~= conn.stargazers@);
    }
    let mut sorted: Vec<Date> = Vec::new();
    let mut k: usize = 0;
    while k < days.len()
        invariant
            k <= days@.len(),
            sorted@ == spec_sorted_of(days@.subrange(0, k as int)),
            sorted@.len() == k,
            spec_dates_sorted(sorted@),
        decreases days@.len() - k,
    {
        let d = days[k];
        let mut p: usize = 0;
        while p < sorted.len() && !d.before(&sorted[p])
            invariant
                p <= sorted@.len(),
                forall|j: int| 0 <= j < p ==> !d.lt(#[trigger] sorted@[j]),
            decreases sorted@.len() - p,
        {
            p = p + 1;
        }
        proof {
            lemma_insert_sorted_at(sorted@, d, p as int);
            lemma_insert_sorted_props(sorted@, d);
            assert(days@.subrange(0, k + 1 as int).drop_last() =~= days@.subrange(0, k as int));
            assert(days@.subrange(0, k + 1 as int).last() == days@[k as int]);
        }
        sorted.insert(p, d);
        k = k + 1;
    }
    proof {
        assert(days@.subrange(0, days@.len() as int) =~= days@);
    }
    sorted
}

/// The total star history: one point per logged event, in calendar order,
/// the cumulative column counting the events so far.
pub open spec fn spec_total_history(events: Seq<StargazerEvent>) -> Seq<(Date, i64)> {
    Seq::new(
        events.len(),
        |i: int| (spec_sorted_of(spec_days_of(events))[i], (i + 1) as i64),
    )
}

/// The running cumulative count of all stargazer events by calendar day:
/// one point per event, days ascending, the cumulative column counting
/// every event on or before that point.
pub fn collect_total_star_history(conn: &Store) -> (r: Vec<(Date, i64)>)
    requires
        conn.wf(),
    ensures
        r@ == spec_total_history(conn.stargazers@),
{
    let sorted = sorted_event_days(conn);
    let mut r: Vec<(Date, i64)> = Vec::new();
    let mut i: usize = 0;
    while i < sorted.len()
        invariant
            i <= sorted@.len(),
            sorted@.len() <= i64::MAX,
            r@.len() == i,
            forall|j: int| 0 <= j < i ==> #[trigger] r@[j] == (sorted@[j], (j + 1) as i64),
        decreases sorted@.len() - i,
    {
        let d = sorted[i];
        let c = i as i64 + 1;
        r.push((d, c));
        i = i + 1;
    }
    proof {
        assert(r@ =~= spec_total_history(conn.stargazers@));
    }
    r
}

/// Whether the language table gives repository `(o, n)` the primary
/// language `lang`.
pub open spec fn spec_lang_matches(
    langs: Seq<LanguageEntry>,
    o: Seq<char>,
    n: Seq<char>,
    lang: Seq<char>,
) -> bool {
    exists|i: int|
        0 <= i < langs.len() && #[trigger] langs[i].keyed(o, n) && (langs[i].primary_language
            matches Some(l) && l@ == lang)
}

/// The all-time stargazer total of a language over originality-flagged
/// repositories: the sum of the snapshot totals of every flagged
/// repository whose primary language is `lang`.
pub open spec fn spec_language_total(
    snaps: Seq<StarCountEntry>,
    langs: Seq<LanguageEntry>,
    flags: Seq<OriginalStatusEntry>,
    lang: Seq<char>,
) -> int
    decreases snaps.len(),
{
    if snaps.len() == 0 {
        0
    } else {
        spec_language_total(snaps.drop_last(), langs, flags, lang) + if spec_lang_matches(
            langs,
            snaps.last().owner@,
            snaps.last().name@,
            lang,
        ) && flagged_original(flags, snaps.last().owner@, snaps.last().name@) {
            snaps.last().stargazer_count as int
        } else {
            0int
        }
    }
}

/// Whether any originality-flagged repository with a snapshot carries the
/// language at all.
pub open spec fn spec_lang_represented(
    snaps: Seq<StarCountEntry>,
    langs: Seq<LanguageEntry>,
    flags: Seq<OriginalStatusEntry>,
    lang: Seq<char>,
) -> bool
    decreases snaps.len(),
{
    if snaps.len() == 0 {
        false
    } else {
        spec_lang_represented(snaps.drop_last(), langs, flags, lang) || (spec_lang_matches(
            langs,
            snaps.last().owner@,
            snaps.last().name@,
            lang,
        ) && flagged_original(flags, snaps.last().owner@, snaps.last().name@))
    }
}

pub open spec fn contains_str(acc: Seq<String>, s: Seq<char>) -> bool {
    exists|i: int| 0 <= i < acc.len() && #[trigger] acc[i]@ == s
}

/// The languages meeting the threshold, in order of first appearance in
/// the language table: represented among flagged repositories and with an
/// all-time total of at least `min`.
pub open spec fn spec_qual_acc(
    acc: Seq<String>,
    rows: Seq<LanguageEntry>,
    snaps: Seq<StarCountEntry>,
    langs: Seq<LanguageEntry>,
    flags: Seq<OriginalStatusEntry>,
    min: int,
) -> Seq<String>
    decreases rows.len(),
{
    if rows.len() == 0 {
        acc
    } else {
        match rows[0].primary_language {
            Some(l) => {
                if !contains_str(acc, l@) && spec_lang_represented(snaps, langs, flags, l@)
                    && spec_language_total(snaps, langs, flags, l@) >= min {
                    spec_qual_acc(acc.push(l), rows.drop_first(), snaps, langs, flags, min)
                } else {
                    spec_qual_acc(acc, rows.drop_first(), snaps, langs, flags, min)
                }
            },
            None => spec_qual_acc(acc, rows.drop_first(), snaps, langs, flags, min),
        }
    }
}

/// The chart's language list for a threshold.
pub open spec fn spec_qualifying_languages(s: Store, min: int) -> Seq<String> {
    spec_qual_acc(Seq::empty(), s.languages@, s.snapshots@, s.languages@, s.original_flags@, min)
}

/// How many of the language's events fall on or before day `d`.
pub open spec fn spec_lang_cum(
    events: Seq<StargazerEvent>,
    langs: Seq<LanguageEntry>,
    lang: Seq<char>,
    d: Date,
) -> int
    decreases events.len(),
{
    if events.len() == 0 {
        0
    } else {
        spec_lang_cum(events.drop_last(), langs, lang, d) + if spec_lang_matches(
            langs,
            events.last().owner@,
            events.last().name@,
            lang,
        ) && spec_event_day(events.last()).le(d) {
            1int
        } else {
            0int
        }
    }
}

/// Whether the language has any event on exactly day `d`.
pub open spec fn spec_lang_active_on(
    events: Seq<StargazerEvent>,
    langs: Seq<LanguageEntry>,
    lang: Seq<char>,
    d: Date,
) -> bool {
    exists|i: int|
        0 <= i < events.len() && spec_lang_matches(
            langs,
            (#[trigger] events[i]).owner@,
            events[i].name@,
            lang,
        ) && spec_event_day(events[i]) == d
}

/// Adjacent duplicates removed from a sorted date sequence.
pub open spec fn spec_dedup_acc(acc: Seq<Date>, s: Seq<Date>) -> Seq<Date>
    decreases s.len(),
{
    if s.len() == 0 {
        acc
    } else {
        if acc.len() > 0 && acc.last() == s[0] {
            spec_dedup_acc(acc, s.drop_first())
        } else {
            spec_dedup_acc(acc.push(s[0]), s.drop_first())
        }
    }
}

/// The distinct days of the event log, ascending.
pub open spec fn spec_distinct_days(events: Seq<StargazerEvent>) -> Seq<Date> {
    spec_dedup_acc(Seq::empty(), spec_sorted_of(spec_days_of(events)))
}

/// One day's chart points: a point for each listed language with activity
/// that day, in language-list order, carrying the language's cumulative
/// count through that day.
pub open spec fn spec_day_rows(
    d: Date,
    qlangs: Seq<String>,
    events: Seq<StargazerEvent>,
    langs: Seq<LanguageEntry>,
) -> Seq<(Date, String, i64)>
    decreases qlangs.len(),
{
    if qlangs.len() == 0 {
        Seq::empty()
    } else {
        let rest = spec_day_rows(d, qlangs.drop_last(), events, langs);
        let lang = qlangs.last();
        if spec_lang_active_on(events, langs, lang@, d) {
            rest.push((d, lang, spec_lang_cum(events, langs, lang@, d) as i64))
        } else {
            rest
        }
    }
}

/// The chart points of all days, day-major and days ascending.
pub open spec fn spec_lang_rows(
    days: Seq<Date>,
    qlangs: Seq<String>,
    events: Seq<StargazerEvent>,
    langs: Seq<LanguageEntry>,
) -> Seq<(Date, String, i64)>
    decreases days.len(),
{
    if days.len() == 0 {
        Seq::empty()
    } else {
        spec_lang_rows(days.drop_last(), qlangs, events, langs) + spec_day_rows(
            days.last(),
            qlangs,
            events,
            langs,
        )
    }
}

/// The per-language star history for a threshold.
pub open spec fn spec_language_history(s: Store, min: int) -> Seq<(Date, String, i64)> {
    spec_lang_rows(
        spec_distinct_days(s.stargazers@),
        spec_qualifying_languages(s, min),
        s.stargazers@,
        s.languages@,
    )
}

/// Whether the language table gives `(owner, name)` the primary language
/// `lang`.
fn lang_match(conn: &Store, owner: &str, name: &str, lang: &str) -> (r: bool)
    ensures
        r == spec_lang_matches(conn.languages@, owner@, name@, lang@),
{
    let mut i: usize = 0;
    while i < conn.languages.len()
        invariant
            i <= conn.languages@.len(),
            forall|j: int|
                0 <= j < i ==> !(#[trigger] conn.languages@[j].keyed(owner@, name@)
                    && (conn.languages@[j].primary_language matches Some(l) && l@ == lang@)),
        decreases conn.languages@.len() - i,
    {
        let e = &conn.languages[i];
        match &e.primary_language {
            Some(l) => {
                if str_eq(l.as_str(), lang) && str_eq(e.owner.as_str(), owner) && str_eq(
                    e.name.as_str(),
                    name,
                ) {
                    proof {
                        assert(conn.languages@[i as int].keyed(owner@, name@));
                    }
                    return true;
                }
            },
            None => {},
        }
        i = i + 1;
    }
    false
}

/// Whether the language qualifies for the chart: carried by some flagged
/// repository and totalling at least `min` stars over them.
fn language_qualifies(conn: &Store, lang: &str, min: i64) -> (r: bool)
    requires
        conn.wf(),
    ensures
        r == (spec_lang_represented(
            conn.snapshots@,
            conn.languages@,
            conn.original_flags@,
            lang@,
        ) && spec_language_total(conn.snapshots@, conn.languages@, conn.original_flags@, lang@)
            >= min),
{
    let mut found = false;
    let mut total: i64 = 0;
    let mut i: usize = 0;
    while i < conn.snapshots.len()
        invariant
            i <= conn.snapshots@.len(),
            conn.wf(),
            0 <= total <= i * 0x7fffffff,
            found == spec_lang_represented(
                conn.snapshots@.subrange(0, i as int),
                conn.languages@,
                conn.original_flags@,
                lang@,
            ),
            total == spec_language_total(
                conn.snapshots@.subrange(0, i as int),
                conn.languages@,
                conn.original_flags@,
                lang@,
            ),
        decreases conn.snapshots@.len() - i,
    {
        let e = &conn.snapshots[i];
        let m = lang_match(conn, e.owner.as_str(), e.name.as_str(), lang);
        let f = crate::store::is_flagged_original(conn, e.owner.as_str(), e.name.as_str());
        proof {
            assert(i * 0x7fffffff + 0x7fffffff == (i + 1) * 0x7fffffff) by (nonlinear_arith);
            assert(conn.snapshots@.len() * 0x7fffffff <= 0x7fffffff * 0x7fffffff)
                by (nonlinear_arith)
                requires
                    conn.snapshots@.len() <= 0x7fffffff,
            ;
        }
        if m && f {
            total = total + e.stargazer_count;
            found = true;
        }
        proof {
            assert(conn.snapshots@.subrange(0, i + 1 as int).drop_last() =~= conn.snapshots@
                .subrange(0, i as int));
            assert(conn.snapshots@.subrange(0, i + 1 as int).last() == conn.snapshots@[i as int]);
        }
        i = i + 1;
    }
    proof {
        assert(conn.snapshots@.subrange(0, conn.snapshots@.len() as int) =~= conn.snapshots@);
    }
    found && total >= min
}

fn vec_contains_str(v: &Vec<String>, s: &str) -> (r: bool)
    ensures
        r == contains_str(v@, s@),
{
    let mut i: usize = 0;
    while i < v.len()
        invariant
            i <= v@.len(),
            forall|j: int| 0 <= j < i ==> #[trigger] v@[j]@ != s@,
        decreases v@.len() - i,
    {
        if str_eq(v[i].as_str(), s) {
            return true;
        }
        i = i + 1;
    }
    false
}

/// The chart's language list: qualifying languages in first-appearance
/// order.
fn qualifying_languages(conn: &Store, min: i64) -> (r: Vec<String>)
    requires
        conn.wf(),
    ensures
        r@ == spec_qualifying_languages(*conn, min as int),
{
    let mut r: Vec<String> = Vec::new();
    let mut i: usize = 0;
    let ghost snaps = conn.snapshots@;
    let ghost langs = conn.languages@;
    let ghost flags = conn.original_flags@;
    proof {
        assert(langs.subrange(0, langs.len() as int) =~= langs);
    }
    while i < conn.languages.len()
        invariant
            i <= conn.languages@.len(),
            conn.wf(),
            snaps == conn.snapshots@,
            langs == conn.languages@,
            flags == conn.original_flags@,
            spec_qual_acc(Seq::empty(), langs, snaps, langs, flags, min as int) == spec_qual_acc(
                r@,
                langs.subrange(i as int, langs.len() as int),
                snaps,
                langs,
                flags,
                min as int,
            ),
        decreases conn.languages@.len() - i,
    {
        let ghost pre = r@;
        let ghost suffix = langs.subrange(i as int, langs.len() as int);
        proof {
            assert(suffix.drop_first() =~= langs.subrange(i + 1 as int, langs.len() as int));
            assert(suffix[0] == langs[i as int]);
        }
        let e = &conn.languages[i];
        match &e.primary_language {
            Some(l) => {
                if !vec_contains_str(&r, l.as_str()) && language_qualifies(conn, l.as_str(), min) {
                    r.push(l.clone());
                }
            },
            None => {},
        }
        i = i + 1;
    }
    r
}

/// The distinct event days, ascending.
fn distinct_event_days(conn: &Store) -> (r: Vec<Date>)
    requires
        conn.wf(),
    ensures
        r@ == spec_distinct_days(conn.stargazers@),
{
    let sorted = sorted_event_days(conn);
    let mut r: Vec<Date> = Vec::new();
    let mut i: usize = 0;
    proof {
        assert(sorted@.subrange(0, sorted@.len() as int) =~= sorted@);
    }
    while i < sorted.len()
        invariant
            i <= sorted@.len(),
            spec_dedup_acc(Seq::empty(), sorted@) == spec_dedup_acc(
                r@,
                sorted@.subrange(i as int, sorted@.len() as int),
            ),
        decreases sorted@.len() - i,
    {
        let ghost suffix = sorted@.subrange(i as int, sorted@.len() as int);
        proof {
            assert(suffix.drop_first() =~= sorted@.subrange(i + 1 as int, sorted@.len() as int));
            assert(suffix[0] == sorted@[i as int]);
        }
        let d = sorted[i];
        let skip = if r.len() > 0 {
            let last = &r[r.len() - 1];
            last.year == d.year && last.month == d.month && last.day == d.day
        } else {
            false
        };
        proof {
            assert(r@.len() > 0 ==> r@[r@.len() - 1] == r@.last());
        }
        if !skip {
            r.push(d);
        }
        i = i + 1;
    }
    r
}

/// How many of the language's events fall on or before day `d`.
fn lang_cum_through(conn: &Store, lang: &str, d: Date) -> (c: i64)
    requires
        conn.wf(),
    ensures
        c == spec_lang_cum(conn.stargazers@, conn.languages@, lang@, d),
{
    let mut c: i64 = 0;
    let mut i: usize = 0;
    while i < conn.stargazers.len()
        invariant
            i <= conn.stargazers@.len(),
            conn.wf(),
            0 <= c <= i,
            c == spec_lang_cum(
                conn.stargazers@.subrange(0, i as int),
                conn.languages@,
                lang@,
                d,
            ),
        decreases conn.stargazers@.len() - i,
    {
        let e = &conn.stargazers[i];
        let m = lang_match(conn, e.owner.as_str(), e.name.as_str(), lang);
        if m {
            let ed = event_day(e);
            if !d.before(&ed) {
                c = c + 1;
            }
        }
        proof {
            assert(conn.stargazers@.subrange(0, i + 1 as int).drop_last() =~= conn.stargazers@
                .subrange(0, i as int));
            assert(conn.stargazers@.subrange(0, i + 1 as int).last() == conn.stargazers@[i as int]);
        }
        i = i + 1;
    }
    proof {
        assert(conn.stargazers@.subrange(0, conn.stargazers@.len() as int) =~= conn.stargazers@);
    }
    c
}

/// Whether the language has an event on exactly day `d`.
fn lang_active_on(conn: &Store, lang: &str, d: Date) -> (r: bool)
    requires
        conn.wf(),
    ensures
        r == spec_lang_active_on(conn.stargazers@, conn.languages@, lang@, d),
{
    let mut i: usize = 0;
    while i < conn.stargazers.len()
        invariant
            i <= conn.stargazers@.len(),
            conn.wf(),
            forall|j: int|
                0 <= j < i ==> !(spec_lang_matches(
                    conn.languages@,
                    (#[trigger] conn.stargazers@[j]).owner@,
                    conn.stargazers@[j].name@,
                    lang@,
                ) && spec_event_day(conn.stargazers@[j]) == d),
        decreases conn.stargazers@.len() - i,
    {
        let e = &conn.stargazers[i];
        if lang_match(conn, e.owner.as_str(), e.name.as_str(), lang) {
            let ed = event_day(e);
            if ed.year == d.year && ed.month == d.month && ed.day == d.day {
                return true;
            }
        }
        i = i + 1;
    }
    false
}

/// The per-language star history: for each calendar day with activity and
/// each qualifying language, the language's cumulative star count through
/// that day.  Points come day-major, days ascending, languages in
/// first-appearance order, restricted to languages whose all-time total
/// over originality-flagged repositories reaches `min_stargazer_count`.
pub fn collect_star_history_by_language(conn: &Store, min_stargazer_count: i64) -> (r: Vec<
    (Date, String, i64),
>)
    requires
        conn.wf(),
    ensures
        r@ == spec_language_history(*conn, min_stargazer_count as int),
{
    let qlangs = qualifying_languages(conn, min_stargazer_count);
    let days = distinct_event_days(conn);
    let mut r: Vec<(Date, String, i64)> = Vec::new();
    let mut i: usize = 0;
    while i < days.len()
        invariant
            i <= days@.len(),
            conn.wf(),
            qlangs@ == spec_qualifying_languages(*conn, min_stargazer_count as int),
            days@ == spec_distinct_days(conn.stargazers@),
            r@ == spec_lang_rows(
                days@.subrange(0, i as int),
                qlangs@,
                conn.stargazers@,
                conn.languages@,
            ),
        decreases days@.len() - i,
    {
        let d = days[i];
        let ghost outer = r@;
        let mut j: usize = 0;
        while j < qlangs.len()
            invariant
                j <= qlangs@.len(),
                conn.wf(),
                i < days@.len(),
                d == days@[i as int],
                r@ == outer + spec_day_rows(
                    d,
                    qlangs@.subrange(0, j as int),
                    conn.stargazers@,
                    conn.languages@,
                ),
            decreases qlangs@.len() - j,
        {
            let lang = &qlangs[j];
            if lang_active_on(conn, lang.as_str(), d) {
                let c = lang_cum_through(conn, lang.as_str(), d);
                r.push((d, lang.clone(), c));
            }
            proof {
                assert(qlangs@.subrange(0, j + 1 as int).drop_last() =~= qlangs@.subrange(
                    0,
                    j as int,
                ));
                assert(qlangs@.subrange(0, j + 1 as int).last() == qlangs@[j as int]);
                assert(outer + spec_day_rows(
                    d,
                    qlangs@.subrange(0, j as int),
                    conn.stargazers@,
                    conn.languages@,
                ).push(r@.last()) =~= (outer + spec_day_rows(
                    d,
                    qlangs@.subrange(0, j as int),
                    conn.stargazers@,
                    conn.languages@,
                )).push(r@.last()));
            }
            j = j + 1;
        }
        proof {
            assert(qlangs@.subrange(0, qlangs@.len() as int) =~= qlangs@);
            assert(days@.subrange(0, i + 1 as int).drop_last() =~= days@.subrange(0, i as int));
            assert(days@.subrange(0, i + 1 as int).last() == days@[i as int]);
        }
        i = i + 1;
    }
    proof {
        assert(days@.subrange(0, days@.len() as int) =~= days@);
    }
    r
}

/// The total history's cumulative column never decreases, and its days
/// come in calendar order: the chart line only ever rises.
pub proof fn lemma_total_history_monotonic(events: Seq<StargazerEvent>)
    requires
        events.len() <= i64::MAX,
    ensures
        forall|i: int, j: int|
            0 <= i < j < spec_total_history(events).len() ==> (#[trigger] spec_total_history(
                events,
            )[i]).1 <= (#[trigger] spec_total_history(events)[j]).1,
        forall|i: int, j: int|
            0 <= i < j < spec_total_history(events).len() ==> !(#[trigger] spec_total_history(
                events,
            )[j]).0.lt((#[trigger] spec_total_history(events)[i]).0),
{
    lemma_sorted_of_props(spec_days_of(events));
}

} // verus!
