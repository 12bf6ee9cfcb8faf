//! Handing the last scan to a report provider.
//!
//! A report is a summary, a chart of statuses, and the same tables the screen
//! shows. The application hands it to whatever `report.build` provider is
//! loaded.

use vstd::prelude::*;
use crate::catalog::tr;
use crate::license::{Fact, FactV, License, LicenseV, fact_views, license_views, status_is_named};
use crate::text::{
    chars_before, chars_lt, chars_of, decimal, decimal_chars, owned, push_str, replace_all, replaced,
    same_text, string_of, lemma_chars_lt_irreflexive, lemma_chars_lt_total, lemma_chars_lt_transitive,
};
use crate::view::{
    cells, cells_of, columns, columns_of, count_not_licensed, count_not_ok, fact_rows, status_label,
    strong, weak, word,
};
use crate::sorting::{
    is_sorted_by, is_strict_weak, lemma_insert_found, lemma_sort_by_permutes, lemma_sort_by_sorted,
    sort_by,
};
use crate::widget::{Style, Widget, Window, WindowV, plain_window, widget_views};

verus! {

/// A titled table of a report.
#[derive(Debug)]
pub struct Section {
    pub heading: String,
    pub columns: Vec<String>,
    pub rows: Vec<Vec<String>>,
}

/// A section as plain values.
pub struct SectionV {
    pub heading: Seq<char>,
    pub columns: Seq<Seq<char>>,
    pub rows: Seq<Seq<Seq<char>>>,
}

impl View for Section {
    type V = SectionV;

    open spec fn view(&self) -> SectionV {
        SectionV { heading: self.heading@, columns: self.columns.deep_view(), rows: self.rows.deep_view() }
    }
}

/// A chart: its title, and each bar's label and value.
#[derive(Debug)]
pub struct Chart {
    pub title: String,
    pub data: Vec<(String, usize)>,
}

/// A chart as plain values.
pub struct ChartV {
    pub title: Seq<char>,
    pub data: Seq<(Seq<char>, nat)>,
}

/// The plain value of a bar.
pub open spec fn point_view(p: (String, usize)) -> (Seq<char>, nat) {
    (p.0@, p.1 as nat)
}

impl View for Chart {
    type V = ChartV;

    open spec fn view(&self) -> ChartV {
        ChartV { title: self.title@, data: self.data@.map_values(|p: (String, usize)| point_view(p)) }
    }
}

/// The last scan as a report provider expects it.
#[derive(Debug)]
pub struct ReportSpec {
    pub title: String,
    pub subtitle: String,
    pub format: String,
    pub summary: Vec<String>,
    pub charts: Vec<Chart>,
    pub sections: Vec<Section>,
}

/// A report as plain values.
pub struct ReportV {
    pub title: Seq<char>,
    pub subtitle: Seq<char>,
    pub format: Seq<char>,
    pub summary: Seq<Seq<char>>,
    pub charts: Seq<ChartV>,
    pub sections: Seq<SectionV>,
}

impl View for ReportSpec {
    type V = ReportV;

    open spec fn view(&self) -> ReportV {
        ReportV {
            title: self.title@,
            subtitle: self.subtitle@,
            format: self.format@,
            summary: self.summary.deep_view(),
            charts: self.charts@.map_values(|c: Chart| c@),
            sections: self.sections@.map_values(|s: Section| s@),
        }
    }
}

/// Where `status` first stands among the counted statuses, or -1.
pub open spec fn find_status(counts: Seq<(Seq<char>, nat)>, status: Seq<char>) -> int
    decreases counts.len(),
{
    if counts.len() == 0 {
        -1
    } else {
        let r = find_status(counts.drop_last(), status);
        if r >= 0 {
            r
        } else if counts.last().0 == status {
            counts.len() - 1
        } else {
            -1
        }
    }
}

/// Each status with how many licences carry it, in the order statuses are
/// first met.
pub open spec fn status_counts(lics: Seq<LicenseV>) -> Seq<(Seq<char>, nat)>
    decreases lics.len(),
{
    if lics.len() == 0 {
        Seq::empty()
    } else {
        let c = status_counts(lics.drop_last());
        let k = find_status(c, lics.last().status);
        if k >= 0 {
            c.update(k, (c[k].0, c[k].1 + 1))
        } else {
            c.push((lics.last().status, 1nat))
        }
    }
}

/// Commonest first, then alphabetical, so the order is stable between scans.
pub open spec fn count_before(a: (Seq<char>, nat), b: (Seq<char>, nat)) -> bool {
    a.1 > b.1 || (a.1 == b.1 && chars_lt(a.0, b.0))
}

/// `count_before` as a relation.
pub open spec fn charted_before() -> spec_fn((Seq<char>, nat), (Seq<char>, nat)) -> bool {
    |a: (Seq<char>, nat), b: (Seq<char>, nat)| count_before(a, b)
}

/// The counts in chart order: the stable sort by `count_before`.
pub open spec fn chart_order(s: Seq<(Seq<char>, nat)>) -> Seq<(Seq<char>, nat)> {
    sort_by(s, charted_before())
}

/// The chart's bars: each status named as the screen names it, with its count.
pub open spec fn chart_data(lang: Seq<char>, lics: Seq<LicenseV>) -> Seq<(Seq<char>, nat)> {
    chart_order(status_counts(lics)).map_values(
        |p: (Seq<char>, nat)| (status_label(lang, p.0), p.1),
    )
}

/// The rows for every licence, in the order given.
pub open spec fn all_rows(lang: Seq<char>, lics: Seq<LicenseV>) -> Seq<Seq<Seq<char>>> {
    lics.map_values(|l: LicenseV| cells_of(lang, l))
}

/// The report for the last scan.
pub open spec fn report_of(lang: Seq<char>, lics: Seq<LicenseV>, facts: Seq<FactV>) -> ReportV {
    let total = decimal(lics.len());
    let bad = decimal(count_not_licensed(lics));
    let data = chart_data(lang, lics);
    ReportV {
        title: word(lang, "report.title"),
        subtitle: replace_all(
            replace_all(word(lang, "report.subtitle"), "{total}"@, total),
            "{bad}"@,
            bad,
        ),
        format: "view"@,
        summary: seq![
            replace_all(word(lang, "report.line_total"), "{n}"@, total),
            replace_all(word(lang, "report.line_bad"), "{n}"@, bad),
        ],
        charts: if data.len() == 0 {
            Seq::empty()
        } else {
            seq![ChartV { title: word(lang, "report.by_status"), data }]
        },
        sections: seq![
            SectionV {
                heading: word(lang, "ui.title"),
                columns: columns_of(lang),
                rows: all_rows(lang, lics),
            },
        ] + if facts.len() == 0 {
            Seq::empty()
        } else {
            seq![
                SectionV {
                    heading: word(lang, "ui.details"),
                    columns: seq![word(lang, "col.item"), word(lang, "col.value")],
                    rows: fact_rows(facts),
                },
            ]
        },
    }
}

/// What the screen says once an exporting provider has written the report: a
/// provider that renders answers with a view, which is shown as it came back,
/// so there is nothing to draw for it (`None`).
pub open spec fn delivered_screen(lang: Seq<char>, built_is_view: bool) -> Option<WindowV> {
    if built_is_view {
        None
    } else {
        Some(
            plain_window(
                word(lang, "report.title"),
                seq![strong(word(lang, "report.exported")), weak(word(lang, "report.exported_hint"))],
            ),
        )
    }
}

/// What the screen says when the provider could not build the report.
pub open spec fn failed_screen(lang: Seq<char>, why: Seq<char>) -> WindowV {
    plain_window(word(lang, "report.title"), seq![strong(word(lang, "report.failed")), weak(why)])
}

/// What it says when there is nothing to report on yet.
pub open spec fn nothing_screen(lang: Seq<char>) -> WindowV {
    plain_window(word(lang, "report.title"), seq![strong(word(lang, "report.nothing"))])
}

/// The total of the counts.
pub open spec fn sum_counts(c: Seq<(Seq<char>, nat)>) -> nat
    decreases c.len(),
{
    if c.len() == 0 {
        0
    } else {
        sum_counts(c.drop_last()) + c.last().1
    }
}

proof fn lemma_sum_counts_bump(c: Seq<(Seq<char>, nat)>, k: int)
    requires
        0 <= k < c.len(),
    ensures
        sum_counts(c.update(k, (c[k].0, c[k].1 + 1))) == sum_counts(c) + 1,
    decreases c.len(),
{
    let d = c.update(k, (c[k].0, c[k].1 + 1));
    if k == c.len() - 1 {
        assert(d.drop_last() =~= c.drop_last());
    } else {
        lemma_sum_counts_bump(c.drop_last(), k);
        assert(d.drop_last() =~= c.drop_last().update(k, (c[k].0, c[k].1 + 1)));
    }
}

proof fn lemma_find_status_none(c: Seq<(Seq<char>, nat)>, s: Seq<char>)
    ensures
        find_status(c, s) == -1 ==> forall|i: int| 0 <= i < c.len() ==> (#[trigger] c[i]).0 != s,
    decreases c.len(),
{
    if c.len() > 0 {
        lemma_find_status_none(c.drop_last(), s);
        if find_status(c, s) == -1 {
            assert forall|i: int| 0 <= i < c.len() implies (#[trigger] c[i]).0 != s by {
                if i < c.len() - 1 {
                    assert(c[i] == c.drop_last()[i]);
                }
            }
        }
    }
}

/// Every licence is counted, once: the counts add up to the number of
/// licences, and no status is counted under two bars.
pub proof fn law_every_licence_is_counted_once(lics: Seq<LicenseV>)
    ensures
        sum_counts(status_counts(lics)) == lics.len(),
        forall|i: int, j: int|
            0 <= i < j < status_counts(lics).len() ==> (#[trigger] status_counts(lics)[i]).0
                != (#[trigger] status_counts(lics)[j]).0,
    decreases lics.len(),
{
    if lics.len() > 0 {
        let t = lics.drop_last();
        law_every_licence_is_counted_once(t);
        let c = status_counts(t);
        let st = lics.last().status;
        lemma_find_status_bounds(c, st);
        lemma_find_status_none(c, st);
        let k = find_status(c, st);
        if k >= 0 {
            lemma_sum_counts_bump(c, k);
            let d = c.update(k, (c[k].0, c[k].1 + 1));
            assert forall|i: int, j: int| 0 <= i < j < d.len() implies (#[trigger] d[i]).0 != (
            #[trigger] d[j]).0 by {
                assert(d[i].0 == c[i].0 && d[j].0 == c[j].0);
            }
        } else {
            let d = c.push((st, 1nat));
            assert(d.drop_last() =~= c);
            assert forall|i: int, j: int| 0 <= i < j < d.len() implies (#[trigger] d[i]).0 != (
            #[trigger] d[j]).0 by {
                if j == d.len() - 1 {
                    assert(c[i] == d[i]);
                } else {
                    assert(d[i] == c[i] && d[j] == c[j]);
                }
            }
        }
    }
}

/// How many of the licences carry `status`.
pub open spec fn count_status(lics: Seq<LicenseV>, status: Seq<char>) -> nat
    decreases lics.len(),
{
    if lics.len() == 0 {
        0
    } else {
        count_status(lics.drop_last(), status) + if lics.last().status == status {
            1nat
        } else {
            0nat
        }
    }
}

proof fn lemma_counts_are_exact(lics: Seq<LicenseV>)
    ensures
        forall|i: int|
            0 <= i < status_counts(lics).len() ==> (#[trigger] status_counts(lics)[i]).1
                == count_status(lics, status_counts(lics)[i].0),
        forall|s: Seq<char>|
            #[trigger] count_status(lics, s) > 0 ==> exists|i: int|
                0 <= i < status_counts(lics).len() && (#[trigger] status_counts(lics)[i]).0 == s,
    decreases lics.len(),
{
    if lics.len() > 0 {
        let t = lics.drop_last();
        lemma_counts_are_exact(t);
        law_every_licence_is_counted_once(t);
        let c = status_counts(t);
        let st = lics.last().status;
        lemma_find_status_bounds(c, st);
        lemma_find_status_none(c, st);
        let k = find_status(c, st);
        let d = status_counts(lics);
        if k >= 0 {
            assert(d == c.update(k, (c[k].0, c[k].1 + 1)));
            assert forall|i: int| 0 <= i < d.len() implies (#[trigger] d[i]).1 == count_status(lics, d[i].0) by {
                if i != k {
                    assert(d[i] == c[i]);
                    if i < k {
                        assert(c[i].0 != c[k].0);
                    } else {
                        assert(c[k].0 != c[i].0);
                    }
                }
            }
            assert forall|s: Seq<char>| #[trigger] count_status(lics, s) > 0 implies exists|i: int|
                0 <= i < d.len() && (#[trigger] d[i]).0 == s by {
                if s == st {
                    assert(d[k].0 == s);
                } else {
                    assert(count_status(t, s) > 0);
                    let i = choose|i: int| 0 <= i < c.len() && (#[trigger] c[i]).0 == s;
                    assert(d[i].0 == c[i].0);
                }
            }
        } else {
            assert(d == c.push((st, 1nat)));
            if count_status(t, st) > 0 {
                let i = choose|i: int| 0 <= i < c.len() && (#[trigger] c[i]).0 == st;
                assert(c[i].0 != st);
            }
            assert forall|i: int| 0 <= i < d.len() implies (#[trigger] d[i]).1 == count_status(lics, d[i].0) by {
                if i < c.len() {
                    assert(d[i] == c[i]);
                    assert(c[i].0 != st);
                }
            }
            assert forall|s: Seq<char>| #[trigger] count_status(lics, s) > 0 implies exists|i: int|
                0 <= i < d.len() && (#[trigger] d[i]).0 == s by {
                if s == st {
                    assert(d[c.len() as int].0 == s);
                } else {
                    assert(count_status(t, s) > 0);
                    let i = choose|i: int| 0 <= i < c.len() && (#[trigger] c[i]).0 == s;
                    assert(d[i] == c[i]);
                }
            }
        }
    }
}

proof fn lemma_count_status_positive(lics: Seq<LicenseV>, j: int)
    requires
        0 <= j < lics.len(),
    ensures
        count_status(lics, lics[j].status) > 0,
    decreases lics.len(),
{
    if j < lics.len() - 1 {
        lemma_count_status_positive(lics.drop_last(), j);
        assert(lics.drop_last()[j] == lics[j]);
    }
}

/// Each bar of the chart counts exactly the licences with its status and is
/// labelled with that status as the screen names it; and every status a
/// licence carries has its bar.
pub proof fn law_each_bar_counts_its_status(lang: Seq<char>, lics: Seq<LicenseV>)
    ensures
        chart_data(lang, lics).len() == chart_order(status_counts(lics)).len(),
        forall|i: int|
            0 <= i < chart_data(lang, lics).len() ==> (#[trigger] chart_data(lang, lics)[i]).1
                == count_status(lics, chart_order(status_counts(lics))[i].0) && chart_data(lang, lics)[i].0
                == status_label(lang, chart_order(status_counts(lics))[i].0),
        forall|j: int|
            0 <= j < lics.len() ==> exists|i: int|
                0 <= i < chart_order(status_counts(lics)).len() && (#[trigger] chart_order(
                    status_counts(lics),
                )[i]).0 == (#[trigger] lics[j]).status,
{
    let c = status_counts(lics);
    let co = chart_order(c);
    law_the_chart_is_commonest_first(lics);
    lemma_counts_are_exact(lics);
    assert forall|i: int| 0 <= i < co.len() implies (#[trigger] co[i]).1 == count_status(lics, co[i].0) by {
        vstd::seq_lib::to_multiset_contains(co, co[i]);
        vstd::seq_lib::to_multiset_contains(c, co[i]);
        assert(co.contains(co[i]));
        let k = choose|k: int| 0 <= k < c.len() && c[k] == co[i];
        assert(c[k].1 == count_status(lics, c[k].0));
    }
    assert forall|j: int| 0 <= j < lics.len() implies exists|i: int|
        0 <= i < co.len() && (#[trigger] co[i]).0 == (#[trigger] lics[j]).status by {
        lemma_count_status_positive(lics, j);
        let k = choose|k: int| 0 <= k < c.len() && (#[trigger] c[k]).0 == lics[j].status;
        assert(c.contains(c[k]));
        vstd::seq_lib::to_multiset_contains(c, c[k]);
        vstd::seq_lib::to_multiset_contains(co, c[k]);
        let i = choose|i: int| 0 <= i < co.len() && co[i] == c[k];
        assert(co[i].0 == lics[j].status);
    }
}

/// The report's tables: first every licence, each as the row the screen
/// shows for it, under the screen's columns; then, when there are facts, a
/// details table holding for each fact in turn its item and its value, the
/// same rows the screen's details table shows, and nothing more.
pub proof fn law_the_report_tables_are_the_screen_tables(
    lang: Seq<char>,
    lics: Seq<LicenseV>,
    facts: Seq<FactV>,
)
    ensures
        report_of(lang, lics, facts).sections.len() == if facts.len() == 0 {
            1nat
        } else {
            2nat
        },
        report_of(lang, lics, facts).sections[0].columns == columns_of(lang),
        report_of(lang, lics, facts).sections[0].rows.len() == lics.len(),
        forall|k: int|
            0 <= k < lics.len() ==> (#[trigger] report_of(lang, lics, facts).sections[0].rows[k])
                == cells_of(lang, lics[k]),
        facts.len() > 0 ==> {
            let d = report_of(lang, lics, facts).sections[1];
            &&& d.heading == word(lang, "ui.details")
            &&& d.columns == seq![word(lang, "col.item"), word(lang, "col.value")]
            &&& d.rows == fact_rows(facts)
            &&& d.rows.len() == facts.len()
            &&& forall|k: int|
                0 <= k < facts.len() ==> (#[trigger] d.rows[k]) == seq![facts[k].item, facts[k].value]
        },
{
}

/// `count_before` is a strict weak order.
pub proof fn lemma_count_before_strict_weak()
    ensures
        is_strict_weak(charted_before()),
{
    let f = charted_before();
    assert forall|a: (Seq<char>, nat), b: (Seq<char>, nat)| !(#[trigger] f(a, b) && #[trigger] f(b, a)) by {
        if f(a, b) && f(b, a) {
            lemma_chars_lt_transitive(a.0, b.0, a.0);
            lemma_chars_lt_irreflexive(a.0);
        }
    }
    assert forall|a: (Seq<char>, nat), b: (Seq<char>, nat), c: (Seq<char>, nat)|
        #[trigger] f(a, c) implies #[trigger] f(a, b) || #[trigger] f(b, c) by {
        if a.1 == b.1 && b.1 == c.1 && !chars_lt(a.0, b.0) && !chars_lt(b.0, c.0) {
            if a.0 != b.0 && b.0 != c.0 {
                lemma_chars_lt_total(a.0, b.0);
                lemma_chars_lt_total(b.0, c.0);
                lemma_chars_lt_transitive(c.0, b.0, a.0);
                lemma_chars_lt_transitive(a.0, c.0, a.0);
                lemma_chars_lt_irreflexive(a.0);
            }
        }
    }
}

/// The chart puts the commonest status first, then goes alphabetically, and
/// it shows every counted status, each once.
pub proof fn law_the_chart_is_commonest_first(lics: Seq<LicenseV>)
    ensures
        is_sorted_by(chart_order(status_counts(lics)), charted_before()),
        chart_order(status_counts(lics)).to_multiset() == status_counts(lics).to_multiset(),
{
    lemma_count_before_strict_weak();
    lemma_sort_by_sorted(status_counts(lics), charted_before());
    lemma_sort_by_permutes(status_counts(lics), charted_before());
}

/// The plain values of counted statuses.
pub open spec fn counts_view(c: Seq<(String, usize)>) -> Seq<(Seq<char>, nat)> {
    c.map_values(|p: (String, usize)| point_view(p))
}

proof fn lemma_find_status_extends(c: Seq<(Seq<char>, nat)>, s: Seq<char>, k: int, n: int)
    requires
        0 <= k <= n <= c.len(),
        find_status(c.take(k), s) >= 0,
    ensures
        find_status(c.take(n), s) == find_status(c.take(k), s),
    decreases n - k,
{
    if n > k {
        lemma_find_status_extends(c, s, k, n - 1);
        assert(c.take(n).drop_last() =~= c.take(n - 1));
    }
}

proof fn lemma_find_status_bounds(c: Seq<(Seq<char>, nat)>, s: Seq<char>)
    ensures
        -1 <= find_status(c, s) < c.len(),
        find_status(c, s) >= 0 ==> c[find_status(c, s)].0 == s,
    decreases c.len(),
{
    if c.len() > 0 {
        lemma_find_status_bounds(c.drop_last(), s);
    }
}

/// Where `status` stands among the counts so far.
fn find_count(counts: &Vec<(String, usize)>, status: &str) -> (r: Option<usize>)
    ensures
        r matches Some(k) ==> find_status(counts_view(counts@), status@) == k as int,
        r is None ==> find_status(counts_view(counts@), status@) == -1,
{
    let ghost c = counts_view(counts@);
    let mut k: usize = 0;
    assert(c.take(0) =~= Seq::<(Seq<char>, nat)>::empty());
    while k < counts.len()
        invariant
            c == counts_view(counts@),
            k <= counts@.len(),
            find_status(c.take(k as int), status@) == -1,
        decreases counts@.len() - k,
    {
        assert(c.take(k + 1).drop_last() =~= c.take(k as int));
        if same_text(counts[k].0.as_str(), status) {
            proof {
                lemma_find_status_extends(c, status@, k + 1, c.len() as int);
                assert(c.take(c.len() as int) =~= c);
            }
            return Some(k);
        }
        k = k + 1;
    }
    assert(c.take(c.len() as int) =~= c);
    None
}

/// Each status with how many licences carry it, in first-met order.
fn count_statuses(lics: &[License]) -> (r: Vec<(String, usize)>)
    ensures
        counts_view(r@) == status_counts(license_views(lics@)),
{
    let ghost all = license_views(lics@);
    let mut counts: Vec<(String, usize)> = Vec::new();
    let mut i: usize = 0;
    assert(all.take(0) =~= Seq::<LicenseV>::empty());
    assert(counts_view(counts@) =~= Seq::<(Seq<char>, nat)>::empty());
    while i < lics.len()
        invariant
            i <= lics@.len(),
            all == license_views(lics@),
            counts_view(counts@) == status_counts(all.take(i as int)),
            forall|k: int| 0 <= k < counts@.len() ==> (#[trigger] counts@[k]).1 <= i,
        decreases lics@.len() - i,
    {
        assert(all.take(i + 1).drop_last() =~= all.take(i as int));
        let ghost c = counts_view(counts@);
        match find_count(&counts, lics[i].status.as_str()) {
            Some(k) => {
                proof {
                    lemma_find_status_bounds(c, all[i as int].status);
                }
                let n = counts[k].1;
                let name = counts[k].0.clone();
                counts.set(k, (name, n + 1));
                assert(counts_view(counts@) =~= c.update(k as int, (c[k as int].0, c[k as int].1 + 1)));
            },
            None => {
                counts.push((lics[i].status.clone(), 1));
                assert(counts_view(counts@) =~= c.push((all[i as int].status, 1nat)));
            },
        }
        i = i + 1;
    }
    assert(all.take(lics@.len() as int) =~= all);
    counts
}

/// Whether count `a` goes before count `b` in the chart.
fn count_ahead(a: &(String, usize), b: &(String, usize)) -> (r: bool)
    ensures
        r == count_before(point_view(*a), point_view(*b)),
{
    if a.1 != b.1 {
        a.1 > b.1
    } else {
        let ac = chars_of(a.0.as_str());
        let bc = chars_of(b.0.as_str());
        chars_before(ac.as_slice(), bc.as_slice())
    }
}

/// The counts in chart order.
fn order_counts(counts: Vec<(String, usize)>) -> (r: Vec<(String, usize)>)
    ensures
        counts_view(r@) == chart_order(counts_view(counts@)),
{
    let ghost orig = counts_view(counts@);
    let mut input = counts;
    let mut out: Vec<(String, usize)> = Vec::new();
    let ghost mut i: int = 0;
    assert(orig.take(0) =~= Seq::<(Seq<char>, nat)>::empty());
    assert(counts_view(out@) =~= Seq::<(Seq<char>, nat)>::empty());
    assert(orig.skip(0) =~= orig);
    while input.len() > 0
        invariant
            0 <= i <= orig.len(),
            counts_view(out@) == chart_order(orig.take(i)),
            counts_view(input@) == orig.skip(i),
            i + input@.len() == orig.len(),
        decreases input@.len(),
    {
        let ghost sorted = counts_view(out@);
        let ghost input_before = input@;
        let x = input.remove(0);
        assert(counts_view(input_before)[0] == point_view(x));
        assert(orig.skip(i)[0] == orig[i]);
        assert(counts_view(input@) =~= orig.skip(i + 1)) by {
            assert forall|k: int| 0 <= k < input@.len() implies counts_view(input@)[k] == orig.skip(i + 1)[k] by {
                assert(input@[k] == input_before[k + 1]);
                assert(counts_view(input_before)[k + 1] == orig.skip(i)[k + 1]);
            }
        }
        let mut j = out.len();
        while j > 0 && count_ahead(&x, &out[j - 1])
            invariant
                j <= out@.len(),
                sorted == counts_view(out@),
                forall|k: int| j <= k < out@.len() ==> count_before(point_view(x), #[trigger] sorted[k]),
            decreases j,
        {
            j = j - 1;
        }
        proof {
            lemma_insert_found(sorted, point_view(x), charted_before(), j as int);
            assert(orig.take(i + 1).drop_last() =~= orig.take(i));
        }
        out.insert(j, x);
        assert(counts_view(out@) =~= sorted.insert(j as int, point_view(x)));
        proof {
            i = i + 1;
        }
    }
    assert(orig.take(i) =~= orig);
    out
}

/// A status as shown: in words when it is named, as itself otherwise.
fn status_text(lang: &str, status: &str) -> (r: String)
    ensures
        r@ == status_label(lang@, status@),
{
    if status_is_named(status) {
        let mut key = chars_of("status.");
        push_str(&mut key, status);
        let k = string_of(key.as_slice());
        tr(lang, k.as_str())
    } else {
        owned(status)
    }
}

/// `template` with `{name}`-style `mark` filled in with `n`.
fn fill(template: &str, mark: &str, n: usize) -> (r: String)
    ensures
        r@ == replace_all(template@, mark@, decimal(n as nat)),
{
    let t = chars_of(template);
    let m = chars_of(mark);
    let d = decimal_chars(n);
    let f = replaced(t.as_slice(), m.as_slice(), d.as_slice());
    string_of(f.as_slice())
}

/// The last scan as a report provider expects it: a summary, a chart of
/// statuses, and the same tables the screen shows.
pub fn report_spec(lang: &str, lics: &[License], facts: &[Fact]) -> (r: ReportSpec)
    ensures
        r@ == report_of(lang@, license_views(lics@), fact_views(facts@)),
{
    let ghost lv = license_views(lics@);
    let total = lics.len();
    let bad = count_not_ok(lics);
    let ordered = order_counts(count_statuses(lics));
    let mut data: Vec<(String, usize)> = Vec::new();
    let mut i: usize = 0;
    let ghost od = counts_view(ordered@);
    while i < ordered.len()
        invariant
            i <= ordered@.len(),
            od == counts_view(ordered@),
            od == chart_order(status_counts(lv)),
            counts_view(data@) == od.take(i as int).map_values(
                |p: (Seq<char>, nat)| (status_label(lang@, p.0), p.1),
            ),
        decreases ordered@.len() - i,
    {
        let label = status_text(lang, ordered[i].0.as_str());
        let ghost before = counts_view(data@);
        assert(od[i as int] == point_view(ordered@[i as int]));
        data.push((label, ordered[i].1));
        assert(counts_view(data@) =~= before.push((status_label(lang@, od[i as int].0), od[i as int].1)));
        assert(od.take(i + 1) =~= od.take(i as int).push(od[i as int]));
        i = i + 1;
        assert(counts_view(data@) =~= od.take(i as int).map_values(
            |p: (Seq<char>, nat)| (status_label(lang@, p.0), p.1),
        ));
    }
    assert(od.take(ordered@.len() as int) =~= od);
    let mut charts: Vec<Chart> = Vec::new();
    if data.len() > 0 {
        charts.push(Chart { title: tr(lang, "report.by_status"), data });
    }
    let mut rows: Vec<Vec<String>> = Vec::new();
    let mut k: usize = 0;
    while k < lics.len()
        invariant
            k <= lics@.len(),
            lv == license_views(lics@),
            rows.deep_view() == all_rows(lang@, lv.take(k as int)),
        decreases lics@.len() - k,
    {
        let row = cells(lang, &lics[k]);
        let ghost before = rows.deep_view();
        rows.push(row);
        assert(rows.deep_view() =~= before.push(cells_of(lang@, lv[k as int])));
        k = k + 1;
        assert(rows.deep_view() =~= all_rows(lang@, lv.take(k as int)));
    }
    assert(lv.take(lics@.len() as int) =~= lv);
    let mut sections: Vec<Section> = Vec::new();
    sections.push(Section { heading: tr(lang, "ui.title"), columns: columns(lang), rows });
    if facts.len() > 0 {
        let mut frows: Vec<Vec<String>> = Vec::new();
        let mut m: usize = 0;
        let ghost fv = fact_views(facts@);
        assert(frows.deep_view() =~= fact_rows(fv.take(0)));
        while m < facts.len()
            invariant
                m <= facts@.len(),
                fv == fact_views(facts@),
                frows.deep_view() == fact_rows(fv.take(m as int)),
            decreases facts@.len() - m,
        {
            let row = vec![facts[m].item.clone(), facts[m].value.clone()];
            let ghost before = frows.deep_view();
            assert(row.deep_view() =~= seq![fv[m as int].item, fv[m as int].value]);
            frows.push(row);
            assert(frows.deep_view() =~= before.push(seq![fv[m as int].item, fv[m as int].value]));
            assert(fv.take(m + 1) =~= fv.take(m as int).push(fv[m as int]));
            m = m + 1;
        }
        assert(fv.take(facts@.len() as int) =~= fv);
        let cols = vec![tr(lang, "col.item"), tr(lang, "col.value")];
        assert(cols.deep_view() =~= seq![word(lang@, "col.item"), word(lang@, "col.value")]);
        sections.push(Section { heading: tr(lang, "ui.details"), columns: cols, rows: frows });
    }
    let sub = tr(lang, "report.subtitle");
    let sub1 = fill(sub.as_str(), "{total}", total);
    let subtitle = fill(sub1.as_str(), "{bad}", bad);
    let lt = tr(lang, "report.line_total");
    let lb = tr(lang, "report.line_bad");
    let summary = vec![fill(lt.as_str(), "{n}", total), fill(lb.as_str(), "{n}", bad)];
    let r = ReportSpec {
        title: tr(lang, "report.title"),
        subtitle,
        format: owned("view"),
        summary,
        charts,
        sections,
    };
    assert(r@.summary =~= report_of(lang@, lv, fact_views(facts@)).summary);
    assert(r@.charts =~= report_of(lang@, lv, fact_views(facts@)).charts);
    assert(r@.sections =~= report_of(lang@, lv, fact_views(facts@)).sections);
    r
}

/// What the screen says when the report has been handed over: nothing of its
/// own when the provider answered with a view, which is shown as it came
/// back; otherwise a window saying the report was exported, so the tab does
/// not open empty.
pub fn delivered(lang: &str, built_is_view: bool) -> (r: Option<Window>)
    ensures
        r matches Some(w) ==> delivered_screen(lang@, built_is_view) == Some(w@),
        r is None ==> delivered_screen(lang@, built_is_view) is None,
{
    if built_is_view {
        return None;
    }
    let ws = vec![
        Widget::Label { text: tr(lang, "report.exported"), style: Style::Strong },
        Widget::Label { text: tr(lang, "report.exported_hint"), style: Style::Weak },
    ];
    assert(widget_views(ws@) =~= seq![
        strong(word(lang@, "report.exported")),
        weak(word(lang@, "report.exported_hint")),
    ]);
    Some(Window::new(tr(lang, "report.title"), ws))
}

/// What the screen says when the provider could not build the report.
pub fn failed_view(lang: &str, why: &str) -> (r: Window)
    ensures
        r@ == failed_screen(lang@, why@),
{
    let ws = vec![
        Widget::Label { text: tr(lang, "report.failed"), style: Style::Strong },
        Widget::Label { text: owned(why), style: Style::Weak },
    ];
    assert(widget_views(ws@) =~= failed_screen(lang@, why@).widgets);
    Window::new(tr(lang, "report.title"), ws)
}

/// What it says when there is nothing to report on yet.
pub fn nothing_view(lang: &str) -> (r: Window)
    ensures
        r@ == nothing_screen(lang@),
{
    let ws = vec![Widget::Label { text: tr(lang, "report.nothing"), style: Style::Strong }];
    assert(widget_views(ws@) =~= nothing_screen(lang@).widgets);
    Window::new(tr(lang, "report.title"), ws)
}

} // verus!
