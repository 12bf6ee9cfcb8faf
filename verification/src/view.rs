//! Everything the module draws.
//!
//! Each screen takes `lang` and resolves its words through the catalog, so the
//! same call renders in whatever language the host is set to. Nothing here
//! holds state: the handler decides what to show and hands it in.

use vstd::prelude::*;
use crate::catalog::{translate, tr};
use crate::license::{Fact, FactV, Flags, FlagsV, License, LicenseV, fact_views, license_views, is_status_name, status_is_named};
use crate::text::{chars_of, decimal, decimal_chars, owned, push_str, replace_all, replaced, string_of};
use crate::widget::{
    Action, ActionV, Button, ButtonV, Modal, ModalV, Style, Widget, WidgetV, Window, WindowV,
    button_views, plain_window, widget_views,
};

verus! {

/// The capability this module provides, and the target every button calls
/// back into.
pub const CAP: &'static str = "licenses.ms";

/// A call back into this module's `method`.
pub open spec fn call_to(method: Seq<char>) -> ActionV {
    ActionV { capability: CAP@, method }
}

/// A button calling this module's `method`.
pub open spec fn button_to(text: Seq<char>, method: Seq<char>, primary: bool, open_in_tab: bool) -> ButtonV {
    ButtonV { text, action: call_to(method), primary, open_in_tab }
}

/// A quiet label.
pub open spec fn weak(text: Seq<char>) -> WidgetV {
    WidgetV::Label { text, style: Style::Weak }
}

/// A heading label.
pub open spec fn strong(text: Seq<char>) -> WidgetV {
    WidgetV::Label { text, style: Style::Strong }
}

/// The text of `key` in `lang`.
pub open spec fn word(lang: Seq<char>, key: &str) -> Seq<char> {
    translate(lang, key@)
}

/// The landing screen: a sentence saying what checking does, and the button
/// that does it. Nothing is read until the user asks.
pub open spec fn idle_screen(lang: Seq<char>) -> WindowV {
    plain_window(
        word(lang, "ui.title"),
        seq![
            weak(word(lang, "ui.subtitle")),
            WidgetV::Separator,
            WidgetV::Button(button_to(word(lang, "ui.scan"), "scan"@, true, false)),
        ],
    )
}

/// The screen when the store could not be read: why, and a way to try again.
pub open spec fn error_screen(lang: Seq<char>, message: Seq<char>) -> WindowV {
    plain_window(
        word(lang, "ui.title"),
        seq![
            weak(message),
            WidgetV::Separator,
            WidgetV::Button(button_to(word(lang, "ui.rescan"), "scan"@, true, false)),
        ],
    )
}

/// The pop-up shown while the operating system asks for privileges: which
/// one field is asked for, and a call to `oem_poll` that it makes by itself
/// until the prompt is answered.
pub open spec fn authorizing_screen(lang: Seq<char>) -> WindowV {
    WindowV {
        title: word(lang, "oem.title"),
        widgets: seq![
            WidgetV::Step { text: word(lang, "oem.authorizing"), state: "loading"@ },
            weak(word(lang, "oem.why")),
        ],
        modal: Some(ModalV { id: "ms-licenses.authorizing"@, width: 520 }),
        auto: Some(call_to("oem_poll"@)),
        notice: None,
    }
}

/// The licence table's column headings, in order.
pub open spec fn columns_of(lang: Seq<char>) -> Seq<Seq<char>> {
    seq![
        word(lang, "col.product"),
        word(lang, "col.status"),
        word(lang, "col.channel"),
        word(lang, "col.key"),
        word(lang, "col.expires"),
        word(lang, "col.kms"),
    ]
}

/// A status as shown: a named status in words, an unrecognised code as
/// itself.
pub open spec fn status_label(lang: Seq<char>, status: Seq<char>) -> Seq<char> {
    if is_status_name(status) {
        translate(lang, "status."@ + status)
    } else {
        status
    }
}

/// The key column: the last five characters with the rest masked, or nothing
/// for a product with no key.
pub open spec fn key_cell(key: Seq<char>) -> Seq<char> {
    if key.len() == 0 {
        Seq::empty()
    } else {
        "·····-"@ + key
    }
}

/// One licence as a row.
pub open spec fn cells_of(lang: Seq<char>, l: LicenseV) -> Seq<Seq<char>> {
    seq![l.name, status_label(lang, l.status), l.channel, key_cell(l.key), l.expires, l.kms]
}

/// How many of the licences are not properly licensed.
pub open spec fn count_not_licensed(lics: Seq<LicenseV>) -> nat
    decreases lics.len(),
{
    if lics.len() == 0 {
        0
    } else {
        count_not_licensed(lics.drop_last()) + if lics.last().licensed() {
            0nat
        } else {
            1nat
        }
    }
}

/// The rows for the licences of one family, in the order given.
pub open spec fn rows_of_kind(lang: Seq<char>, lics: Seq<LicenseV>, kind: Seq<char>) -> Seq<Seq<Seq<char>>>
    decreases lics.len(),
{
    if lics.len() == 0 {
        Seq::empty()
    } else if lics.last().kind == kind {
        rows_of_kind(lang, lics.drop_last(), kind).push(cells_of(lang, lics.last()))
    } else {
        rows_of_kind(lang, lics.drop_last(), kind)
    }
}

/// The rows of the details table: each fact's item and value.
pub open spec fn fact_rows(facts: Seq<FactV>) -> Seq<Seq<Seq<char>>> {
    facts.map_values(|f: FactV| seq![f.item, f.value])
}

/// The headline: everything licensed, or how many products need attention.
pub open spec fn headline(lang: Seq<char>, lics: Seq<LicenseV>) -> WidgetV {
    if count_not_licensed(lics) == 0 {
        weak(word(lang, "ui.all_ok"))
    } else {
        weak(replace_all(word(lang, "ui.attention"), "{n}"@, decimal(count_not_licensed(lics))))
    }
}

/// What the run could not read, said on the screen: the OEM key with a way to
/// read it as administrator, and any error the query raised.
pub open spec fn notes(lang: Seq<char>, flags: FlagsV) -> Seq<WidgetV> {
    (if flags.no_oem {
        seq![
            weak("! "@ + word(lang, "note.no_oem")),
            WidgetV::Button(button_to(word(lang, "note.read_oem"), "read_oem"@, false, false)),
        ]
    } else {
        Seq::empty()
    }) + (if flags.error.len() > 0 {
        seq![weak("! "@ + flags.error)]
    } else {
        Seq::empty()
    })
}

/// The row of actions: check again, and make a report when a provider is
/// loaded.
pub open spec fn actions(lang: Seq<char>, report: bool) -> WidgetV {
    WidgetV::Row(
        seq![button_to(word(lang, "ui.rescan"), "scan"@, false, false)] + if report {
            seq![button_to(word(lang, "ui.report"), "make_report"@, false, true)]
        } else {
            Seq::empty()
        },
    )
}

/// A family's table under its heading, or nothing when the family has no
/// licence.
pub open spec fn family_section(
    lang: Seq<char>,
    lics: Seq<LicenseV>,
    kind: Seq<char>,
    heading: Seq<char>,
) -> Seq<WidgetV> {
    let rows = rows_of_kind(lang, lics, kind);
    if rows.len() == 0 {
        Seq::empty()
    } else {
        seq![
            WidgetV::Separator,
            strong(translate(lang, heading)),
            WidgetV::Table { columns: columns_of(lang), rows },
        ]
    }
}

/// The details table under its heading, or nothing when there are no facts.
pub open spec fn details_section(lang: Seq<char>, facts: Seq<FactV>) -> Seq<WidgetV> {
    if facts.len() == 0 {
        Seq::empty()
    } else {
        seq![
            WidgetV::Separator,
            strong(word(lang, "ui.details")),
            WidgetV::Table {
                columns: seq![word(lang, "col.item"), word(lang, "col.value")],
                rows: fact_rows(facts),
            },
        ]
    }
}

/// The results: the headline, what could not be read, the actions, a table
/// per product family, and the details.
pub open spec fn results_screen(
    lang: Seq<char>,
    lics: Seq<LicenseV>,
    facts: Seq<FactV>,
    flags: FlagsV,
    report: bool,
) -> WindowV {
    plain_window(
        word(lang, "ui.title"),
        seq![headline(lang, lics)] + notes(lang, flags) + seq![actions(lang, report)]
            + family_section(lang, lics, "windows"@, "kind.windows"@) + family_section(
            lang,
            lics,
            "office"@,
            "kind.office"@,
        ) + family_section(lang, lics, "other"@, "kind.other"@) + details_section(lang, facts),
    )
}

/// Each row has one cell per column, and each cell holds what its column's
/// heading names: the product's name, its status in words, its channel, its
/// partial key, how long it has left, and its KMS host, in that order.
pub proof fn law_each_cell_sits_under_its_heading(lang: Seq<char>, l: LicenseV)
    ensures
        cells_of(lang, l).len() == columns_of(lang).len(),
        columns_of(lang)[0] == word(lang, "col.product") && cells_of(lang, l)[0] == l.name,
        columns_of(lang)[1] == word(lang, "col.status") && cells_of(lang, l)[1] == status_label(
            lang,
            l.status,
        ),
        columns_of(lang)[2] == word(lang, "col.channel") && cells_of(lang, l)[2] == l.channel,
        columns_of(lang)[3] == word(lang, "col.key") && cells_of(lang, l)[3] == (if l.key.len()
            == 0 {
            Seq::<char>::empty()
        } else {
            "·····-"@ + l.key
        }),
        columns_of(lang)[4] == word(lang, "col.expires") && cells_of(lang, l)[4] == l.expires,
        columns_of(lang)[5] == word(lang, "col.kms") && cells_of(lang, l)[5] == l.kms,
{
}

/// A family's table holds one row per licence of that family, each the row
/// of that licence, in the order given; no licence of another family.
pub proof fn law_a_family_table_holds_its_family(lang: Seq<char>, lics: Seq<LicenseV>, kind: Seq<char>)
    ensures
        rows_of_kind(lang, lics, kind) == lics.filter(|l: LicenseV| l.kind == kind).map_values(
            |l: LicenseV| cells_of(lang, l),
        ),
    decreases lics.len(),
{
    reveal(Seq::filter);
    if lics.len() > 0 {
        law_a_family_table_holds_its_family(lang, lics.drop_last(), kind);
        let f = lics.drop_last().filter(|l: LicenseV| l.kind == kind);
        if lics.last().kind == kind {
            assert(f.push(lics.last()).map_values(|l: LicenseV| cells_of(lang, l)) =~= f.map_values(
                |l: LicenseV| cells_of(lang, l),
            ).push(cells_of(lang, lics.last())));
        }
    }
}

/// The headline's count is the number of licences that are not properly
/// licensed.
pub proof fn law_the_headline_counts_what_needs_attention(lics: Seq<LicenseV>)
    ensures
        count_not_licensed(lics) == lics.filter(|l: LicenseV| !l.licensed()).len(),
    decreases lics.len(),
{
    reveal(Seq::filter);
    if lics.len() > 0 {
        law_the_headline_counts_what_needs_attention(lics.drop_last());
    }
}

/// The notes say what the run could not read: when the firmware's OEM key was
/// unreadable, the note saying so and the button that reads it as
/// administrator; when the query raised an error, that error; nothing else.
pub proof fn law_the_notes_say_what_could_not_be_read(lang: Seq<char>, flags: FlagsV)
    ensures
        notes(lang, flags).len() == (if flags.no_oem {
            2int
        } else {
            0int
        }) + (if flags.error.len() > 0 {
            1int
        } else {
            0int
        }),
        flags.no_oem ==> notes(lang, flags)[0] == weak("! "@ + word(lang, "note.no_oem"))
            && notes(lang, flags)[1] == WidgetV::Button(
            button_to(word(lang, "note.read_oem"), "read_oem"@, false, false),
        ),
        flags.error.len() > 0 ==> notes(lang, flags).last() == weak("! "@ + flags.error),
{
}

/// A button calling this module's `method`.
fn button(text: String, method: &str, primary: bool, open_in_tab: bool) -> (r: Button)
    ensures
        r@ == button_to(text@, method@, primary, open_in_tab),
{
    Button { text, action: Action { capability: owned(CAP), method: owned(method) }, primary, open_in_tab }
}

/// The landing screen.
pub fn idle_view(lang: &str) -> (r: Window)
    ensures
        r@ == idle_screen(lang@),
{
    let ws = vec![
        Widget::Label { text: tr(lang, "ui.subtitle"), style: Style::Weak },
        Widget::Separator,
        Widget::Button(button(tr(lang, "ui.scan"), "scan", true, false)),
    ];
    assert(widget_views(ws@) =~= idle_screen(lang@).widgets);
    Window::new(tr(lang, "ui.title"), ws)
}

/// What the screen shows when the store could not be read at all.
pub fn error_view(lang: &str, message: &str) -> (r: Window)
    ensures
        r@ == error_screen(lang@, message@),
{
    let ws = vec![
        Widget::Label { text: owned(message), style: Style::Weak },
        Widget::Separator,
        Widget::Button(button(tr(lang, "ui.rescan"), "scan", true, false)),
    ];
    assert(widget_views(ws@) =~= error_screen(lang@, message@).widgets);
    Window::new(tr(lang, "ui.title"), ws)
}

/// Shown while the operating system is asking for privileges.
pub fn authorizing_view(lang: &str) -> (r: Window)
    ensures
        r@ == authorizing_screen(lang@),
{
    let ws = vec![
        Widget::Step { text: tr(lang, "oem.authorizing"), state: owned("loading") },
        Widget::Label { text: tr(lang, "oem.why"), style: Style::Weak },
    ];
    assert(widget_views(ws@) =~= authorizing_screen(lang@).widgets);
    Window {
        title: tr(lang, "oem.title"),
        widgets: ws,
        modal: Some(Modal { id: owned("ms-licenses.authorizing"), width: 520 }),
        auto: Some(Action { capability: owned(CAP), method: owned("oem_poll") }),
        notice: None,
    }
}

/// The table's column headings, in order.
pub fn columns(lang: &str) -> (r: Vec<String>)
    ensures
        r.deep_view() == columns_of(lang@),
{
    let r = vec![
        tr(lang, "col.product"),
        tr(lang, "col.status"),
        tr(lang, "col.channel"),
        tr(lang, "col.key"),
        tr(lang, "col.expires"),
        tr(lang, "col.kms"),
    ];
    assert(r.deep_view() =~= columns_of(lang@));
    r
}

/// One licence as a row. The key is shown as the store gives it, the last
/// five characters, with the rest masked so the column reads as a fragment.
pub fn cells(lang: &str, l: &License) -> (r: Vec<String>)
    ensures
        r.deep_view() == cells_of(lang@, l@),
{
    let status = if status_is_named(l.status.as_str()) {
        let mut key = chars_of("status.");
        push_str(&mut key, l.status.as_str());
        let k = string_of(key.as_slice());
        tr(lang, k.as_str())
    } else {
        l.status.clone()
    };
    let key = if l.key.as_str().is_empty() {
        String::new()
    } else {
        let mut m = chars_of("·····-");
        push_str(&mut m, l.key.as_str());
        string_of(m.as_slice())
    };
    proof {
        if l.key@.len() == 0 {
            assert(key@ =~= key_cell(l.key@));
        }
    }
    let r = vec![l.name.clone(), status, l.channel.clone(), key, l.expires.clone(), l.kms.clone()];
    assert(r.deep_view() =~= cells_of(lang@, l@));
    r
}

/// How many of the licences are not properly licensed.
pub fn count_not_ok(lics: &[License]) -> (r: usize)
    ensures
        r == count_not_licensed(license_views(lics@)),
{
    let mut n: usize = 0;
    let mut i: usize = 0;
    let ghost all = license_views(lics@);
    assert(all.take(0) =~= Seq::<LicenseV>::empty());
    while i < lics.len()
        invariant
            i <= lics@.len(),
            all == license_views(lics@),
            n == count_not_licensed(all.take(i as int)),
            n <= i,
        decreases lics@.len() - i,
    {
        assert(all.take(i + 1).drop_last() =~= all.take(i as int));
        if !lics[i].ok() {
            n = n + 1;
        }
        i = i + 1;
    }
    assert(all.take(lics@.len() as int) =~= all);
    n
}

/// The headline.
fn headline_label(lang: &str, lics: &[License]) -> (r: Widget)
    ensures
        r@ == headline(lang@, license_views(lics@)),
{
    let bad = count_not_ok(lics);
    if bad == 0 {
        Widget::Label { text: tr(lang, "ui.all_ok"), style: Style::Weak }
    } else {
        let sentence = tr(lang, "ui.attention");
        let sc = chars_of(sentence.as_str());
        let pat = chars_of("{n}");
        let num = decimal_chars(bad);
        let filled = replaced(sc.as_slice(), pat.as_slice(), num.as_slice());
        Widget::Label { text: string_of(filled.as_slice()), style: Style::Weak }
    }
}

/// A line that starts with `! `.
fn bang(text: &str) -> (r: String)
    ensures
        r@ == "! "@ + text@,
{
    let mut c = chars_of("! ");
    push_str(&mut c, text);
    string_of(c.as_slice())
}

/// What could not be read.
fn note_widgets(lang: &str, flags: &Flags) -> (r: Vec<Widget>)
    ensures
        widget_views(r@) == notes(lang@, flags@),
{
    let mut ws: Vec<Widget> = Vec::new();
    if flags.no_oem {
        let t = tr(lang, "note.no_oem");
        ws.push(Widget::Label { text: bang(t.as_str()), style: Style::Weak });
        ws.push(Widget::Button(button(tr(lang, "note.read_oem"), "read_oem", false, false)));
    }
    let ghost first = widget_views(ws@);
    if !flags.error.as_str().is_empty() {
        ws.push(Widget::Label { text: bang(flags.error.as_str()), style: Style::Weak });
    }
    assert(widget_views(ws@) =~= notes(lang@, flags@));
    ws
}

/// The row of actions.
fn action_row(lang: &str, report: bool) -> (r: Widget)
    ensures
        r@ == actions(lang@, report),
{
    let mut bs: Vec<Button> = Vec::new();
    bs.push(button(tr(lang, "ui.rescan"), "scan", false, false));
    if report {
        bs.push(button(tr(lang, "ui.report"), "make_report", false, true));
    }
    assert(button_views(bs@) =~= match actions(lang@, report) {
        WidgetV::Row(b) => b,
        _ => Seq::empty(),
    });
    Widget::Row(bs)
}

/// The rows for one family's licences.
fn family_rows(lang: &str, lics: &[License], kind: &str) -> (r: Vec<Vec<String>>)
    ensures
        r.deep_view() == rows_of_kind(lang@, license_views(lics@), kind@),
{
    let mut rows: Vec<Vec<String>> = Vec::new();
    let mut i: usize = 0;
    let ghost all = license_views(lics@);
    assert(all.take(0) =~= Seq::<LicenseV>::empty());
    assert(rows.deep_view() =~= Seq::<Seq<Seq<char>>>::empty());
    while i < lics.len()
        invariant
            i <= lics@.len(),
            all == license_views(lics@),
            rows.deep_view() == rows_of_kind(lang@, all.take(i as int), kind@),
        decreases lics@.len() - i,
    {
        assert(all.take(i + 1).drop_last() =~= all.take(i as int));
        if crate::text::same_text(lics[i].kind.as_str(), kind) {
            let row = cells(lang, &lics[i]);
            let ghost before = rows.deep_view();
            rows.push(row);
            assert(rows.deep_view() =~= before.push(cells_of(lang@, all[i as int])));
        }
        i = i + 1;
    }
    assert(all.take(lics@.len() as int) =~= all);
    rows
}

/// One family's table under its heading.
fn family_widgets(lang: &str, lics: &[License], kind: &str, heading: &str) -> (r: Vec<Widget>)
    ensures
        widget_views(r@) == family_section(lang@, license_views(lics@), kind@, heading@),
{
    let rows = family_rows(lang, lics, kind);
    let mut ws: Vec<Widget> = Vec::new();
    if rows.len() > 0 {
        ws.push(Widget::Separator);
        ws.push(Widget::Label { text: tr(lang, heading), style: Style::Strong });
        ws.push(Widget::Table { columns: columns(lang), rows });
    }
    assert(widget_views(ws@) =~= family_section(lang@, license_views(lics@), kind@, heading@));
    ws
}

/// The details table under its heading.
fn details_widgets(lang: &str, facts: &[Fact]) -> (r: Vec<Widget>)
    ensures
        widget_views(r@) == details_section(lang@, fact_views(facts@)),
{
    let mut ws: Vec<Widget> = Vec::new();
    if facts.len() > 0 {
        let mut rows: Vec<Vec<String>> = Vec::new();
        let mut i: usize = 0;
        let ghost all = fact_views(facts@);
        assert(rows.deep_view() =~= fact_rows(all.take(0)));
        while i < facts.len()
            invariant
                i <= facts@.len(),
                all == fact_views(facts@),
                rows.deep_view() == fact_rows(all.take(i as int)),
            decreases facts@.len() - i,
        {
            let row = vec![facts[i].item.clone(), facts[i].value.clone()];
            let ghost before = rows.deep_view();
            assert(row.deep_view() =~= seq![all[i as int].item, all[i as int].value]);
            rows.push(row);
            assert(rows.deep_view() =~= before.push(seq![all[i as int].item, all[i as int].value]));
            assert(all.take(i + 1) =~= all.take(i as int).push(all[i as int]));
            assert(rows.deep_view() =~= fact_rows(all.take(i + 1)));
            i = i + 1;
        }
        assert(all.take(facts@.len() as int) =~= all);
        let cols = vec![tr(lang, "col.item"), tr(lang, "col.value")];
        assert(cols.deep_view() =~= seq![word(lang@, "col.item"), word(lang@, "col.value")]);
        ws.push(Widget::Separator);
        ws.push(Widget::Label { text: tr(lang, "ui.details"), style: Style::Strong });
        ws.push(Widget::Table { columns: cols, rows });
    }
    assert(widget_views(ws@) =~= details_section(lang@, fact_views(facts@)));
    ws
}

/// The results: a headline, whatever could not be read, and a table per
/// product family.
pub fn results_view(lang: &str, lics: &[License], facts: &[Fact], flags: &Flags, report: bool) -> (r: Window)
    ensures
        r@ == results_screen(lang@, license_views(lics@), fact_views(facts@), flags@, report),
{
    let mut ws: Vec<Widget> = Vec::new();
    ws.push(headline_label(lang, lics));
    let mut part = note_widgets(lang, flags);
    ws.append(&mut part);
    ws.push(action_row(lang, report));
    let mut part = family_widgets(lang, lics, "windows", "kind.windows");
    ws.append(&mut part);
    let mut part = family_widgets(lang, lics, "office", "kind.office");
    ws.append(&mut part);
    let mut part = family_widgets(lang, lics, "other", "kind.other");
    ws.append(&mut part);
    let mut part = details_widgets(lang, facts);
    ws.append(&mut part);
    assert(widget_views(ws@) =~= results_screen(lang@, license_views(lics@), fact_views(facts@), flags@, report).widgets);
    Window::new(tr(lang, "ui.title"), ws)
}

} // verus!
