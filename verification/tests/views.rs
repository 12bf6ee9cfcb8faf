//! The screens: what they show, and what they refuse to claim.

use ms_licenses::{cells, error_view, idle_view, parse, results_view, Widget, Window};

fn lic(kind: &str, name: &str, status: &str) -> String {
    format!("lic|{kind}|{name}|{status}|Retail|T3FG2|||")
}

fn sample() -> String {
    [
        "#begin",
        &lic("windows", "Windows(R), Professional edition", "1"),
        &lic("office", "Office 16, Office16ProPlusVL_KMS_Client edition", "2"),
        "fact|windows|Client machine id|abc-123",
        "",
    ]
    .join("\n")
}

/// Every text a screen holds, one after another.
fn screen_text(w: &Window) -> String {
    let mut out = vec![w.title.clone()];
    for widget in &w.widgets {
        match widget {
            Widget::Label { text, .. } => out.push(text.clone()),
            Widget::Button(b) => out.extend([b.text.clone(), b.action.method.clone()]),
            Widget::Separator => {}
            Widget::Row(bs) => {
                for b in bs {
                    out.extend([b.text.clone(), b.action.method.clone()]);
                }
            }
            Widget::Table { columns, rows } => {
                out.extend(columns.iter().cloned());
                for r in rows {
                    out.extend(r.iter().cloned());
                }
            }
            Widget::Step { text, state } => out.extend([text.clone(), state.clone()]),
        }
    }
    out.join("\n")
}

fn has_table(w: &Window) -> bool {
    w.widgets.iter().any(|x| matches!(x, Widget::Table { .. }))
}

#[test]
fn nothing_is_read_until_it_is_asked_for() {
    let v = idle_view("en");
    let s = screen_text(&v);
    assert_eq!(v.title, "Windows & Office licences");
    assert!(s.contains("Check licences"));
    assert!(s.contains("Nothing is activated"), "{s}");
    assert!(!has_table(&v));
}

#[test]
fn the_headline_says_whether_anything_needs_attention() {
    let (ok, facts, flags) = parse(&format!("#begin\n{}", lic("windows", "W", "1")));
    let v = screen_text(&results_view("en", &ok, &facts, &flags, false));
    assert!(v.contains("Everything found is licensed"), "{v}");

    let (bad, facts, flags) = parse(&format!(
        "#begin\n{}\n{}",
        lic("windows", "W", "0"),
        lic("office", "O", "2")
    ));
    let v = screen_text(&results_view("en", &bad, &facts, &flags, false));
    assert!(v.contains("2 product(s) need attention"), "{v}");
}

#[test]
fn each_product_family_gets_its_own_table() {
    let (lics, facts, flags) = parse(&format!(
        "#begin\n{}\n{}",
        lic("windows", "Windows Pro", "1"),
        lic("office", "Office 16", "1")
    ));
    let w = results_view("en", &lics, &facts, &flags, false);
    let v = screen_text(&w);
    assert!(v.contains("Windows"), "{v}");
    assert!(v.contains("Office"), "{v}");
    assert!(!v.contains("Other products"), "{v}");
    assert_eq!(w.widgets.iter().filter(|x| matches!(x, Widget::Table { .. })).count(), 2);
}

#[test]
fn the_key_is_shown_as_the_fragment_it_is() {
    let (lics, _, _) = parse(&sample());
    assert_eq!(cells("en", &lics[0])[3], "·····-T3FG2");

    let line = "lic|windows|W|1|Retail||||";
    let (none, _, _) = parse(&format!("#begin\n{line}"));
    assert_eq!(cells("en", &none[0])[3], "");
}

#[test]
fn the_status_column_is_words_unless_it_cannot_be() {
    let (lics, _, _) = parse(&format!("#begin\n{}", lic("windows", "W", "2")));
    assert_eq!(cells("en", &lics[0])[1], "Grace period");

    let (odd, _, _) = parse(&format!("#begin\n{}", lic("windows", "W", "9")));
    assert_eq!(cells("en", &odd[0])[1], "9");
}

#[test]
fn what_could_not_be_read_is_said_on_the_screen() {
    let (lics, facts, flags) = parse(&format!("#begin\n#no-oem\n{}", lic("windows", "W", "1")));
    let v = screen_text(&results_view("en", &lics, &facts, &flags, false));
    assert!(v.contains("OEM key held in firmware could not be read"), "{v}");

    let (lics, facts, flags) = parse(&format!(
        "#begin\n#err=the service is stopped\n{}",
        lic("windows", "W", "1")
    ));
    let v = screen_text(&results_view("en", &lics, &facts, &flags, false));
    assert!(v.contains("the service is stopped"), "{v}");
}

#[test]
fn the_report_action_appears_only_with_a_provider() {
    let (lics, facts, flags) = parse(&sample());
    let without = screen_text(&results_view("en", &lics, &facts, &flags, false));
    assert!(!without.contains("Make report"), "{without}");

    let with = screen_text(&results_view("en", &lics, &facts, &flags, true));
    assert!(with.contains("Make report"), "{with}");
}

#[test]
fn an_error_screen_is_a_screen_you_can_leave() {
    let v = screen_text(&error_view("en", "PowerShell could not be run"));
    assert!(v.contains("PowerShell could not be run"), "{v}");
    assert!(v.contains("Check again"), "{v}");
}

#[test]
fn the_details_table_appears_only_when_there_are_details() {
    let (lics, facts, flags) = parse(&sample());
    let v = screen_text(&results_view("en", &lics, &facts, &flags, false));
    assert!(v.contains("Details"), "{v}");
    assert!(v.contains("abc-123"), "{v}");

    let (lics, _, flags) = parse(&format!("#begin\n{}", lic("windows", "W", "1")));
    let v = screen_text(&results_view("en", &lics, &[], &flags, false));
    assert!(!v.contains("Details"), "{v}");
}

#[test]
fn the_screen_follows_the_host_language() {
    let (lics, facts, flags) = parse(&format!("#begin\n{}", lic("windows", "W", "2")));
    let v = screen_text(&results_view("uk", &lics, &facts, &flags, true));
    assert!(v.contains("Ліцензії"), "the title is translated: {v}");
    assert!(v.contains("Пільговий"), "so is a status: {v}");
    assert!(!v.contains("Grace period"), "nothing English is left: {v}");
}

#[test]
fn the_results_screen_is_laid_out_in_order() {
    let (lics, facts, flags) = parse(&format!("#begin\n#no-oem\n#err=boom\n{}", lic("other", "X", "1")));
    let w = results_view("en", &lics, &facts, &flags, false);
    let kinds: Vec<&str> = w
        .widgets
        .iter()
        .map(|x| match x {
            Widget::Label { .. } => "label",
            Widget::Button(_) => "button",
            Widget::Separator => "separator",
            Widget::Row(_) => "row",
            Widget::Table { .. } => "table",
            Widget::Step { .. } => "step",
        })
        .collect();
    assert_eq!(kinds, ["label", "label", "button", "label", "row", "separator", "label", "table"]);
    match &w.widgets[3] {
        Widget::Label { text, .. } => assert_eq!(text, "! boom"),
        other => panic!("{other:?}"),
    }
    match &w.widgets[6] {
        Widget::Label { text, .. } => assert_eq!(text, "Other products"),
        other => panic!("{other:?}"),
    }
}
