//! What a report provider is handed, and what comes back.

use ms_licenses::{delivered, failed_view, nothing_view, parse, report_spec, ReportSpec, Widget, Window};

fn lic(kind: &str, name: &str, status: &str) -> String {
    format!("lic|{kind}|{name}|{status}|Retail|T3FG2|||")
}

/// Every text a screen holds, one after another.
fn screen_text(w: &Window) -> String {
    let mut out = vec![w.title.clone()];
    for widget in &w.widgets {
        match widget {
            Widget::Label { text, .. } => out.push(text.clone()),
            Widget::Button(b) => out.extend([b.text.clone(), b.action.method.clone()]),
            Widget::Separator => {}
            Widget::Row(bs) => {
                for b in bs {
                    out.extend([b.text.clone(), b.action.method.clone()]);
                }
            }
            Widget::Table { columns, rows } => {
                out.extend(columns.iter().cloned());
                for r in rows {
                    out.extend(r.iter().cloned());
                }
            }
            Widget::Step { text, state } => out.extend([text.clone(), state.clone()]),
        }
    }
    out.join("\n")
}

/// Every text a report holds, one after another.
fn report_text(r: &ReportSpec) -> String {
    let mut out = vec![r.title.clone(), r.subtitle.clone(), r.format.clone()];
    out.extend(r.summary.iter().cloned());
    for c in &r.charts {
        out.push(c.title.clone());
        for (label, n) in &c.data {
            out.push(format!("{label}: {n}"));
        }
    }
    for s in &r.sections {
        out.push(s.heading.clone());
        out.extend(s.columns.iter().cloned());
        for row in &s.rows {
            out.extend(row.iter().cloned());
        }
    }
    out.join("\n")
}

#[test]
fn the_report_carries_the_scan_and_says_what_is_in_it() {
    let (lics, facts, _) = parse(&format!(
        "#begin\n{}\n{}\nfact|windows|Client machine id|abc-123",
        lic("windows", "Windows Pro", "1"),
        lic("office", "Office 16", "0")
    ));
    let spec = report_spec("en", &lics, &facts);

    assert_eq!(spec.format, "view");
    assert_eq!(spec.title, "Licence report");
    let s = report_text(&spec);
    assert!(s.contains("Products found: 2"), "{s}");
    assert!(s.contains("Not properly licensed: 1"), "{s}");
    assert_eq!(spec.sections.len(), 2);
    assert!(s.contains("Windows Pro") && s.contains("Office 16"));
    assert!(s.contains("abc-123"));
}

#[test]
fn the_chart_counts_each_status_by_name() {
    let (lics, facts, _) = parse(&format!(
        "#begin\n{}\n{}\n{}",
        lic("windows", "A", "1"),
        lic("office", "B", "1"),
        lic("office", "C", "0")
    ));
    let spec = report_spec("en", &lics, &facts);
    let data = &spec.charts[0].data;
    assert_eq!(data[0].0, "Licensed");
    assert_eq!(data[0].1, 2);
    assert_eq!(data[1].0, "Not licensed");
    assert_eq!(data[1].1, 1);
}

#[test]
fn a_report_of_nothing_carries_no_chart() {
    let spec = report_spec("en", &[], &[]);
    assert!(spec.charts.is_empty());
    assert_eq!(spec.sections.len(), 1);
}

#[test]
fn a_rendered_report_is_shown_as_it_came_back() {
    // A provider that answers with a view is shown as it is: there is nothing
    // of this module's own to draw over it.
    assert!(delivered("en", true).is_none());
}

#[test]
fn an_exported_report_still_says_something() {
    let v = screen_text(&delivered("en", false).expect("a screen of its own"));
    assert!(v.contains("Report exported"), "{v}");
    assert!(v.contains("opened in your default app"), "{v}");
}

#[test]
fn a_failure_says_which_failure_it_was() {
    let v = screen_text(&failed_view("en", "no provider answered"));
    assert!(v.contains("Couldn't build the report"), "{v}");
    assert!(v.contains("no provider answered"), "{v}");

    let v = screen_text(&nothing_view("en"));
    assert!(v.contains("Nothing has been checked yet"), "{v}");
}

#[test]
fn equal_counts_go_alphabetically_and_raw_codes_keep_their_number() {
    let (lics, facts, _) = parse(&format!(
        "#begin\n{}\n{}\n{}\n{}",
        lic("windows", "A", "9"),
        lic("office", "B", "2"),
        lic("office", "C", "3"),
        lic("other", "D", "1")
    ));
    let spec = report_spec("en", &lics, &facts);
    let data = &spec.charts[0].data;
    assert_eq!(data.len(), 3);
    assert_eq!((data[0].0.as_str(), data[0].1), ("Grace period", 2));
    // "9" and "licensed" each once: "9" sorts before "licensed".
    assert_eq!((data[1].0.as_str(), data[1].1), ("9", 1));
    assert_eq!((data[2].0.as_str(), data[2].1), ("Licensed", 1));
    assert_eq!(spec.subtitle, "4 product(s), 3 not properly licensed");
}

#[test]
fn each_bar_counts_the_licences_with_its_status() {
    let (lics, facts, _) = parse(&format!(
        "#begin\n{}\n{}\n{}\n{}\n{}",
        lic("windows", "A", "1"),
        lic("office", "B", "5"),
        lic("office", "C", "0"),
        lic("other", "D", "5"),
        lic("other", "E", "1")
    ));
    let spec = report_spec("en", &lics, &facts);
    let data = &spec.charts[0].data;
    assert_eq!(data.len(), 3);
    let sum: usize = data.iter().map(|(_, n)| *n).sum();
    assert_eq!(sum, lics.len());
    assert_eq!(data[0].1, 2);
    assert_eq!(data[1].1, 2);
    assert_eq!(data[2], ("Not licensed".to_string(), 1));
}
