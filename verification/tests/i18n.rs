//! That every string the code asks for exists, in both languages.

use ms_licenses::{
    error_view, failed_view, idle_view, keys, nothing_view, parse, report_spec, results_view, tr,
    ReportSpec, Widget, Window,
};

fn lic(kind: &str, name: &str, status: &str) -> String {
    format!("lic|{kind}|{name}|{status}|Retail|T3FG2|||")
}

/// Every text a screen holds, each on its own.
fn screen_strings(w: &Window) -> Vec<String> {
    let mut out = vec![w.title.clone()];
    for widget in &w.widgets {
        match widget {
            Widget::Label { text, .. } => out.push(text.clone()),
            Widget::Button(b) => out.extend([b.text.clone(), b.action.method.clone()]),
            Widget::Separator => {}
            Widget::Row(bs) => {
                for b in bs {
                    out.extend([b.text.clone(), b.action.method.clone()]);
                }
            }
            Widget::Table { columns, rows } => {
                out.extend(columns.iter().cloned());
                for r in rows {
                    out.extend(r.iter().cloned());
                }
            }
            Widget::Step { text, state } => out.extend([text.clone(), state.clone()]),
        }
    }
    out
}

/// Every text a report holds, each on its own.
fn report_strings(r: &ReportSpec) -> Vec<String> {
    let mut out = vec![r.title.clone(), r.subtitle.clone(), r.format.clone()];
    out.extend(r.summary.iter().cloned());
    for c in &r.charts {
        out.push(c.title.clone());
        out.extend(c.data.iter().map(|(label, _)| label.clone()));
    }
    for s in &r.sections {
        out.push(s.heading.clone());
        out.extend(s.columns.iter().cloned());
        for row in &s.rows {
            out.extend(row.iter().cloned());
        }
    }
    out
}

#[test]
fn ukrainian_covers_every_english_key() {
    let en = keys("en");
    let uk = keys("uk");
    let missing: Vec<&&str> = en.iter().filter(|k| !uk.contains(k)).collect();
    assert!(missing.is_empty(), "uk is missing: {missing:?}");

    let extra: Vec<&&str> = uk.iter().filter(|k| !en.contains(k)).collect();
    assert!(extra.is_empty(), "uk carries keys nothing asks for: {extra:?}");
}

#[test]
fn no_screen_shows_a_bare_translation_key() {
    let (lics, facts, flags) = parse(&format!(
        "#begin\n#no-oem\n{}\n{}\nfact|windows|Client machine id|abc",
        lic("windows", "W", "1"),
        lic("other", "Something else", "0")
    ));
    for lang in ["en", "uk"] {
        let screens = [
            screen_strings(&idle_view(lang)),
            screen_strings(&error_view(lang, "why")),
            screen_strings(&results_view(lang, &lics, &facts, &flags, true)),
            screen_strings(&nothing_view(lang)),
            screen_strings(&failed_view(lang, "why")),
            report_strings(&report_spec(lang, &lics, &facts)),
        ];
        for screen in screens {
            for key in keys("en") {
                if key.starts_with("module.") {
                    continue;
                }
                assert!(
                    !screen.iter().any(|s| s == key),
                    "{lang}: untranslated key on screen: {key}"
                );
            }
        }
    }
}

#[test]
fn the_numbers_reach_the_sentences_that_hold_them() {
    let (lics, facts, flags) = parse(&format!(
        "#begin\n{}\n{}",
        lic("windows", "W", "0"),
        lic("office", "O", "1")
    ));
    for lang in ["en", "uk"] {
        let v = screen_strings(&results_view(lang, &lics, &facts, &flags, false)).join("\n");
        assert!(v.contains('1'), "{lang}: the count is missing: {v}");
        assert!(!v.contains("{n}"), "{lang}: a placeholder survived: {v}");

        let r = report_strings(&report_spec(lang, &lics, &facts)).join("\n");
        assert!(!r.contains("{n}"), "{lang}: {r}");
        assert!(!r.contains("{total}") && !r.contains("{bad}"), "{lang}: {r}");
    }
}

#[test]
fn the_translation_is_a_translation() {
    for key in ["ui.title", "ui.scan", "status.licensed", "report.title"] {
        assert_ne!(tr("en", key), tr("uk", key), "{key} is the same in both languages");
    }
}

#[test]
fn an_unknown_key_is_shown_as_itself_and_an_unknown_language_reads_english() {
    assert_eq!(tr("en", "no.such.key"), "no.such.key");
    assert_eq!(tr("de", "ui.scan"), "Check licences");
    assert_eq!(tr("uk", "ui.scan"), "Перевірити ліцензії");
    assert!(keys("de").is_empty());
}
