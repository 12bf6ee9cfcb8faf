//! What a call does, and what is remembered between calls.

use ms_licenses::{Level, LicensesAnswer, MsLicenses, OemPoll, OemStart, ReadError, Scalar, Widget, Window};

fn lic(kind: &str, name: &str, status: &str) -> String {
    format!("lic|{kind}|{name}|{status}|Retail|T3FG2|||")
}

fn run() -> String {
    format!(
        "#begin\n#no-oem\n{}\n{}\n{}\nfact|windows|Client machine id|abc",
        lic("windows", "Windows Pro", "1"),
        lic("office", "Office 16", "0"),
        lic("other", "Thing", "2")
    )
}

fn labels(w: &Window) -> Vec<String> {
    w.widgets
        .iter()
        .filter_map(|x| match x {
            Widget::Label { text, .. } => Some(text.clone()),
            _ => None,
        })
        .collect()
}

fn names(a: &LicensesAnswer) -> Vec<String> {
    match a {
        LicensesAnswer::Scanned { licenses, .. } => licenses
            .iter()
            .map(|r| match &r[1] {
                ("name", Scalar::Text(n)) => n.clone(),
                other => panic!("{other:?}"),
            })
            .collect(),
        other => panic!("{other:?}"),
    }
}

#[test]
fn a_fresh_module_shows_the_landing_screen_and_has_nothing_to_say() {
    let m = MsLicenses::new();
    let v = m.render("en", false);
    assert!(labels(&v)[0].contains("Nothing is activated"));
    match m.licenses("", None) {
        LicensesAnswer::NotScanned { error } => assert_eq!(error, "nothing scanned yet"),
        other => panic!("{other:?}"),
    }
    assert!(m.make_report("en").is_err());
}

#[test]
fn a_scan_is_remembered_and_answered_from() {
    let mut m = MsLicenses::new();
    let v = m.scan("en", Ok(run()), false);
    assert_eq!(v.title, "Windows & Office licences");
    assert!(labels(&v)[0].contains("2 product(s) need attention"));
    match m.licenses("", None) {
        LicensesAnswer::Scanned { total, licensed, facts, .. } => {
            assert_eq!(total, 3);
            assert_eq!(licensed, 1);
            assert_eq!(facts.len(), 1);
        }
        other => panic!("{other:?}"),
    }
    assert_eq!(names(&m.licenses("  Office ", None)), ["Office 16"]);
    assert_eq!(names(&m.licenses("", Some(false))), ["Office 16", "Thing"]);
    assert_eq!(names(&m.licenses("windows", Some(true))), ["Windows Pro"]);
    assert!(names(&m.licenses("windows", Some(false))).is_empty());
    assert!(m.make_report("en").is_ok());
}

#[test]
fn a_failed_scan_forgets_what_was_shown_before() {
    let mut m = MsLicenses::new();
    m.scan("en", Ok(run()), false);
    let v = m.scan("en", Err(ReadError::Other("the service is stopped".to_string())), false);
    assert_eq!(labels(&v), ["the service is stopped"]);
    match m.licenses("", None) {
        LicensesAnswer::NotScanned { error } => assert_eq!(error, "the service is stopped"),
        other => panic!("{other:?}"),
    }

    let v = m.scan("en", Ok("no marker here".to_string()), false);
    assert!(labels(&v)[0].contains("PowerShell could not be run"));
    let v = m.scan("en", Err(ReadError::NoPowerShell), false);
    assert!(labels(&v)[0].contains("PowerShell could not be run"));
}

#[test]
fn the_privileged_read_goes_from_prompt_to_fact() {
    let mut m = MsLicenses::new();
    m.scan("en", Ok(run()), false);
    let v = m.read_oem("en", OemStart::Started { id: 7, file: "C:\\m\\.oem-key".to_string() }, false);
    assert!(v.modal.is_some());
    assert_eq!(m.oem_in_flight(), Some((7, "C:\\m\\.oem-key".to_string())));

    let v = m.oem_poll("en", OemPoll::Waiting, false);
    assert!(v.modal.is_some(), "still waiting");

    let v = m.oem_poll(
        "en",
        OemPoll::Done { ok: true, refused: false, unavailable: false, key: Some("ABCDE-12345".to_string()) },
        false,
    );
    assert!(m.oem_in_flight().is_none());
    assert!(v.notice.is_none());
    let shown: Vec<String> = labels(&v);
    assert!(!shown.iter().any(|l| l.contains("could not be read")), "the note is gone: {shown:?}");
    let in_table = v.widgets.iter().any(|x| match x {
        Widget::Table { rows, .. } => rows.iter().any(|r| r == &["OEM key in firmware", "ABCDE-12345"]),
        _ => false,
    });
    assert!(in_table, "the key is a fact like the others");
}

#[test]
fn a_refused_or_empty_read_says_so() {
    let mut m = MsLicenses::new();
    m.scan("en", Ok(run()), false);
    m.read_oem("en", OemStart::Started { id: 1, file: "f".to_string() }, false);
    let v = m.oem_poll("en", OemPoll::Done { ok: false, refused: true, unavailable: false, key: None }, false);
    let n = v.notice.expect("a notice");
    assert_eq!(n.level, Level::Info);
    assert!(n.text.contains("declined"));

    m.read_oem("en", OemStart::Started { id: 2, file: "f".to_string() }, false);
    let v = m.oem_poll("en", OemPoll::Done { ok: true, refused: false, unavailable: false, key: None }, false);
    let n = v.notice.expect("a notice");
    assert_eq!(n.level, Level::Success);
    assert!(n.text.contains("no OEM key"));

    // Nothing in flight: a late poll only redraws.
    let v = m.oem_poll("en", OemPoll::Waiting, false);
    assert!(v.modal.is_none());
}

#[test]
fn asking_without_a_place_or_a_way_to_ask_changes_nothing() {
    let mut m = MsLicenses::new();
    let v = m.read_oem("en", OemStart::NoModuleDir, false);
    assert_eq!(v.notice.expect("a notice").level, Level::Error);
    let v = m.read_oem("en", OemStart::Unavailable, false);
    assert_eq!(v.notice.expect("a notice").level, Level::Warning);
    assert!(m.oem_in_flight().is_none());
}

fn total(a: &LicensesAnswer) -> usize {
    match a {
        LicensesAnswer::Scanned { total, .. } => *total,
        other => panic!("{other:?}"),
    }
}

#[test]
fn a_blank_kind_asks_for_every_family() {
    let mut m = MsLicenses::new();
    m.scan("en", Ok(run()), false);
    assert_eq!(names(&m.licenses(" \t ", None)), names(&m.licenses("", None)));
    assert_eq!(total(&m.licenses("   ", None)), 3);
}

#[test]
fn the_kind_is_read_without_case_or_padding() {
    let mut m = MsLicenses::new();
    m.scan("en", Ok(run()), false);
    assert_eq!(names(&m.licenses(" Office ", None)), names(&m.licenses("office", None)));
    assert_eq!(names(&m.licenses("WINDOWS", None)), ["Windows Pro"]);
    assert!(names(&m.licenses("nothing of the kind", None)).is_empty());
}

#[test]
fn the_families_and_the_statuses_add_up_to_the_total() {
    let mut m = MsLicenses::new();
    m.scan("en", Ok(run()), false);
    for ok in [None, Some(true), Some(false)] {
        let by_family: usize = ["windows", "office", "other"].iter().map(|k| total(&m.licenses(k, ok))).sum();
        assert_eq!(by_family, total(&m.licenses("", ok)));
    }
    for kind in ["", "windows", "office", "other"] {
        assert_eq!(
            total(&m.licenses(kind, Some(true))) + total(&m.licenses(kind, Some(false))),
            total(&m.licenses(kind, None))
        );
    }
}

#[test]
fn asking_for_what_is_not_licensed_answers_none_that_is() {
    let mut m = MsLicenses::new();
    m.scan("en", Ok(run()), false);
    match m.licenses("", Some(false)) {
        LicensesAnswer::Scanned { total, licensed, .. } => {
            assert_eq!(total, 2);
            assert_eq!(licensed, 0);
        }
        other => panic!("{other:?}"),
    }
}
