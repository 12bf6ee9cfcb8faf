//! The one field that needs administrator, and what is asked for to get it.

use ms_licenses::{authorizing_view, oem_argv, oem_key_from, parse, results_view, tr, Widget, Window, CAP};

fn lic(kind: &str, name: &str, status: &str) -> String {
    format!("lic|{kind}|{name}|{status}|Retail|T3FG2|||")
}

/// Every text a screen holds, one after another.
fn screen_text(w: &Window) -> String {
    let mut out = vec![w.title.clone()];
    for widget in &w.widgets {
        match widget {
            Widget::Label { text, .. } => out.push(text.clone()),
            Widget::Button(b) => out.extend([b.text.clone(), b.action.method.clone()]),
            Widget::Separator => {}
            Widget::Row(bs) => {
                for b in bs {
                    out.extend([b.text.clone(), b.action.method.clone()]);
                }
            }
            Widget::Table { columns, rows } => {
                out.extend(columns.iter().cloned());
                for r in rows {
                    out.extend(r.iter().cloned());
                }
            }
            Widget::Step { text, state } => out.extend([text.clone(), state.clone()]),
        }
    }
    out.join("\n")
}

#[test]
fn the_unreadable_field_comes_with_a_way_to_read_it() {
    let (lics, facts, flags) = parse(&format!("#begin\n#no-oem\n{}", lic("windows", "W", "1")));
    let v = screen_text(&results_view("en", &lics, &facts, &flags, false));
    assert!(v.contains("could not be read"), "{v}");
    assert!(v.contains("Read it as administrator"), "{v}");
    assert!(v.contains("read_oem"), "the button calls the method: {v}");

    let (lics, facts, flags) = parse(&format!("#begin\n{}", lic("windows", "W", "1")));
    let v = screen_text(&results_view("en", &lics, &facts, &flags, false));
    assert!(!v.contains("Read it as administrator"), "{v}");
}

#[test]
fn the_prompt_screen_explains_itself_and_does_not_get_stuck() {
    let v = authorizing_view("en");
    let s = screen_text(&v);
    assert_eq!(v.modal.as_ref().map(|m| m.id.as_str()), Some("ms-licenses.authorizing"));
    assert!(s.contains("Waiting for you to allow it"), "{s}");
    assert!(s.contains("OEM key"), "{s}");
    assert!(s.contains("nothing else is elevated"), "{s}");
    let auto = v.auto.as_ref().expect("it polls itself");
    assert_eq!(auto.method, "oem_poll", "it polls itself");
    assert_eq!(auto.capability, CAP);
}

#[test]
fn only_the_one_property_is_run_with_privileges() {
    let argv = oem_argv(r"C:\Windows", r"C:\base\modules\ms-licenses\.oem-key");
    let script = argv.last().expect("the command");

    assert!(script.contains("OA3xOriginalProductKey"), "{script}");
    assert!(!script.contains("SoftwareLicensingProduct"), "{script}");
    for forbidden in ["Set-CimInstance", "InstallProductKey", "Activate", "Rearm"] {
        assert!(!script.contains(forbidden), "{forbidden} in: {script}");
    }
}

#[test]
fn what_is_elevated_is_named_absolutely() {
    let argv = oem_argv(r"C:\Windows", r"C:\base\.oem-key");
    let exe = &argv[0];
    assert!(exe.ends_with("powershell.exe"), "{exe}");
    assert!(
        exe.contains(r"\System32\WindowsPowerShell\"),
        "the full path, not a name to look up: {exe}"
    );
    assert!(argv.contains(&"-NoProfile".to_string()), "{argv:?}");
    assert!(argv.contains(&"-NonInteractive".to_string()), "{argv:?}");
}

#[test]
fn the_elevated_flow_speaks_both_languages() {
    for lang in ["en", "uk"] {
        let s = screen_text(&authorizing_view(lang));
        for key in ["oem.title", "oem.authorizing", "oem.why"] {
            assert!(!s.contains(key), "{lang}: bare key {key} on screen: {s}");
        }
    }
    for key in ["oem.refused", "oem.unavailable", "oem.failed", "oem.none", "oem.item", "note.read_oem"] {
        let en = tr("en", key);
        let uk = tr("uk", key);
        assert_ne!(en, key, "en is missing {key}");
        assert_ne!(uk, en, "{key} is not translated");
    }
}

#[test]
fn a_quote_in_the_path_is_doubled() {
    let argv = oem_argv(r"C:\Windows", r"C:\it's here\.oem-key");
    assert_eq!(argv.len(), 5);
    assert_eq!(argv[0], r"C:\Windows\System32\WindowsPowerShell\v1.0\powershell.exe");
    assert_eq!(argv[3], "-Command");
    assert!(argv[4].contains(r"-LiteralPath 'C:\it''s here\.oem-key'"), "{}", argv[4]);
}

#[test]
fn what_the_file_held_is_read_back_without_its_line_ending() {
    assert_eq!(
        oem_key_from(Some("ABCDE-FGHIJ-KLMNO-PQRST-UVWXY\r\n")).as_deref(),
        Some("ABCDE-FGHIJ-KLMNO-PQRST-UVWXY")
    );
    for written in ["", "   ", "\r\n"] {
        assert_eq!(oem_key_from(Some(written)), None, "{written:?} is not a key");
    }
    assert_eq!(oem_key_from(None), None);
}
