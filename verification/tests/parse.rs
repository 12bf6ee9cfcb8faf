//! Reading back what the query printed.

use ms_licenses::{parse, query, status_name};

/// One licence line, as the query writes it: nine fields, of which the last
/// three are empty on an ordinary product.
fn lic(kind: &str, name: &str, status: &str) -> String {
    format!("lic|{kind}|{name}|{status}|Retail|T3FG2|||")
}

/// A whole run: the begin marker, some licences, and a fact.
fn sample() -> String {
    [
        "#begin",
        &lic("windows", "Windows(R), Professional edition", "1"),
        &lic("office", "Office 16, Office16ProPlusVL_KMS_Client edition", "2"),
        "fact|windows|Client machine id|abc-123",
        "",
    ]
    .join("\n")
}

#[test]
fn a_run_yields_its_licences_and_its_facts() {
    let (lics, facts, flags) = parse(&sample());
    assert!(flags.ran, "the begin marker says the query got going");
    assert_eq!(lics.len(), 2);
    assert_eq!(facts.len(), 1);
    assert_eq!(facts[0].section, "windows");
    assert_eq!(facts[0].item, "Client machine id");
    assert_eq!(facts[0].value, "abc-123");
    assert!(flags.error.is_empty());
}

#[test]
fn a_run_that_never_started_says_so() {
    let (lics, _, flags) = parse("");
    assert!(!flags.ran);
    assert!(lics.is_empty());
}

#[test]
fn the_unreadable_oem_key_is_reported() {
    let (_, _, flags) = parse("#begin\n#no-oem\n");
    assert!(flags.no_oem);

    let (_, _, flags) = parse(&sample());
    assert!(!flags.no_oem, "nothing said means nothing missing");
}

#[test]
fn an_error_from_the_query_is_carried_out() {
    let (_, _, flags) = parse("#begin\n#err=Access denied reading the service\n");
    assert_eq!(flags.error, "Access denied reading the service");
}

#[test]
fn the_status_codes_are_named_and_only_one_is_licensed() {
    for (code, name) in [
        ("0", "unlicensed"),
        ("1", "licensed"),
        ("2", "grace"),
        ("3", "grace"),
        ("4", "non_genuine"),
        ("5", "notification"),
        ("6", "grace"),
    ] {
        assert_eq!(status_name(code), name, "status {code}");
    }
    for code in ["0", "2", "3", "4", "5", "6"] {
        let (lics, _, _) = parse(&format!("#begin\n{}", lic("windows", "W", code)));
        assert!(!lics[0].ok(), "status {code} is not licensed");
    }
    let (lics, _, _) = parse(&format!("#begin\n{}", lic("windows", "W", "1")));
    assert!(lics[0].ok());
}

#[test]
fn an_unknown_status_keeps_its_number() {
    let (lics, _, _) = parse(&format!("#begin\n{}", lic("windows", "W", "9")));
    assert_eq!(lics[0].status, "9");
    assert!(!lics[0].ok());
}

#[test]
fn what_needs_attention_comes_first_within_its_family() {
    let out = [
        "#begin",
        &lic("other", "Some other product", "1"),
        &lic("office", "Office licensed", "1"),
        &lic("office", "Office unlicensed", "0"),
        &lic("windows", "Windows licensed", "1"),
        &lic("windows", "Windows grace", "2"),
    ]
    .join("\n");
    let (lics, _, _) = parse(&out);
    let names: Vec<&str> = lics.iter().map(|l| l.name.as_str()).collect();
    assert_eq!(
        names,
        [
            "Windows grace",
            "Windows licensed",
            "Office unlicensed",
            "Office licensed",
            "Some other product",
        ]
    );
}

#[test]
fn the_kms_host_and_the_grace_period_survive() {
    let line = "lic|windows|Windows|2|Volume:MAK|T3FG2|17 days|kms.example.org:1688|desc";
    let (lics, _, _) = parse(&format!("#begin\n{line}"));
    let l = &lics[0];
    assert_eq!(l.channel, "Volume:MAK");
    assert_eq!(l.expires, "17 days");
    assert_eq!(l.kms, "kms.example.org:1688");
    assert_eq!(l.description, "desc");
    assert_eq!(l.status, "grace");
}

#[test]
fn only_the_partial_key_is_ever_present() {
    let (lics, _, _) = parse(&sample());
    for l in &lics {
        assert_eq!(l.key.len(), 5, "{:?} is not a partial key", l.key);
    }
    assert!(
        !query().contains("DigitalProductId") && !query().contains("BackupProductKeyDefault"),
        "the query must not reach for the full key"
    );
}

#[test]
fn lines_that_are_not_records_are_left_alone() {
    let out = [
        "#begin",
        "",
        "   ",
        "WARNING: something the shell wanted to say",
        "lic|windows|Too|few|fields",
        &lic("windows", "Real", "1"),
    ]
    .join("\n");
    let (lics, facts, flags) = parse(&out);
    assert!(flags.ran);
    assert!(facts.is_empty());
    assert_eq!(lics.len(), 1, "only the whole record is a licence");
    assert_eq!(lics[0].name, "Real");
}

#[test]
fn a_value_holding_a_separator_arrives_whole() {
    let (_, facts, _) = parse("#begin\nfact|windows|Item|a|b|c");
    assert_eq!(facts[0].value, "a|b|c");
}

#[test]
fn windows_line_endings_and_padding_are_read_through() {
    let out = "#begin\r\n  lic | windows | W | 1 | Retail | T3FG2 | | | \r\n#no-oem \r\n";
    let (lics, _, flags) = parse(out);
    assert!(flags.ran);
    assert!(flags.no_oem);
    assert_eq!(lics.len(), 1);
    assert_eq!(lics[0].name, "W");
    assert_eq!(lics[0].key, "T3FG2");
    assert_eq!(lics[0].description, "");
}

#[test]
fn a_marker_must_start_the_line() {
    let (_, _, flags) = parse("  #begin\n# no-oem");
    assert!(!flags.ran);
    assert!(!flags.no_oem);
}

#[test]
fn the_last_error_wins_and_is_trimmed() {
    let (_, _, flags) = parse("#begin\n#err=first\n#err=  second one  \n");
    assert_eq!(flags.error, "second one");
}

#[test]
fn names_tie_break_without_regard_to_case() {
    let out = [
        "#begin",
        &lic("windows", "beta", "1"),
        &lic("windows", "Alpha", "1"),
        &lic("windows", "alpha", "1"),
        &lic("other", "Zed", "0"),
        &lic("custom", "Aaa", "0"),
    ]
    .join("\n");
    let (lics, _, _) = parse(&out);
    let names: Vec<&str> = lics.iter().map(|l| l.name.as_str()).collect();
    // Equal names keep the order they came in; an unknown family ranks with
    // "other", and among those the names decide.
    assert_eq!(names, ["Alpha", "alpha", "beta", "Aaa", "Zed"]);
}

#[test]
fn the_query_carries_both_application_ids() {
    let q = query();
    assert!(q.contains("'55c92734-d682-4d71-983e-d6ec3f16059f'"));
    assert!(q.contains("'0ff1ce15-a989-479d-af46-f275c6370663'"));
    assert!(!q.contains("__WINDOWS_APP_ID__"));
    assert!(!q.contains("__OFFICE_APP_ID__"));
    assert!(q.starts_with("\n$ErrorActionPreference = 'SilentlyContinue'"));
}

#[test]
fn a_run_cut_short_keeps_its_complete_lines() {
    let whole = sample();
    let cut = &whole[..whole.find("fact|").unwrap() + 7];
    let (lics, facts, flags) = parse(cut);
    assert!(flags.ran);
    assert_eq!(lics.len(), 2, "both complete licence lines survive the cut");
    assert!(facts.is_empty(), "the cut line is not a whole record");
}

#[test]
fn marker_lines_add_no_record() {
    let with = [
        "#begin",
        &lic("windows", "Windows Pro", "1"),
        "#no-oem",
        "#err=something",
        "#lic|windows|Hidden|1|Retail|X||||",
        "fact|windows|Client machine id|abc",
    ]
    .join("\n");
    let without = ["#begin", &lic("windows", "Windows Pro", "1"), "fact|windows|Client machine id|abc"].join("\n");
    let (l1, f1, flags) = parse(&with);
    let (l2, f2, _) = parse(&without);
    assert_eq!(l1.len(), 1);
    assert_eq!(l1.len(), l2.len());
    assert_eq!(l1[0].name, l2[0].name);
    assert_eq!(f1.len(), f2.len());
    assert!(flags.no_oem);
    assert_eq!(flags.error, "something");
}

#[test]
fn an_error_line_is_read_after_trailing_padding_is_dropped() {
    let (_, _, flags) = parse("#begin\r\n#err=  denied \r\n#no-oem \r\n");
    assert_eq!(flags.error, "denied");
    assert!(flags.no_oem);
    let (_, _, flags) = parse("#begin\n#errx=not an error\n");
    assert_eq!(flags.error, "");
}
