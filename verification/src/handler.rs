//! The module itself: what it holds between calls, and what each call decides.
//!
//! Reading the store, asking the operating system for privileges, and calling
//! a report provider are the application's part. It does them and hands what
//! came back to the methods here, which decide what is remembered and what is
//! shown.

use vstd::prelude::*;
use crate::catalog::{translate, tr};
use crate::license::{
    Fact, FactV, Flags, FlagsV, License, LicenseV, Scalar, ScalarV, copy_fact, fact_views, license_views,
    record_of, record_view,
};
use crate::report::{ReportSpec, ReportV, nothing_screen, report_of, nothing_view, report_spec};
use crate::store::{is_no_oem_line, law_no_oem_key_only_with_its_marker, parse, parsed};
use crate::text::{
    ascii_lowercase, chars_of, is_ascii_text, lowercased, owned, split_on, string_of, to_lowercase, trim,
    trimmed,
};
use crate::view::{authorizing_screen, authorizing_view, error_screen, error_view, idle_screen, idle_view, results_screen, results_view};
use crate::widget::{Level, NoticeV, Window, WindowV};

verus! {

/// Why a scan produced nothing.
#[derive(Debug)]
pub enum ReadError {
    /// PowerShell could not be started at all.
    NoPowerShell,
    /// Anything else, carried as it was reported.
    Other(String),
}

/// How asking for the one privileged read went.
#[derive(Debug)]
pub enum OemStart {
    /// The host could not say where this module lives, so there is nowhere of
    /// its own to have the key written.
    NoModuleDir,
    /// The host would not ask: a platform that cannot, or a manifest that did
    /// not declare it.
    Unavailable,
    /// The prompt is up: the host's id for the run, and the file it was told
    /// to write.
    Started { id: u64, file: String },
}

/// Where the privileged read has got to.
#[derive(Debug)]
pub enum OemPoll {
    /// Still at the prompt, or running.
    Waiting,
    /// Finished: whether it succeeded, whether the user refused, whether it
    /// could not be asked at all, and the key the file held, if any.
    Done { ok: bool, refused: bool, unavailable: bool, key: Option<String> },
}

/// The last scan, held so that reopening the tab shows what was found rather
/// than setting a PowerShell process going on every draw.
pub struct MsLicenses {
    /// `None` until a scan has succeeded. Distinct from an empty list, which
    /// would be a machine on which nothing is licensed.
    lics: Option<Vec<License>>,
    facts: Vec<Fact>,
    flags: Flags,
    /// Why the last scan produced nothing.
    error: String,
    /// The privileged read in flight, if one is: the host's id for it, and the
    /// file it was told to write.
    oem: Option<(u64, String)>,
}

/// What the module holds, as plain values.
pub struct ModuleV {
    pub lics: Option<Seq<LicenseV>>,
    pub facts: Seq<FactV>,
    pub flags: FlagsV,
    pub error: Seq<char>,
    pub oem: Option<(u64, Seq<char>)>,
}

impl View for MsLicenses {
    type V = ModuleV;

    closed spec fn view(&self) -> ModuleV {
        ModuleV {
            lics: match self.lics {
                Some(l) => Some(license_views(l@)),
                None => None,
            },
            facts: fact_views(self.facts@),
            flags: self.flags@,
            error: self.error@,
            oem: match self.oem {
                Some(o) => Some((o.0, o.1@)),
                None => None,
            },
        }
    }
}

/// Flags that say nothing.
pub open spec fn no_flags() -> FlagsV {
    FlagsV { ran: false, no_oem: false, error: Seq::empty() }
}

/// Nothing scanned, nothing failed, nothing in flight.
pub open spec fn initial() -> ModuleV {
    ModuleV { lics: None, facts: Seq::empty(), flags: no_flags(), error: Seq::empty(), oem: None }
}

/// The state after a scan that produced nothing: the previous results are
/// dropped rather than left on screen under an error, and the reason is kept.
pub open spec fn failed(st: ModuleV, why: Seq<char>) -> ModuleV {
    ModuleV { lics: None, facts: Seq::empty(), flags: no_flags(), error: why, oem: st.oem }
}

/// The state after a scan, given what reading the store gave back. A run whose
/// begin marker is missing never got going, which is not the same as a
/// machine with nothing licensed, so it counts as a failure.
pub open spec fn after_scan(st: ModuleV, lang: Seq<char>, read: Result<String, ReadError>) -> ModuleV {
    match read {
        Ok(stdout) => {
            let p = parsed(stdout@);
            if !p.flags.ran {
                failed(st, translate(lang, "error.no_powershell"@))
            } else {
                ModuleV {
                    lics: Some(p.lics),
                    facts: p.facts,
                    flags: p.flags,
                    error: Seq::empty(),
                    oem: st.oem,
                }
            }
        },
        Err(ReadError::NoPowerShell) => failed(st, translate(lang, "error.no_powershell"@)),
        Err(ReadError::Other(e)) => failed(st, e@),
    }
}

/// Whatever the module should be showing: the results of the last scan, why
/// there are none, or the landing screen.
pub open spec fn render_screen(st: ModuleV, lang: Seq<char>, report: bool) -> WindowV {
    match st.lics {
        Some(lics) => results_screen(lang, lics, st.facts, st.flags, report),
        None => if st.error.len() > 0 {
            error_screen(lang, st.error)
        } else {
            idle_screen(lang)
        },
    }
}

/// A screen with a notice laid over it.
pub open spec fn noticed(w: WindowV, level: Level, text: Seq<char>) -> WindowV {
    WindowV { notice: Some(NoticeV { level, text }), ..w }
}

/// The state after asking for the privileged read: in flight only once the
/// prompt is up.
pub open spec fn after_oem_start(st: ModuleV, start: OemStart) -> ModuleV {
    match start {
        OemStart::Started { id, file } => ModuleV { oem: Some((id, file@)), ..st },
        _ => st,
    }
}

/// What asking for the privileged read shows.
pub open spec fn oem_start_screen(st: ModuleV, lang: Seq<char>, start: OemStart, report: bool) -> WindowV {
    match start {
        OemStart::NoModuleDir => noticed(
            render_screen(st, lang, report),
            Level::Error,
            translate(lang, "oem.failed"@),
        ),
        OemStart::Unavailable => noticed(
            render_screen(st, lang, report),
            Level::Warning,
            translate(lang, "oem.unavailable"@),
        ),
        OemStart::Started { .. } => authorizing_screen(lang),
    }
}

/// The state after a poll of the privileged read. Once it is done it is no
/// longer in flight; a key it read becomes a fact like the others, and the
/// note that it could not be read no longer applies; a run that was allowed
/// and found nothing is an answer too.
pub open spec fn after_oem_poll(st: ModuleV, lang: Seq<char>, poll: OemPoll) -> ModuleV {
    if st.oem is None {
        st
    } else {
        match poll {
            OemPoll::Waiting => st,
            OemPoll::Done { ok, key, .. } => if !ok {
                ModuleV { oem: None, ..st }
            } else {
                match key {
                    Some(k) => ModuleV {
                        oem: None,
                        facts: st.facts.push(
                            FactV { section: "windows"@, item: translate(lang, "oem.item"@), value: k@ },
                        ),
                        flags: FlagsV { no_oem: false, ..st.flags },
                        ..st
                    },
                    None => ModuleV { oem: None, flags: FlagsV { no_oem: false, ..st.flags }, ..st },
                }
            },
        }
    }
}

/// Why a finished privileged read read nothing, in the user's language.
pub open spec fn refusal_text(lang: Seq<char>, refused: bool, unavailable: bool) -> Seq<char> {
    if refused {
        translate(lang, "oem.refused"@)
    } else if unavailable {
        translate(lang, "oem.unavailable"@)
    } else {
        translate(lang, "oem.failed"@)
    }
}

/// What a poll of the privileged read shows: the same pop-up while it waits,
/// and the screen with how it went once it is done.
pub open spec fn oem_poll_screen(st: ModuleV, lang: Seq<char>, poll: OemPoll, report: bool) -> WindowV {
    let next = after_oem_poll(st, lang, poll);
    if st.oem is None {
        render_screen(st, lang, report)
    } else {
        match poll {
            OemPoll::Waiting => authorizing_screen(lang),
            OemPoll::Done { ok, refused, unavailable, key } => if !ok {
                noticed(
                    render_screen(next, lang, report),
                    if refused { Level::Info } else { Level::Warning },
                    refusal_text(lang, refused, unavailable),
                )
            } else {
                match key {
                    Some(_) => render_screen(next, lang, report),
                    None => noticed(
                        render_screen(next, lang, report),
                        Level::Success,
                        translate(lang, "oem.none"@),
                    ),
                }
            },
        }
    }
}

/// What the `licenses` method answers: that nothing has been scanned yet and
/// why, or the licences of the last scan that pass the filters, how many of
/// them are properly licensed, and the facts.
#[derive(Debug)]
pub enum LicensesAnswer {
    NotScanned { error: String },
    Scanned {
        total: usize,
        licensed: usize,
        licenses: Vec<Vec<(&'static str, Scalar)>>,
        facts: Vec<Fact>,
    },
}

/// An answer as plain values.
pub enum AnswerV {
    NotScanned { error: Seq<char> },
    Scanned {
        total: nat,
        licensed: nat,
        licenses: Seq<Seq<(&'static str, ScalarV)>>,
        facts: Seq<FactV>,
    },
}

impl View for LicensesAnswer {
    type V = AnswerV;

    open spec fn view(&self) -> AnswerV {
        match self {
            LicensesAnswer::NotScanned { error } => AnswerV::NotScanned { error: error@ },
            LicensesAnswer::Scanned { total, licensed, licenses, facts } => AnswerV::Scanned {
                total: *total as nat,
                licensed: *licensed as nat,
                licenses: licenses@.map_values(|r: Vec<(&'static str, Scalar)>| record_view(r@)),
                facts: fact_views(facts@),
            },
        }
    }
}

/// The family a caller asks for: what it passed, without surrounding white
/// space and in lowercase. Empty, when nothing but white space was passed,
/// asks for every family.
pub open spec fn kind_filter(raw: Seq<char>) -> Seq<char> {
    if trim(raw).len() == 0 {
        Seq::empty()
    } else {
        lowercased(trim(raw))
    }
}

/// Whether a licence passes the filters: of the family asked for (any, when
/// none is), and properly licensed or not as asked (either, when not asked).
pub open spec fn wanted(kind: Seq<char>, ok: Option<bool>, l: LicenseV) -> bool {
    &&& (kind.len() == 0 || l.kind == kind)
    &&& match ok {
        Some(want) => l.licensed() == want,
        None => true,
    }
}

/// The licences that pass the filters, in the order given.
pub open spec fn selected(lics: Seq<LicenseV>, kind: Seq<char>, ok: Option<bool>) -> Seq<LicenseV>
    decreases lics.len(),
{
    if lics.len() == 0 {
        Seq::empty()
    } else if wanted(kind, ok, lics.last()) {
        selected(lics.drop_last(), kind, ok).push(lics.last())
    } else {
        selected(lics.drop_last(), kind, ok)
    }
}

/// How many of the licences are properly licensed.
pub open spec fn count_licensed(lics: Seq<LicenseV>) -> nat
    decreases lics.len(),
{
    if lics.len() == 0 {
        0
    } else {
        count_licensed(lics.drop_last()) + if lics.last().licensed() {
            1nat
        } else {
            0nat
        }
    }
}

/// What `licenses` answers: from the last scan, never by scanning again.
pub open spec fn answer_of(st: ModuleV, raw_kind: Seq<char>, ok: Option<bool>) -> AnswerV {
    answer_for(st, kind_filter(raw_kind), ok)
}

/// The answer for the family filter `kind` (every family when it is empty).
pub open spec fn answer_for(st: ModuleV, kind: Seq<char>, ok: Option<bool>) -> AnswerV {
    match st.lics {
        None => AnswerV::NotScanned {
            error: if st.error.len() == 0 {
                "nothing scanned yet"@
            } else {
                st.error
            },
        },
        Some(lics) => {
            let rows = selected(lics, kind, ok);
            AnswerV::Scanned {
                total: rows.len(),
                licensed: count_licensed(rows),
                licenses: rows.map_values(|l: LicenseV| record_of(l)),
                facts: st.facts,
            }
        },
    }
}

/// What making a report leads to: the report to hand to the provider, or, when
/// nothing has been scanned, the screen saying so.
pub open spec fn report_request(st: ModuleV, lang: Seq<char>) -> Result<ReportV, WindowV> {
    match st.lics {
        Some(lics) => Ok(report_of(lang, lics, st.facts)),
        None => Err(nothing_screen(lang)),
    }
}

/// A scan that produced nothing drops the previous results rather than
/// leaving them on screen under an error: nothing is remembered of them, and
/// what is shown is why, or the landing screen when there is no why.
pub proof fn law_a_failed_scan_shows_nothing_stale(
    st: ModuleV,
    lang: Seq<char>,
    read: Result<String, ReadError>,
    report: bool,
)
    requires
        match read {
            Ok(stdout) => !parsed(stdout@).flags.ran,
            Err(_) => true,
        },
    ensures
        after_scan(st, lang, read).lics is None,
        after_scan(st, lang, read).facts.len() == 0,
        after_scan(st, lang, read).flags == no_flags(),
        render_screen(after_scan(st, lang, read), lang, report) == if after_scan(
            st,
            lang,
            read,
        ).error.len() > 0 {
            error_screen(lang, after_scan(st, lang, read).error)
        } else {
            idle_screen(lang)
        },
{
}

/// Whatever results are remembered are those of the latest scan: a scan that
/// read the store replaces everything found before, and one that did not
/// leaves none.
pub proof fn law_results_come_from_the_latest_scan(st: ModuleV, lang: Seq<char>, read: Result<String, ReadError>)
    ensures
        match read {
            Ok(stdout) => match after_scan(st, lang, read).lics {
                Some(lics) => lics == parsed(stdout@).lics && after_scan(st, lang, read).facts
                    == parsed(stdout@).facts,
                None => !parsed(stdout@).flags.ran,
            },
            Err(_) => after_scan(st, lang, read).lics is None,
        },
{
}

/// A scan whose output carries the begin marker remembers exactly what it
/// read: the licences, the facts and every flag the markers set, with no
/// error; so the firmware's OEM key counts as unreadable exactly when a line
/// of the output is the `#no-oem` marker.
pub proof fn law_a_scan_remembers_what_its_markers_said(st: ModuleV, lang: Seq<char>, stdout: String)
    requires
        parsed(stdout@).flags.ran,
    ensures
        after_scan(st, lang, Ok(stdout)).lics == Some(parsed(stdout@).lics),
        after_scan(st, lang, Ok(stdout)).facts == parsed(stdout@).facts,
        after_scan(st, lang, Ok(stdout)).flags == parsed(stdout@).flags,
        after_scan(st, lang, Ok(stdout)).error.len() == 0,
        after_scan(st, lang, Ok(stdout)).flags.no_oem <==> exists|i: int|
            0 <= i < split_on(stdout@, '\n').len() && is_no_oem_line(
                #[trigger] split_on(stdout@, '\n')[i],
            ),
        render_screen(after_scan(st, lang, Ok(stdout)), lang, false) == results_screen(
            lang,
            parsed(stdout@).lics,
            parsed(stdout@).facts,
            parsed(stdout@).flags,
            false,
        ),
{
    law_no_oem_key_only_with_its_marker(stdout@);
}

/// The privileged read never touches the licences: asking for it and polling
/// it leave them as they were, and all a finished read can add is the one
/// fact it was for.
pub proof fn law_the_privileged_read_changes_only_its_own_field(
    st: ModuleV,
    lang: Seq<char>,
    start: OemStart,
    poll: OemPoll,
)
    ensures
        after_oem_start(st, start).lics == st.lics,
        after_oem_start(st, start).facts == st.facts,
        after_oem_start(st, start).flags == st.flags,
        after_oem_poll(st, lang, poll).lics == st.lics,
        after_oem_poll(st, lang, poll).error == st.error,
        after_oem_poll(st, lang, poll).flags.ran == st.flags.ran,
        after_oem_poll(st, lang, poll).flags.error == st.flags.error,
        after_oem_poll(st, lang, poll).facts == st.facts || after_oem_poll(st, lang, poll).facts
            == st.facts.push(
            FactV {
                section: "windows"@,
                item: translate(lang, "oem.item"@),
                value: after_oem_poll(st, lang, poll).facts.last().value,
            },
        ),
{
}

/// The licences an answer carries are exactly those of the last scan that
/// pass the filters: each of them passes, and each that passes is there.
pub proof fn law_the_answer_is_exactly_what_passes(lics: Seq<LicenseV>, kind: Seq<char>, ok: Option<bool>)
    ensures
        forall|l: LicenseV| #[trigger] selected(lics, kind, ok).contains(l) <==> (lics.contains(l) && wanted(kind, ok, l)),
    decreases lics.len(),
{
    broadcast use vstd::seq_lib::group_seq_properties;

    if lics.len() > 0 {
        let t = lics.drop_last();
        law_the_answer_is_exactly_what_passes(t, kind, ok);
        let x = lics.last();
        assert(lics =~= t.push(x));
        let s = selected(t, kind, ok);
        assert forall|l: LicenseV| #[trigger] selected(lics, kind, ok).contains(l) <==> (lics.contains(l) && wanted(kind, ok, l)) by {
            assert(s.contains(l) <==> (t.contains(l) && wanted(kind, ok, l)));
            assert(t.push(x).contains(l) <==> (t.contains(l) || l == x));
            if wanted(kind, ok, x) {
                assert(selected(lics, kind, ok) == s.push(x));
                assert(s.push(x).contains(l) <==> (s.contains(l) || l == x));
            } else {
                assert(selected(lics, kind, ok) == s);
            }
        }
    }
}

/// The answer carries the licences that pass the filters in the order the
/// last scan keeps them, leaving out the others and adding none.
pub proof fn law_the_answer_keeps_the_stored_order(lics: Seq<LicenseV>, kind: Seq<char>, ok: Option<bool>)
    ensures
        selected(lics, kind, ok) == lics.filter(|l: LicenseV| wanted(kind, ok, l)),
    decreases lics.len(),
{
    reveal(Seq::filter);
    if lics.len() > 0 {
        law_the_answer_keeps_the_stored_order(lics.drop_last(), kind, ok);
    }
}

/// Only what a caller passes without its surrounding white space decides the
/// family asked for.
pub proof fn law_white_space_around_the_kind_is_ignored(a: Seq<char>, b: Seq<char>)
    requires
        trim(a) == trim(b),
    ensures
        kind_filter(a) == kind_filter(b),
{
}

proof fn lemma_no_filter_selects_all(lics: Seq<LicenseV>)
    ensures
        selected(lics, Seq::<char>::empty(), None) == lics,
    decreases lics.len(),
{
    if lics.len() > 0 {
        lemma_no_filter_selects_all(lics.drop_last());
        assert(lics.drop_last().push(lics.last()) =~= lics);
    }
}

/// A kind that is blank, or nothing but white space, asks for every family:
/// with no filter on status, the answer holds every licence of the last scan,
/// in the order it keeps them.
pub proof fn law_a_blank_kind_selects_every_family(lics: Seq<LicenseV>, raw_kind: Seq<char>)
    requires
        trim(raw_kind).len() == 0,
    ensures
        kind_filter(raw_kind) == Seq::<char>::empty(),
        selected(lics, kind_filter(raw_kind), None) == lics,
{
    lemma_no_filter_selects_all(lics);
}

/// The properly licensed and the not properly licensed of a family make up
/// all of it.
pub proof fn law_licensed_and_not_make_up_the_total(lics: Seq<LicenseV>, kind: Seq<char>)
    ensures
        selected(lics, kind, Some(true)).len() + selected(lics, kind, Some(false)).len()
            == selected(lics, kind, None).len(),
    decreases lics.len(),
{
    if lics.len() > 0 {
        law_licensed_and_not_make_up_the_total(lics.drop_last(), kind);
    }
}

/// Where every licence is of the Windows, Office or other family, as the
/// query files them, the three families make up the whole, under either
/// status filter or none.
pub proof fn law_the_families_make_up_the_total(lics: Seq<LicenseV>, ok: Option<bool>)
    requires
        forall|i: int|
            0 <= i < lics.len() ==> (#[trigger] lics[i]).kind == "windows"@ || lics[i].kind
                == "office"@ || lics[i].kind == "other"@,
    ensures
        selected(lics, "windows"@, ok).len() + selected(lics, "office"@, ok).len() + selected(
            lics,
            "other"@,
            ok,
        ).len() == selected(lics, Seq::<char>::empty(), ok).len(),
    decreases lics.len(),
{
    reveal_strlit("windows");
    reveal_strlit("office");
    reveal_strlit("other");
    if lics.len() > 0 {
        let t = lics.drop_last();
        assert forall|i: int| 0 <= i < t.len() implies (#[trigger] t[i]).kind == "windows"@
            || t[i].kind == "office"@ || t[i].kind == "other"@ by {
            assert(t[i] == lics[i]);
        }
        law_the_families_make_up_the_total(t, ok);
        assert(lics.last() == lics[lics.len() - 1]);
        assert("windows"@.len() == 7 && "office"@.len() == 6 && "other"@.len() == 5);
    }
}

/// Asking for what is not properly licensed never answers with a licence
/// that is.
pub proof fn law_the_not_licensed_answer_counts_none_licensed(lics: Seq<LicenseV>, kind: Seq<char>)
    ensures
        count_licensed(selected(lics, kind, Some(false))) == 0,
    decreases lics.len(),
{
    if lics.len() > 0 {
        law_the_not_licensed_answer_counts_none_licensed(lics.drop_last(), kind);
        let s = selected(lics.drop_last(), kind, Some(false));
        if wanted(kind, Some(false), lics.last()) {
            assert(s.push(lics.last()).drop_last() =~= s);
        }
    }
}

impl MsLicenses {
    /// Nothing scanned yet.
    pub fn new() -> (r: MsLicenses)
        ensures
            r@ == initial(),
    {
        let r = MsLicenses { lics: None, facts: Vec::new(), flags: Flags::new(), error: String::new(), oem: None };
        assert(fact_views(r.facts@) =~= Seq::<FactV>::empty());
        r
    }

    /// Forget the last scan and remember why.
    pub fn fail(&mut self, why: String)
        ensures
            final(self)@ == failed(old(self)@, why@),
    {
        self.lics = None;
        self.facts = Vec::new();
        self.flags = Flags::new();
        self.error = why;
        assert(fact_views(self.facts@) =~= Seq::<FactV>::empty());
    }

    /// Whatever the module should be showing right now.
    pub fn render(&self, lang: &str, report: bool) -> (r: Window)
        ensures
            r@ == render_screen(self@, lang@, report),
    {
        match &self.lics {
            Some(lics) => results_view(lang, lics.as_slice(), self.facts.as_slice(), &self.flags, report),
            None => if !self.error.as_str().is_empty() {
                error_view(lang, self.error.as_str())
            } else {
                idle_view(lang)
            },
        }
    }

    /// Take in what reading the licensing store gave back, and show the
    /// result.
    pub fn scan(&mut self, lang: &str, read: Result<String, ReadError>, report: bool) -> (r: Window)
        ensures
            final(self)@ == after_scan(old(self)@, lang@, read),
            r@ == render_screen(final(self)@, lang@, report),
    {
        match read {
            Ok(stdout) => {
                let (lics, facts, flags) = parse(stdout.as_str());
                if !flags.ran {
                    self.fail(tr(lang, "error.no_powershell"));
                } else {
                    self.lics = Some(lics);
                    self.facts = facts;
                    self.flags = flags;
                    self.error = String::new();
                }
            },
            Err(ReadError::NoPowerShell) => self.fail(tr(lang, "error.no_powershell")),
            Err(ReadError::Other(e)) => self.fail(e),
        }
        self.render(lang, report)
    }

    /// The last scan as data, for other modules: the licences of the family
    /// `kind` names (every family when it is blank), and only those properly
    /// licensed or not when `ok` says which.
    pub fn licenses(&self, kind: &str, ok: Option<bool>) -> (r: LicensesAnswer)
        ensures
            r@ == answer_of(self@, kind@, ok),
            is_ascii_text(trim(kind@)) ==> r@ == answer_for(self@, ascii_lowercase(trim(kind@)), ok),
    {
        match &self.lics {
            None => {
                let error = if self.error.as_str().is_empty() {
                    owned("nothing scanned yet")
                } else {
                    self.error.clone()
                };
                LicensesAnswer::NotScanned { error }
            },
            Some(lics) => {
                let kc = chars_of(kind);
                let kt = trimmed(kc.as_slice());
                let wanted_kind = if kt.len() == 0 {
                    assert(ascii_lowercase(kt@) =~= Seq::<char>::empty());
                    String::new()
                } else {
                    let ks = string_of(kt.as_slice());
                    to_lowercase(ks.as_str())
                };
                let ghost kf = kind_filter(kind@);
                assert(is_ascii_text(trim(kind@)) ==> kf == ascii_lowercase(trim(kind@)));
                let ghost all = license_views(lics@);
                let mut records: Vec<Vec<(&'static str, Scalar)>> = Vec::new();
                let mut licensed: usize = 0;
                let mut i: usize = 0;
                assert(all.take(0) =~= Seq::<LicenseV>::empty());
                while i < lics.len()
                    invariant
                        i <= lics@.len(),
                        all == license_views(lics@),
                        wanted_kind@ == kf,
                        records@.map_values(|r: Vec<(&'static str, Scalar)>| record_view(r@))
                            == selected(all.take(i as int), kf, ok).map_values(|l: LicenseV| record_of(l)),
                        licensed == count_licensed(selected(all.take(i as int), kf, ok)),
                        licensed <= records@.len(),
                        records@.len() == selected(all.take(i as int), kf, ok).len(),
                        records@.len() <= i,
                    decreases lics@.len() - i,
                {
                    assert(all.take(i + 1).drop_last() =~= all.take(i as int));
                    let l = &lics[i];
                    assert(all.take(i + 1).last() == l@);
                    let ghost prev = selected(all.take(i as int), kf, ok);
                    let kind_ok = wanted_kind.as_str().is_empty() || crate::text::same_text(l.kind.as_str(), wanted_kind.as_str());
                    let licensed_now = l.ok();
                    let status_ok = match ok {
                        Some(want) => licensed_now == want,
                        None => true,
                    };
                    if kind_ok && status_ok {
                        let ghost before = records@.map_values(|r: Vec<(&'static str, Scalar)>| record_view(r@));
                        let rec = l.to_json();
                        assert(record_view(rec@) =~= record_of(l@));
                        records.push(rec);
                        assert(records@.map_values(|r: Vec<(&'static str, Scalar)>| record_view(r@)) =~= before.push(record_of(l@)));
                        if licensed_now {
                            licensed = licensed + 1;
                        }
                        assert(selected(all.take(i + 1), kf, ok) == prev.push(l@));
                        assert(prev.push(l@).drop_last() =~= prev);
                    } else {
                        assert(selected(all.take(i + 1), kf, ok) == prev);
                    }
                    i = i + 1;
                    assert(selected(all.take(i as int), kf, ok).map_values(|l: LicenseV| record_of(l))
                        =~= records@.map_values(|r: Vec<(&'static str, Scalar)>| record_view(r@)));
                }
                assert(all.take(lics@.len() as int) =~= all);
                let mut facts: Vec<Fact> = Vec::new();
                let mut k: usize = 0;
                while k < self.facts.len()
                    invariant
                        k <= self.facts@.len(),
                        fact_views(facts@) == fact_views(self.facts@).take(k as int),
                    decreases self.facts@.len() - k,
                {
                    let ghost before = fact_views(facts@);
                    let f = copy_fact(&self.facts[k]);
                    facts.push(f);
                    assert(fact_views(facts@) =~= before.push(self.facts@[k as int]@));
                    assert(fact_views(self.facts@).take(k + 1) =~= fact_views(self.facts@).take(k as int).push(self.facts@[k as int]@));
                    k = k + 1;
                    assert(fact_views(facts@) =~= fact_views(self.facts@).take(k as int));
                }
                assert(fact_views(self.facts@).take(self.facts@.len() as int) =~= fact_views(self.facts@));
                let total = records.len();
                LicensesAnswer::Scanned { total, licensed, licenses: records, facts }
            },
        }
    }

    /// The report on the last scan, to hand to whatever report provider is
    /// installed; or, when nothing has been scanned, the screen saying there is
    /// nothing to report on.
    pub fn make_report(&self, lang: &str) -> (r: Result<ReportSpec, Window>)
        ensures
            match r {
                Ok(spec) => report_request(self@, lang@) == Ok::<ReportV, WindowV>(spec@),
                Err(w) => report_request(self@, lang@) == Err::<ReportV, WindowV>(w@),
            },
    {
        match &self.lics {
            Some(lics) => Ok(report_spec(lang, lics.as_slice(), self.facts.as_slice())),
            None => Err(nothing_view(lang)),
        }
    }

    /// The privileged read in flight, if one is: the host's id for it and the
    /// file it writes.
    pub fn oem_in_flight(&self) -> (r: Option<(u64, String)>)
        ensures
            match r {
                Some(o) => self@.oem == Some((o.0, o.1@)),
                None => self@.oem is None,
            },
    {
        match &self.oem {
            Some((id, file)) => Some((*id, file.clone())),
            None => None,
        }
    }

    /// Take in how asking for the privileged read went, and show it.
    pub fn read_oem(&mut self, lang: &str, start: OemStart, report: bool) -> (r: Window)
        ensures
            final(self)@ == after_oem_start(old(self)@, start),
            r@ == oem_start_screen(old(self)@, lang@, start, report),
    {
        match start {
            OemStart::NoModuleDir => self.render(lang, report).with_notice(Level::Error, tr(lang, "oem.failed")),
            OemStart::Unavailable => self.render(lang, report).with_notice(Level::Warning, tr(lang, "oem.unavailable")),
            OemStart::Started { id, file } => {
                self.oem = Some((id, file));
                authorizing_view(lang)
            },
        }
    }

    /// Take in where the privileged read has got to, and show it.
    pub fn oem_poll(&mut self, lang: &str, poll: OemPoll, report: bool) -> (r: Window)
        ensures
            final(self)@ == after_oem_poll(old(self)@, lang@, poll),
            r@ == oem_poll_screen(old(self)@, lang@, poll, report),
    {
        if self.oem.is_none() {
            return self.render(lang, report);
        }
        match poll {
            OemPoll::Waiting => authorizing_view(lang),
            OemPoll::Done { ok, refused, unavailable, key } => {
                self.oem = None;
                if !ok {
                    let why = if refused {
                        tr(lang, "oem.refused")
                    } else if unavailable {
                        tr(lang, "oem.unavailable")
                    } else {
                        tr(lang, "oem.failed")
                    };
                    let level = if refused { Level::Info } else { Level::Warning };
                    return self.render(lang, report).with_notice(level, why);
                }
                match key {
                    Some(k) => {
                        let ghost before = fact_views(self.facts@);
                        let fact = Fact { section: owned("windows"), item: tr(lang, "oem.item"), value: k };
                        self.facts.push(fact);
                        assert(fact_views(self.facts@) =~= before.push(fact@));
                        self.flags.no_oem = false;
                        self.render(lang, report)
                    },
                    None => {
                        self.flags.no_oem = false;
                        self.render(lang, report).with_notice(Level::Success, tr(lang, "oem.none"))
                    },
                }
            },
        }
    }
}

} // verus!
