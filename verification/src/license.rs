//! One licence as the store reports it, what its numbers mean, and the order
//! licences are shown in.

use vstd::prelude::*;
use crate::text::{chars_are, chars_of, string_of};

verus! {

/// A product the licensing store holds a licence for.
#[derive(Debug)]
pub struct License {
    /// `windows`, `office`, or `other`: which family the product belongs to.
    pub kind: String,
    pub name: String,
    /// The store's `LicenseStatus`, named (see `status_name`). An
    /// unrecognised code keeps its number.
    pub status: String,
    pub channel: String,
    /// The last five characters of the product key: all the store holds.
    pub key: String,
    /// How long a grace period has left, already in days.
    pub expires: String,
    /// The KMS host this product activates against.
    pub kms: String,
    pub description: String,
}

/// A licence as plain text: what the contracts speak of.
pub struct LicenseV {
    pub kind: Seq<char>,
    pub name: Seq<char>,
    pub status: Seq<char>,
    pub channel: Seq<char>,
    pub key: Seq<char>,
    pub expires: Seq<char>,
    pub kms: Seq<char>,
    pub description: Seq<char>,
}

impl View for License {
    type V = LicenseV;

    open spec fn view(&self) -> LicenseV {
        LicenseV {
            kind: self.kind@,
            name: self.name@,
            status: self.status@,
            channel: self.channel@,
            key: self.key@,
            expires: self.expires@,
            kms: self.kms@,
            description: self.description@,
        }
    }
}

impl LicenseV {
    /// Properly licensed: only the status `licensed` is. A grace period is
    /// not activation, it is a deadline.
    pub open spec fn licensed(self) -> bool {
        self.status == "licensed"@
    }
}

/// The views of a run of licences.
pub open spec fn license_views(ls: Seq<License>) -> Seq<LicenseV> {
    ls.map_values(|l: License| l@)
}

/// One `Item`/`Value` pair from the store that is not a licence: the client
/// machine id, the configured KMS host, the Click-to-Run channel.
#[derive(Debug)]
pub struct Fact {
    /// `windows` or `office`: which table it is shown under.
    pub section: String,
    pub item: String,
    pub value: String,
}

/// A fact as plain text.
pub struct FactV {
    pub section: Seq<char>,
    pub item: Seq<char>,
    pub value: Seq<char>,
}

impl View for Fact {
    type V = FactV;

    open spec fn view(&self) -> FactV {
        FactV { section: self.section@, item: self.item@, value: self.value@ }
    }
}

/// The views of a run of facts.
pub open spec fn fact_views(fs: Seq<Fact>) -> Seq<FactV> {
    fs.map_values(|f: Fact| f@)
}

/// What the query said about its own run, as opposed to what it found.
#[derive(Debug)]
pub struct Flags {
    /// The query started. Its absence means PowerShell never got going, and an
    /// empty list then means "not read", not "nothing licensed".
    pub ran: bool,
    /// The OEM key held in firmware could not be read.
    pub no_oem: bool,
    /// The query itself raised something, carried out rather than swallowed.
    pub error: String,
}

/// The flags as plain values.
pub struct FlagsV {
    pub ran: bool,
    pub no_oem: bool,
    pub error: Seq<char>,
}

impl View for Flags {
    type V = FlagsV;

    open spec fn view(&self) -> FlagsV {
        FlagsV { ran: self.ran, no_oem: self.no_oem, error: self.error@ }
    }
}

impl Flags {
    /// Nothing said yet: not started, nothing missing, no error.
    pub fn new() -> (r: Flags)
        ensures
            r@ == (FlagsV { ran: false, no_oem: false, error: Seq::empty() }),
    {
        Flags { ran: false, no_oem: false, error: String::new() }
    }
}

/// The name a `LicenseStatus` code is shown under. The three grace codes are
/// all `grace`; a code not in the list keeps its own number.
pub open spec fn status_name_of(code: Seq<char>) -> Seq<char> {
    if code == "0"@ {
        "unlicensed"@
    } else if code == "1"@ {
        "licensed"@
    } else if code == "2"@ || code == "3"@ || code == "6"@ {
        "grace"@
    } else if code == "4"@ {
        "non_genuine"@
    } else if code == "5"@ {
        "notification"@
    } else {
        code
    }
}

/// Whether `status` is one of the names `status_name_of` can produce, as
/// opposed to a raw code being passed through.
pub open spec fn is_status_name(status: Seq<char>) -> bool {
    ||| status == "licensed"@
    ||| status == "unlicensed"@
    ||| status == "grace"@
    ||| status == "notification"@
    ||| status == "non_genuine"@
}

/// The name for a status code given as characters.
pub fn status_name_chars(code: &[char]) -> (r: String)
    ensures
        r@ == status_name_of(code@),
{
    let named = if chars_are(code, "0") {
        "unlicensed"
    } else if chars_are(code, "1") {
        "licensed"
    } else if chars_are(code, "2") || chars_are(code, "3") || chars_are(code, "6") {
        "grace"
    } else if chars_are(code, "4") {
        "non_genuine"
    } else if chars_are(code, "5") {
        "notification"
    } else {
        return string_of(code);
    };
    let cs = chars_of(named);
    string_of(cs.as_slice())
}

/// `LicenseStatus` as the licensing store reports it, named.
pub fn status_name(code: &str) -> (r: String)
    ensures
        r@ == status_name_of(code@),
{
    let cs = chars_of(code);
    status_name_chars(cs.as_slice())
}

/// Whether `status` is a name rather than a raw code.
pub fn status_is_named(status: &str) -> (r: bool)
    ensures
        r == is_status_name(status@),
{
    let cs = chars_of(status);
    let s = cs.as_slice();
    chars_are(s, "licensed") || chars_are(s, "unlicensed") || chars_are(s, "grace") || chars_are(
        s,
        "notification",
    ) || chars_are(s, "non_genuine")
}

/// Only status 1 is properly licensed: every other code the store reports,
/// the grace codes among them, names a status that is not. (A raw code that
/// already reads `licensed` would pass through unchanged, so it is left out.)
pub proof fn law_only_status_one_is_licensed(code: Seq<char>)
    requires
        code != "licensed"@,
    ensures
        (status_name_of(code) == "licensed"@) <==> (code == "1"@),
{
    reveal_strlit("0");
    reveal_strlit("1");
    reveal_strlit("licensed");
    reveal_strlit("unlicensed");
    reveal_strlit("grace");
    reveal_strlit("non_genuine");
    reveal_strlit("notification");
    assert("unlicensed"@.len() != "licensed"@.len());
    assert("grace"@.len() != "licensed"@.len());
    assert("non_genuine"@.len() != "licensed"@.len());
    assert("notification"@.len() != "licensed"@.len());
    assert("0"@ != "1"@) by {
        assert("0"@[0] != "1"@[0]);
    }
    if code == "1"@ {
        assert(status_name_of(code) == "licensed"@);
    } else if code == "0"@ {
        assert(status_name_of(code) == "unlicensed"@);
    } else if code == "2"@ || code == "3"@ || code == "6"@ {
        assert(status_name_of(code) == "grace"@);
    } else if code == "4"@ {
        assert(status_name_of(code) == "non_genuine"@);
    } else if code == "5"@ {
        assert(status_name_of(code) == "notification"@);
    } else {
        assert(status_name_of(code) == code);
    }
}

/// A status code not in the store's list keeps its own number, and a listed
/// one always gets a name.
pub proof fn law_unknown_codes_keep_their_number(code: Seq<char>)
    ensures
        is_status_name(status_name_of(code)) || status_name_of(code) == code,
        (code == "0"@ || code == "1"@ || code == "2"@ || code == "3"@ || code == "4"@ || code == "5"@
            || code == "6"@) ==> is_status_name(status_name_of(code)),
{
}

/// One value of a record as other modules receive it.
#[derive(Debug)]
pub enum Scalar {
    Text(String),
    Flag(bool),
}

/// A value of a record as plain values.
pub enum ScalarV {
    Text(Seq<char>),
    Flag(bool),
}

/// The plain value of a record's value.
pub open spec fn scalar_view(s: Scalar) -> ScalarV {
    match s {
        Scalar::Text(t) => ScalarV::Text(t@),
        Scalar::Flag(b) => ScalarV::Flag(b),
    }
}

/// A record as plain values.
pub open spec fn record_view(r: Seq<(&'static str, Scalar)>) -> Seq<(&'static str, ScalarV)> {
    r.map_values(|p: (&'static str, Scalar)| (p.0, scalar_view(p.1)))
}

/// The record other modules receive for a licence.
pub open spec fn record_of(l: LicenseV) -> Seq<(&'static str, ScalarV)> {
    seq![
        ("kind", ScalarV::Text(l.kind)),
        ("name", ScalarV::Text(l.name)),
        ("status", ScalarV::Text(l.status)),
        ("channel", ScalarV::Text(l.channel)),
        ("key", ScalarV::Text(l.key)),
        ("expires", ScalarV::Text(l.expires)),
        ("kms", ScalarV::Text(l.kms)),
        ("description", ScalarV::Text(l.description)),
        ("ok", ScalarV::Flag(l.licensed())),
    ]
}

/// A copy of a fact.
pub fn copy_fact(f: &Fact) -> (r: Fact)
    ensures
        r@ == f@,
{
    Fact { section: f.section.clone(), item: f.item.clone(), value: f.value.clone() }
}

impl License {
    /// Whether this product is properly licensed. Only status 1 is: a grace
    /// period is not activation, it is a deadline.
    pub fn ok(&self) -> (r: bool)
        ensures
            r == self@.licensed(),
    {
        let s = chars_of(self.status.as_str());
        chars_are(s.as_slice(), "licensed")
    }

    /// The record as other modules receive it: each field under its own name,
    /// and whether it is properly licensed under `ok`.
    pub fn to_json(&self) -> (r: Vec<(&'static str, Scalar)>)
        ensures
            r@ == seq![
                ("kind", Scalar::Text(self.kind)),
                ("name", Scalar::Text(self.name)),
                ("status", Scalar::Text(self.status)),
                ("channel", Scalar::Text(self.channel)),
                ("key", Scalar::Text(self.key)),
                ("expires", Scalar::Text(self.expires)),
                ("kms", Scalar::Text(self.kms)),
                ("description", Scalar::Text(self.description)),
                ("ok", Scalar::Flag(self@.licensed())),
            ],
    {
        let ok = self.ok();
        let r = vec![
            ("kind", Scalar::Text(self.kind.clone())),
            ("name", Scalar::Text(self.name.clone())),
            ("status", Scalar::Text(self.status.clone())),
            ("channel", Scalar::Text(self.channel.clone())),
            ("key", Scalar::Text(self.key.clone())),
            ("expires", Scalar::Text(self.expires.clone())),
            ("kms", Scalar::Text(self.kms.clone())),
            ("description", Scalar::Text(self.description.clone())),
            ("ok", Scalar::Flag(ok)),
        ];
        r
    }
}

} // verus!
