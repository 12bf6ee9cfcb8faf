//! The order licences are shown in: Windows first, then Office, then anything
//! else; within each family the ones that are not licensed first; ties broken
//! by name, compared without regard to case. Equal keys keep the order they
//! came in, as a stable sort leaves them.

use vstd::prelude::*;
use crate::license::{License, LicenseV, license_views};
use crate::sorting::{
    equals_of, is_sorted_by, is_strict_weak, lemma_insert_found, lemma_sort_by_permutes,
    lemma_sort_by_sorted, lemma_sort_by_stable, sort_by,
};
use crate::text::{
    ascii_lowercase, chars_before, chars_lt, chars_of, is_ascii_text, lowercased, to_lowercase, lemma_chars_lt_irreflexive,
    lemma_chars_lt_total, lemma_chars_lt_transitive,
};

verus! {

/// The rank of a product family: Windows, then Office, then anything else.
pub open spec fn family(kind: Seq<char>) -> int {
    if kind == "windows"@ {
        0
    } else if kind == "office"@ {
        1
    } else {
        2
    }
}

/// Whether `a` is shown before `b` whatever order they came in.
pub open spec fn comes_before(a: LicenseV, b: LicenseV) -> bool {
    let fa = family(a.kind);
    let fb = family(b.kind);
    ||| fa < fb
    ||| fa == fb && !a.licensed() && b.licensed()
    ||| fa == fb && a.licensed() == b.licensed() && chars_lt(lowercased(a.name), lowercased(b.name))
}

/// `comes_before` as a relation.
pub open spec fn shown_before() -> spec_fn(LicenseV, LicenseV) -> bool {
    |a: LicenseV, b: LicenseV| comes_before(a, b)
}

/// The licences in the order they are shown in: each taken in turn and placed
/// after everything it does not come before, which is the stable sort by
/// `comes_before`.
pub open spec fn display_order(s: Seq<LicenseV>) -> Seq<LicenseV> {
    sort_by(s, shown_before())
}

/// No licence is shown after one it comes before.
pub open spec fn is_in_display_order(s: Seq<LicenseV>) -> bool {
    is_sorted_by(s, shown_before())
}

/// `comes_before` never holds both ways.
pub proof fn lemma_comes_before_asymmetric(a: LicenseV, b: LicenseV)
    ensures
        !(comes_before(a, b) && comes_before(b, a)),
{
    if comes_before(a, b) && comes_before(b, a) {
        lemma_chars_lt_transitive(lowercased(a.name), lowercased(b.name), lowercased(a.name));
        lemma_chars_lt_irreflexive(lowercased(a.name));
    }
}

/// If `a` comes before `c`, then `a` comes before `b` or `b` before `c`.
pub proof fn lemma_comes_before_split(a: LicenseV, b: LicenseV, c: LicenseV)
    requires
        comes_before(a, c),
    ensures
        comes_before(a, b) || comes_before(b, c),
{
    let (la, lb, lc) = (lowercased(a.name), lowercased(b.name), lowercased(c.name));
    if family(a.kind) == family(b.kind) && family(b.kind) == family(c.kind) && a.licensed()
        == b.licensed() && b.licensed() == c.licensed() {
        if !chars_lt(la, lb) && !chars_lt(lb, lc) {
            if la == lb {
            } else if lb == lc {
            } else {
                lemma_chars_lt_total(la, lb);
                lemma_chars_lt_total(lb, lc);
                lemma_chars_lt_transitive(lc, lb, la);
                lemma_chars_lt_transitive(la, lc, la);
                lemma_chars_lt_irreflexive(la);
            }
        }
    }
}

/// `comes_before` is a strict weak order.
pub proof fn lemma_comes_before_strict_weak()
    ensures
        is_strict_weak(shown_before()),
{
    let f = shown_before();
    assert forall|a: LicenseV, b: LicenseV| !(#[trigger] f(a, b) && #[trigger] f(b, a)) by {
        lemma_comes_before_asymmetric(a, b);
    }
    assert forall|a: LicenseV, b: LicenseV, c: LicenseV|
        #[trigger] f(a, c) implies #[trigger] f(a, b) || #[trigger] f(b, c) by {
        lemma_comes_before_split(a, b, c);
    }
}

/// Licences in display order are ordered: none is shown after one it comes
/// before.
pub proof fn law_display_order_is_ordered(s: Seq<LicenseV>)
    ensures
        is_in_display_order(display_order(s)),
{
    lemma_comes_before_strict_weak();
    lemma_sort_by_sorted(s, shown_before());
}

/// Putting licences in display order loses none and adds none.
pub proof fn law_display_order_loses_nothing(s: Seq<LicenseV>)
    ensures
        display_order(s).to_multiset() == s.to_multiset(),
{
    lemma_sort_by_permutes(s, shown_before());
}

/// Licences that tie (same family, same state, same name but for case) keep
/// the order they came in, so the order does not wander between scans.
pub proof fn law_ties_keep_their_order(s: Seq<LicenseV>, x: LicenseV)
    ensures
        equals_of(display_order(s), x, shown_before()) == equals_of(s, x, shown_before()),
{
    lemma_comes_before_strict_weak();
    lemma_sort_by_stable(s, x, shown_before());
}

/// Windows first, then Office, then anything else.
pub proof fn law_families_come_in_order(s: Seq<LicenseV>)
    ensures
        forall|i: int, j: int|
            0 <= i < j < display_order(s).len() ==> family(#[trigger] display_order(s)[i].kind)
                <= family(#[trigger] display_order(s)[j].kind),
{
    law_display_order_is_ordered(s);
    let r = display_order(s);
    assert forall|i: int, j: int| 0 <= i < j < r.len() implies family(#[trigger] r[i].kind) <= family(
        #[trigger] r[j].kind,
    ) by {
        assert(!comes_before(r[j], r[i]));
    }
}

/// Within each family, the licences that are not properly licensed come
/// first, because they are why somebody opened this.
pub proof fn law_attention_first_within_family(s: Seq<LicenseV>)
    ensures
        forall|i: int, j: int|
            0 <= i < j < display_order(s).len() && family(display_order(s)[i].kind) == family(
                display_order(s)[j].kind,
            ) && (#[trigger] display_order(s)[i]).licensed() ==> (
            #[trigger] display_order(s)[j]).licensed(),
{
    law_display_order_is_ordered(s);
    let r = display_order(s);
    assert forall|i: int, j: int|
        0 <= i < j < r.len() && family(r[i].kind) == family(r[j].kind) && (
        #[trigger] r[i]).licensed() implies (#[trigger] r[j]).licensed() by {
        assert(!comes_before(r[j], r[i]));
    }
}

/// Whether lowering each ASCII name among `s` is known to lower only its
/// letters `A` to `Z`, so that names compare as their ASCII lowercase forms.
pub open spec fn names_lower_as_ascii(s: Seq<LicenseV>) -> bool {
    forall|i: int|
        0 <= i < s.len() && is_ascii_text(#[trigger] s[i].name) ==> lowercased(s[i].name)
            == ascii_lowercase(s[i].name)
}

/// What a licence is ordered by, computed once.
struct SortKey {
    family: u8,
    licensed: bool,
    lower: Vec<char>,
}

impl SortKey {
    spec fn describes(&self, l: LicenseV) -> bool {
        &&& self.family == family(l.kind)
        &&& self.licensed == l.licensed()
        &&& self.lower@ == lowercased(l.name)
        &&& is_ascii_text(l.name) ==> lowercased(l.name) == ascii_lowercase(l.name)
    }
}

fn sort_key(l: &License) -> (k: SortKey)
    ensures
        k.describes(l@),
{
    let kind = chars_of(l.kind.as_str());
    let windows = chars_of("windows");
    let office = chars_of("office");
    let family: u8 = if crate::text::same_chars(kind.as_slice(), windows.as_slice()) {
        0
    } else if crate::text::same_chars(kind.as_slice(), office.as_slice()) {
        1
    } else {
        2
    };
    let lower = to_lowercase(l.name.as_str());
    SortKey { family, licensed: l.ok(), lower: chars_of(lower.as_str()) }
}

fn key_before(a: &SortKey, b: &SortKey) -> (r: bool)
    ensures
        forall|la: LicenseV, lb: LicenseV|
            a.describes(la) && b.describes(lb) ==> r == comes_before(la, lb),
{
    if a.family != b.family {
        a.family < b.family
    } else if a.licensed != b.licensed {
        !a.licensed
    } else {
        chars_before(a.lower.as_slice(), b.lower.as_slice())
    }
}

/// Puts the licences in the order they are shown in. Names written in ASCII
/// tie-break by their ASCII lowercase forms.
pub fn sort_licenses(lics: &mut Vec<License>)
    ensures
        license_views(final(lics)@) == display_order(license_views(old(lics)@)),
        names_lower_as_ascii(license_views(old(lics)@)),
{
    let mut input: Vec<License> = Vec::new();
    std::mem::swap(&mut input, lics);
    let ghost orig = license_views(input@);
    let mut out: Vec<License> = Vec::new();
    let mut keys: Vec<SortKey> = Vec::new();
    let ghost mut i: int = 0;
    assert(orig.take(0) =~= Seq::<LicenseV>::empty());
    assert(license_views(out@) =~= Seq::<LicenseV>::empty());
    assert(orig.skip(0) =~= orig);
    while input.len() > 0
        invariant
            0 <= i <= orig.len(),
            license_views(out@) == display_order(orig.take(i)),
            license_views(input@) == orig.skip(i),
            i + input@.len() == orig.len(),
            keys@.len() == out@.len(),
            forall|k: int| 0 <= k < out@.len() ==> (#[trigger] keys@[k]).describes(out@[k]@),
            names_lower_as_ascii(orig.take(i)),
        decreases input@.len(),
    {
        let ghost sorted = license_views(out@);
        let ghost input_before = input@;
        let x = input.remove(0);
        assert(license_views(input_before)[0] == x@);
        assert(orig.skip(i)[0] == orig[i]);
        assert(x@ == orig[i]);
        assert(license_views(input@) =~= orig.skip(i + 1)) by {
            assert forall|k: int| 0 <= k < input@.len() implies license_views(input@)[k] == orig.skip(i + 1)[k] by {
                assert(input@[k] == input_before[k + 1]);
                assert(license_views(input_before)[k + 1] == orig.skip(i)[k + 1]);
            }
        }
        let kx = sort_key(&x);
        let mut j = out.len();
        while j > 0 && key_before(&kx, &keys[j - 1])
            invariant
                j <= out@.len(),
                keys@.len() == out@.len(),
                kx.describes(x@),
                sorted == license_views(out@),
                forall|k: int| 0 <= k < out@.len() ==> (#[trigger] keys@[k]).describes(out@[k]@),
                forall|k: int| j <= k < out@.len() ==> comes_before(x@, #[trigger] sorted[k]),
            decreases j,
        {
            assert(keys@[j - 1].describes(out@[j - 1]@));
            j = j - 1;
        }
        proof {
            if j > 0 {
                assert(keys@[j - 1].describes(out@[j - 1]@));
            }
            lemma_insert_found(sorted, x@, shown_before(), j as int);
            assert(orig.take(i + 1).drop_last() =~= orig.take(i));
        }
        let ghost keys_before = keys@;
        let ghost out_before = out@;
        out.insert(j, x);
        keys.insert(j, kx);
        assert(license_views(out@) =~= sorted.insert(j as int, x@));
        assert forall|k: int| 0 <= k < out@.len() implies (#[trigger] keys@[k]).describes(
            out@[k]@,
        ) by {
            if k < j {
                assert(keys@[k] == keys_before[k] && out@[k] == out_before[k]);
            } else if k > j {
                assert(keys@[k] == keys_before[k - 1] && out@[k] == out_before[k - 1]);
            }
        }
        assert(names_lower_as_ascii(orig.take(i + 1))) by {
            assert forall|k: int|
                0 <= k < orig.take(i + 1).len() && is_ascii_text(
                    #[trigger] orig.take(i + 1)[k].name,
                ) implies lowercased(orig.take(i + 1)[k].name) == ascii_lowercase(
                orig.take(i + 1)[k].name,
            ) by {
                if k < i {
                    assert(orig.take(i + 1)[k] == orig.take(i)[k]);
                }
            }
        }
        proof {
            i = i + 1;
        }
    }
    assert(orig.take(i) =~= orig);
    *lics = out;
}

} // verus!
