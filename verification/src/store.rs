//! Reading the licensing store's answer, and making sense of what it prints.
//!
//! One PowerShell run, printing one record per line:
//!
//! ```text
//! lic|kind|name|status|channel|key|expires|kms|description
//! fact|section|item|value
//! ```
//!
//! A flat line format rather than JSON: a truncated list of lines is worth all
//! but its last line. The query separates its own fields with `|` and strips
//! that character out of every value before printing.
//!
//! Running the query is the application's part; what it printed comes back
//! here as text.

use vstd::prelude::*;
use crate::license::{
    Fact, FactV, Flags, FlagsV, License, LicenseV, fact_views, license_views, status_name_of,
    status_name_chars,
};
use crate::order::{
    display_order, is_in_display_order, law_display_order_is_ordered, law_display_order_loses_nothing,
    names_lower_as_ascii, sort_licenses,
};
use crate::text::{
    chars_are, chars_of, copy_range, join_from, join_with, lemma_chars_deep, lemma_split_nonempty,
    lacks, lacks_each, lemma_lacks_each, lemma_lacks_within, lemma_replace_absent,
    lemma_replace_at_start, lemma_replace_split, lemma_split_plain, replace_all, replaced, split, split_on, string_of, trim, trim_end, trim_start,
    trimmed, trimmed_end,
};

verus! {

/// The application id that marks a Windows product inside the licensing class.
pub const WINDOWS_APP_ID: &'static str = "55c92734-d682-4d71-983e-d6ec3f16059f";

/// The application id that marks an Office product inside the licensing class.
pub const OFFICE_APP_ID: &'static str = "0ff1ce15-a989-479d-af46-f275c6370663";

/// The query, with the two application ids still to be spliced in by
/// `query`, so that they are written in exactly one place.
///
/// `SoftwareLicensingProduct` carries both Windows and Office on a modern
/// system; Office 2010-2013 predates that and keeps its own class. Click-to-Run
/// Office has no product key to speak of, so its channel and build come from
/// the registry.
pub const QUERY: &'static str = r#"
$ErrorActionPreference = 'SilentlyContinue'
$ProgressPreference = 'SilentlyContinue'
$WarningPreference = 'SilentlyContinue'
Write-Output '#begin'
function Clean($s) {
  if ($null -eq $s) { return '' }
  return (([string]$s) -replace '[\r\n\|]', ' ').Trim()
}
function Fact($section, $item, $value) {
  $v = Clean $value
  if ($v) { Write-Output ('fact|' + $section + '|' + (Clean $item) + '|' + $v) }
}
function Product($kind, $p) {
  # Only products with a key installed are licences on this machine; the class
  # also lists every edition Windows *could* be, which is not an answer.
  if (-not $p.PartialProductKey) { return }
  $expires = ''
  if ($p.GracePeriodRemaining -and $p.GracePeriodRemaining -gt 0) {
    $expires = [string][int]($p.GracePeriodRemaining / 1440) + ' days'
  }
  $kms = ''
  if ($p.KeyManagementServiceMachine) {
    $kms = (Clean $p.KeyManagementServiceMachine)
    if ($p.KeyManagementServicePort) { $kms = $kms + ':' + (Clean $p.KeyManagementServicePort) }
  } elseif ($p.DiscoveredKeyManagementServiceMachineName) {
    $kms = (Clean $p.DiscoveredKeyManagementServiceMachineName) + ' (discovered)'
  }
  $fields = @('lic', $kind, (Clean $p.Name), (Clean $p.LicenseStatus),
              (Clean $p.ProductKeyChannel), (Clean $p.PartialProductKey),
              $expires, $kms, (Clean $p.Description))
  Write-Output ($fields -join '|')
}
# The filter belongs in the query, not in a loop over the answer.
#
# `SoftwareLicensingProduct` lists every edition Windows *could* be — 79 of them
# on an ordinary machine, of which two have a key installed. Each instance is
# materialised by the Software Protection Platform, which is not cheap, so
# enumerating the class costs the same whether the caller wanted all of it or
# not: measured at 11 seconds here. The same query with the WHERE clause below
# takes 111 milliseconds and returns byte-identical records, because the
# provider evaluates it before doing that work.
#
# Naming the columns rather than SELECT * is the rest of it — four times faster
# again, for the same reason.
$COLS = 'Name,LicenseStatus,ProductKeyChannel,PartialProductKey,GracePeriodRemaining,' +
        'KeyManagementServiceMachine,KeyManagementServicePort,' +
        'DiscoveredKeyManagementServiceMachineName,Description,ApplicationID'
try {
foreach ($p in @(Get-CimInstance -Query ("SELECT $COLS FROM SoftwareLicensingProduct WHERE PartialProductKey IS NOT NULL"))) {
  $app = ([string]$p.ApplicationID).ToLower()
  $kind = 'other'
  if ($app -eq '__WINDOWS_APP_ID__') { $kind = 'windows' }
  elseif ($app -eq '__OFFICE_APP_ID__') { $kind = 'office' }
  Product $kind $p
}
# Office 2010-2013 predates the shared class and keeps its own.
foreach ($p in @(Get-CimInstance -Query ("SELECT $COLS FROM OfficeSoftwareProtectionProduct WHERE PartialProductKey IS NOT NULL"))) { Product 'office' $p }

$svc = Get-CimInstance SoftwareLicensingService
Fact 'windows' 'Client machine id' $svc.ClientMachineID
Fact 'windows' 'KMS host configured' $svc.KeyManagementServiceMachine
# The OEM key lives in firmware and needs administrator on some builds. Its
# absence is reported rather than left as a blank that reads like "no key".
$oem = Clean $svc.OA3xOriginalProductKey
if ($oem) { Fact 'windows' 'OEM key in firmware' $oem } else { Write-Output '#no-oem' }

# Click-to-Run Office has no product key to speak of; the channel and build are
# what identify a subscription install.
$c2r = 'HKLM:\SOFTWARE\Microsoft\Office\ClickToRun\Configuration'
if (Test-Path $c2r) {
  $cfg = Get-ItemProperty $c2r
  Fact 'office' 'Click-to-Run products' $cfg.ProductReleaseIds
  Fact 'office' 'Version' $cfg.VersionToReport
  Fact 'office' 'Update channel' $cfg.UpdateChannel
  Fact 'office' 'Platform' $cfg.Platform
}
} catch { Write-Output ('#err=' + ($_.Exception.Message -replace '[\r\n\|]', ' ')) }
"#;

/// The query as it is actually run: the template with both ids spliced in.
pub open spec fn query_text() -> Seq<char> {
    replace_all(
        replace_all(QUERY@, "__WINDOWS_APP_ID__"@, WINDOWS_APP_ID@),
        "__OFFICE_APP_ID__"@,
        OFFICE_APP_ID@,
    )
}

/// Where the template names the two application ids: the text around the
/// two markers, at the places it stands.
proof fn lemma_query_template()
    ensures
        QUERY@.len() == 3840,
        lacks(QUERY@.subrange(2475, 2509), '_'),
        QUERY@[2508] == '\'',
        QUERY@.subrange(2509, 2527) == "__WINDOWS_APP_ID__"@,
        QUERY@.subrange(2527, 2572) == "') { $kind = 'windows' }\n  elseif ($app -eq '"@,
        QUERY@.subrange(2572, 2589) == "__OFFICE_APP_ID__"@,
        QUERY@.subrange(2589, 2612) == "') { $kind = 'office' }"@,
{
    reveal_strlit(r#"
$ErrorActionPreference = 'SilentlyContinue'
$ProgressPreference = 'SilentlyContinue'
$WarningPreference = 'SilentlyContinue'
Write-Output '#begin'
function Clean($s) {
  if ($null -eq $s) { return '' }
  return (([string]$s) -replace '[\r\n\|]', ' ').Trim()
}
function Fact($section, $item, $value) {
  $v = Clean $value
  if ($v) { Write-Output ('fact|' + $section + '|' + (Clean $item) + '|' + $v) }
}
function Product($kind, $p) {
  # Only products with a key installed are licences on this machine; the class
  # also lists every edition Windows *could* be, which is not an answer.
  if (-not $p.PartialProductKey) { return }
  $expires = ''
  if ($p.GracePeriodRemaining -and $p.GracePeriodRemaining -gt 0) {
    $expires = [string][int]($p.GracePeriodRemaining / 1440) + ' days'
  }
  $kms = ''
  if ($p.KeyManagementServiceMachine) {
    $kms = (Clean $p.KeyManagementServiceMachine)
    if ($p.KeyManagementServicePort) { $kms = $kms + ':' + (Clean $p.KeyManagementServicePort) }
  } elseif ($p.DiscoveredKeyManagementServiceMachineName) {
    $kms = (Clean $p.DiscoveredKeyManagementServiceMachineName) + ' (discovered)'
  }
  $fields = @('lic', $kind, (Clean $p.Name), (Clean $p.LicenseStatus),
              (Clean $p.ProductKeyChannel), (Clean $p.PartialProductKey),
              $expires, $kms, (Clean $p.Description))
  Write-Output ($fields -join '|')
}
# The filter belongs in the query, not in a loop over the answer.
#
# `SoftwareLicensingProduct` lists every edition Windows *could* be — 79 of them
# on an ordinary machine, of which two have a key installed. Each instance is
# materialised by the Software Protection Platform, which is not cheap, so
# enumerating the class costs the same whether the caller wanted all of it or
# not: measured at 11 seconds here. The same query with the WHERE clause below
# takes 111 milliseconds and returns byte-identical records, because the
# provider evaluates it before doing that work.
#
# Naming the columns rather than SELECT * is the rest of it — four times faster
# again, for the same reason.
$COLS = 'Name,LicenseStatus,ProductKeyChannel,PartialProductKey,GracePeriodRemaining,' +
        'KeyManagementServiceMachine,KeyManagementServicePort,' +
        'DiscoveredKeyManagementServiceMachineName,Description,ApplicationID'
try {
foreach ($p in @(Get-CimInstance -Query ("SELECT $COLS FROM SoftwareLicensingProduct WHERE PartialProductKey IS NOT NULL"))) {
  $app = ([string]$p.ApplicationID).ToLower()
  $kind = 'other'
  if ($app -eq '__WINDOWS_APP_ID__') { $kind = 'windows' }
  elseif ($app -eq '__OFFICE_APP_ID__') { $kind = 'office' }
  Product $kind $p
}
# Office 2010-2013 predates the shared class and keeps its own.
foreach ($p in @(Get-CimInstance -Query ("SELECT $COLS FROM OfficeSoftwareProtectionProduct WHERE PartialProductKey IS NOT NULL"))) { Product 'office' $p }

$svc = Get-CimInstance SoftwareLicensingService
Fact 'windows' 'Client machine id' $svc.ClientMachineID
Fact 'windows' 'KMS host configured' $svc.KeyManagementServiceMachine
# The OEM key lives in firmware and needs administrator on some builds. Its
# absence is reported rather than left as a blank that reads like "no key".
$oem = Clean $svc.OA3xOriginalProductKey
if ($oem) { Fact 'windows' 'OEM key in firmware' $oem } else { Write-Output '#no-oem' }

# Click-to-Run Office has no product key to speak of; the channel and build are
# what identify a subscription install.
$c2r = 'HKLM:\SOFTWARE\Microsoft\Office\ClickToRun\Configuration'
if (Test-Path $c2r) {
  $cfg = Get-ItemProperty $c2r
  Fact 'office' 'Click-to-Run products' $cfg.ProductReleaseIds
  Fact 'office' 'Version' $cfg.VersionToReport
  Fact 'office' 'Update channel' $cfg.UpdateChannel
  Fact 'office' 'Platform' $cfg.Platform
}
} catch { Write-Output ('#err=' + ($_.Exception.Message -replace '[\r\n\|]', ' ')) }
"#);
    assert(QUERY@ == r#"
$ErrorActionPreference = 'SilentlyContinue'
$ProgressPreference = 'SilentlyContinue'
$WarningPreference = 'SilentlyContinue'
Write-Output '#begin'
function Clean($s) {
  if ($null -eq $s) { return '' }
  return (([string]$s) -replace '[\r\n\|]', ' ').Trim()
}
function Fact($section, $item, $value) {
  $v = Clean $value
  if ($v) { Write-Output ('fact|' + $section + '|' + (Clean $item) + '|' + $v) }
}
function Product($kind, $p) {
  # Only products with a key installed are licences on this machine; the class
  # also lists every edition Windows *could* be, which is not an answer.
  if (-not $p.PartialProductKey) { return }
  $expires = ''
  if ($p.GracePeriodRemaining -and $p.GracePeriodRemaining -gt 0) {
    $expires = [string][int]($p.GracePeriodRemaining / 1440) + ' days'
  }
  $kms = ''
  if ($p.KeyManagementServiceMachine) {
    $kms = (Clean $p.KeyManagementServiceMachine)
    if ($p.KeyManagementServicePort) { $kms = $kms + ':' + (Clean $p.KeyManagementServicePort) }
  } elseif ($p.DiscoveredKeyManagementServiceMachineName) {
    $kms = (Clean $p.DiscoveredKeyManagementServiceMachineName) + ' (discovered)'
  }
  $fields = @('lic', $kind, (Clean $p.Name), (Clean $p.LicenseStatus),
              (Clean $p.ProductKeyChannel), (Clean $p.PartialProductKey),
              $expires, $kms, (Clean $p.Description))
  Write-Output ($fields -join '|')
}
# The filter belongs in the query, not in a loop over the answer.
#
# `SoftwareLicensingProduct` lists every edition Windows *could* be — 79 of them
# on an ordinary machine, of which two have a key installed. Each instance is
# materialised by the Software Protection Platform, which is not cheap, so
# enumerating the class costs the same whether the caller wanted all of it or
# not: measured at 11 seconds here. The same query with the WHERE clause below
# takes 111 milliseconds and returns byte-identical records, because the
# provider evaluates it before doing that work.
#
# Naming the columns rather than SELECT * is the rest of it — four times faster
# again, for the same reason.
$COLS = 'Name,LicenseStatus,ProductKeyChannel,PartialProductKey,GracePeriodRemaining,' +
        'KeyManagementServiceMachine,KeyManagementServicePort,' +
        'DiscoveredKeyManagementServiceMachineName,Description,ApplicationID'
try {
foreach ($p in @(Get-CimInstance -Query ("SELECT $COLS FROM SoftwareLicensingProduct WHERE PartialProductKey IS NOT NULL"))) {
  $app = ([string]$p.ApplicationID).ToLower()
  $kind = 'other'
  if ($app -eq '__WINDOWS_APP_ID__') { $kind = 'windows' }
  elseif ($app -eq '__OFFICE_APP_ID__') { $kind = 'office' }
  Product $kind $p
}
# Office 2010-2013 predates the shared class and keeps its own.
foreach ($p in @(Get-CimInstance -Query ("SELECT $COLS FROM OfficeSoftwareProtectionProduct WHERE PartialProductKey IS NOT NULL"))) { Product 'office' $p }

$svc = Get-CimInstance SoftwareLicensingService
Fact 'windows' 'Client machine id' $svc.ClientMachineID
Fact 'windows' 'KMS host configured' $svc.KeyManagementServiceMachine
# The OEM key lives in firmware and needs administrator on some builds. Its
# absence is reported rather than left as a blank that reads like "no key".
$oem = Clean $svc.OA3xOriginalProductKey
if ($oem) { Fact 'windows' 'OEM key in firmware' $oem } else { Write-Output '#no-oem' }

# Click-to-Run Office has no product key to speak of; the channel and build are
# what identify a subscription install.
$c2r = 'HKLM:\SOFTWARE\Microsoft\Office\ClickToRun\Configuration'
if (Test-Path $c2r) {
  $cfg = Get-ItemProperty $c2r
  Fact 'office' 'Click-to-Run products' $cfg.ProductReleaseIds
  Fact 'office' 'Version' $cfg.VersionToReport
  Fact 'office' 'Update channel' $cfg.UpdateChannel
  Fact 'office' 'Platform' $cfg.Platform
}
} catch { Write-Output ('#err=' + ($_.Exception.Message -replace '[\r\n\|]', ' ')) }
"#@);
    reveal_strlit("__WINDOWS_APP_ID__");
    reveal_strlit("') { $kind = 'windows' }\n  elseif ($app -eq '");
    reveal_strlit("__OFFICE_APP_ID__");
    reveal_strlit("') { $kind = 'office' }");
    reveal_with_fuel(lacks_each, 35);
    assert(lacks_each(QUERY@.subrange(2475, 2509), '_'));
    lemma_lacks_each(QUERY@.subrange(2475, 2509), '_');
    assert(QUERY@.subrange(2509, 2527) =~= "__WINDOWS_APP_ID__"@);
    assert(QUERY@.subrange(2527, 2572) =~= "') { $kind = 'windows' }\n  elseif ($app -eq '"@);
    assert(QUERY@.subrange(2572, 2589) =~= "__OFFICE_APP_ID__"@);
    assert(QUERY@.subrange(2589, 2612) =~= "') { $kind = 'office' }"@);
}

/// What the two ids and the two markers are made of, and the text after
/// each marker.
proof fn lemma_ids_and_markers()
    ensures
        lacks(WINDOWS_APP_ID@, '_'),
        lacks(OFFICE_APP_ID@, '_'),
        WINDOWS_APP_ID@.len() == 36,
        OFFICE_APP_ID@.len() == 36,
        "__WINDOWS_APP_ID__"@.len() == 18,
        "__WINDOWS_APP_ID__"@[0] == '_',
        "__WINDOWS_APP_ID__"@[2] == 'W',
        "__OFFICE_APP_ID__"@.len() == 17,
        "__OFFICE_APP_ID__"@[0] == '_',
        lacks("__OFFICE_APP_ID__"@ + "') { $kind = 'office' }"@, 'W'),
        lacks("') { $kind = 'windows' }\n  elseif ($app -eq '"@, '_'),
        "') { $kind = 'windows' }\n  elseif ($app -eq '"@.len() == 45,
        "') { $kind = 'windows' }\n  elseif ($app -eq '"@.take(24) == "') { $kind = 'windows' }"@,
        "') { $kind = 'windows' }\n  elseif ($app -eq '"@.last() == '\'',
        lacks("') { $kind = 'office' }"@, '_'),
        "') { $kind = 'office' }"@.len() == 23,
        "'"@ == seq!['\''],
{
    reveal_strlit("55c92734-d682-4d71-983e-d6ec3f16059f");
    reveal_strlit("0ff1ce15-a989-479d-af46-f275c6370663");
    assert(WINDOWS_APP_ID@ == "55c92734-d682-4d71-983e-d6ec3f16059f"@);
    assert(OFFICE_APP_ID@ == "0ff1ce15-a989-479d-af46-f275c6370663"@);
    reveal_strlit("__WINDOWS_APP_ID__");
    reveal_strlit("__OFFICE_APP_ID__");
    reveal_strlit("') { $kind = 'windows' }\n  elseif ($app -eq '");
    reveal_strlit("') { $kind = 'windows' }");
    reveal_strlit("') { $kind = 'office' }");
    reveal_strlit("'");
    reveal_with_fuel(lacks_each, 46);
    assert(lacks_each(WINDOWS_APP_ID@, '_'));
    lemma_lacks_each(WINDOWS_APP_ID@, '_');
    assert(lacks_each(OFFICE_APP_ID@, '_'));
    lemma_lacks_each(OFFICE_APP_ID@, '_');
    assert(lacks_each("__OFFICE_APP_ID__"@ + "') { $kind = 'office' }"@, 'W'));
    lemma_lacks_each("__OFFICE_APP_ID__"@ + "') { $kind = 'office' }"@, 'W');
    assert(lacks_each("') { $kind = 'windows' }\n  elseif ($app -eq '"@, '_'));
    lemma_lacks_each("') { $kind = 'windows' }\n  elseif ($app -eq '"@, '_');
    assert(lacks_each("') { $kind = 'office' }"@, '_'));
    lemma_lacks_each("') { $kind = 'office' }"@, '_');
    assert("') { $kind = 'windows' }\n  elseif ($app -eq '"@.take(24) =~= "') { $kind = 'windows' }"@);
    assert("'"@ =~= seq!['\'']);
}

/// Whether `needle` stands somewhere in `hay`.
pub open spec fn occurs_in(needle: Seq<char>, hay: Seq<char>) -> bool {
    exists|i: int| 0 <= i && i + needle.len() <= hay.len() && #[trigger] hay.subrange(i, i + needle.len()) == needle
}

/// The query as run files each product under its own family: Windows' id is
/// the one compared where the query decides on `windows`, and Office's id the
/// one compared where it decides on `office`.
pub proof fn law_each_id_files_its_own_family()
    ensures
        occurs_in("'"@ + WINDOWS_APP_ID@ + "') { $kind = 'windows' }"@, query_text()),
        occurs_in("'"@ + OFFICE_APP_ID@ + "') { $kind = 'office' }"@, query_text()),
{
    lemma_query_template();
    lemma_ids_and_markers();
    let q = QUERY@;
    let w = "__WINDOWS_APP_ID__"@;
    let o = "__OFFICE_APP_ID__"@;
    let wid = WINDOWS_APP_ID@;
    let oid = OFFICE_APP_ID@;
    let t = q.subrange(2492, 2509);
    let b = q.subrange(2527, 2572);
    let c0 = q.subrange(2589, 2612);
    lemma_lacks_within(q, 2475, 2509, '_');
    // The first pass, which puts Windows' id in place of its marker.
    lemma_replace_split(q, w, wid, 2492);
    let r1 = replace_all(q.take(2492), w, wid);
    let sa = q.skip(2492);
    assert(sa.take(17) =~= t);
    lemma_replace_split(sa, w, wid, 17);
    assert(lacks(t, '_'));
    lemma_replace_absent(t, w, wid, 0);
    let sb = sa.skip(17);
    assert(sb.take(18) =~= w);
    lemma_replace_at_start(sb, w, wid);
    let u = sb.skip(18);
    assert(u.take(45) =~= b);
    lemma_lacks_within(b, 0, 45, '_');
    assert forall|k: int| 45 - 18 < k < 45 implies u[k] != w[0] by {
        assert(u[k] == u.take(45)[k]);
    }
    lemma_replace_split(u, w, wid, 45);
    lemma_replace_absent(b, w, wid, 0);
    let v = u.skip(45);
    assert(v.take(40) =~= o + c0);
    lemma_lacks_within(c0, 0, 23, '_');
    assert forall|k: int| 40 - 18 < k < 40 implies v[k] != w[0] by {
        assert(v[k] == c0[k - 17]);
    }
    lemma_replace_split(v, w, wid, 40);
    lemma_replace_absent(o + c0, w, wid, 2);
    let z1 = replace_all(v.skip(40), w, wid);
    let s1 = replace_all(q, w, wid);
    assert(s1 == r1 + (t + (wid + (b + ((o + c0) + z1)))));
    // The second pass, which puts Office's id in place of its marker.
    let quote = seq![t.last()];
    assert(t.last() == '\'');
    let r1t = r1 + t.take(16);
    let n = quote + (wid + (b + (o + (c0 + z1))));
    assert(s1 =~= r1t + n);
    assert forall|k: int| r1t.len() - 17 < k < r1t.len() && 0 <= k implies s1[k] != o[0] by {
        assert(s1[k] == t[k - r1.len()]);
    }
    lemma_replace_split(s1, o, oid, r1t.len() as int);
    assert(s1.take(r1t.len() as int) =~= r1t);
    assert(s1.skip(r1t.len() as int) =~= n);
    let head = quote + (wid + b);
    assert(n.take(82) =~= head);
    assert forall|k: int| 82 - 17 < k < 82 implies n[k] != o[0] by {
        assert(n[k] == b[k - 37]);
    }
    lemma_replace_split(n, o, oid, 82);
    lemma_lacks_within(wid, 0, wid.len() as int, '_');
    assert(lacks(head, '_')) by {
        assert forall|k: int| 0 <= k < head.len() implies head[k] != '_' by {
            if k == 0 {
            } else if k < 37 {
                assert(head[k] == wid[k - 1]);
            } else {
                assert(head[k] == b[k - 37]);
            }
        }
    }
    lemma_replace_absent(head, o, oid, 0);
    let m = n.skip(82);
    assert(m =~= o + (c0 + z1));
    assert(m.take(17) =~= o);
    lemma_replace_at_start(m, o, oid);
    assert(m.skip(17) =~= c0 + z1);
    let cz = c0 + z1;
    assert(cz.take(23) =~= c0);
    assert forall|k: int| 23 - 17 < k < 23 implies cz[k] != o[0] by {
        assert(cz[k] == c0[k]);
    }
    lemma_replace_split(cz, o, oid, 23);
    lemma_replace_absent(c0, o, oid, 0);
    assert(cz.skip(23) =~= z1);
    let x = replace_all(r1t, o, oid);
    let y = replace_all(z1, o, oid);
    assert(query_text() == x + (head + (oid + (c0 + y))));
    // Where the two needles stand.
    let hay = query_text();
    let win = "'"@ + wid + "') { $kind = 'windows' }"@;
    let off = "'"@ + oid + "') { $kind = 'office' }"@;
    let i1 = x.len() as int;
    assert(hay.subrange(i1, i1 + win.len()) =~= win) by {
        assert forall|k: int| 0 <= k < win.len() implies hay[i1 + k] == win[k] by {
            assert(hay[i1 + k] == head[k]);
            if 37 <= k {
                assert(b.take(24)[k - 37] == b[k - 37]);
            }
        }
    }
    let i2 = x.len() + 81int;
    assert(hay.subrange(i2, i2 + off.len()) =~= off) by {
        assert forall|k: int| 0 <= k < off.len() implies hay[i2 + k] == off[k] by {
            if k == 0 {
                assert(hay[i2] == head[81]);
                assert(head[81] == b[44]);
            } else if k < 37 {
                assert(hay[i2 + k] == oid[k - 1]);
            } else {
                assert(hay[i2 + k] == c0[k - 37]);
            }
        }
    }
}

/// The query as it is actually run.
pub fn query() -> (r: String)
    ensures
        r@ == query_text(),
{
    let template = chars_of(QUERY);
    let windows_mark = chars_of("__WINDOWS_APP_ID__");
    let windows_id = chars_of(WINDOWS_APP_ID);
    let office_mark = chars_of("__OFFICE_APP_ID__");
    let office_id = chars_of(OFFICE_APP_ID);
    let once = replaced(template.as_slice(), windows_mark.as_slice(), windows_id.as_slice());
    let twice = replaced(once.as_slice(), office_mark.as_slice(), office_id.as_slice());
    string_of(twice.as_slice())
}

/// What a run printed, read back: the licences, the facts, and what the
/// markers said.
pub struct ScanV {
    pub lics: Seq<LicenseV>,
    pub facts: Seq<FactV>,
    pub flags: FlagsV,
}

/// Nothing read yet.
pub open spec fn empty_scan() -> ScanV {
    ScanV {
        lics: Seq::empty(),
        facts: Seq::empty(),
        flags: FlagsV { ran: false, no_oem: false, error: Seq::empty() },
    }
}

/// A line's fields: the pieces between `|`, each without surrounding white
/// space.
pub open spec fn fields_of(line: Seq<char>) -> Seq<Seq<char>> {
    split_on(line, '|').map_values(|p: Seq<char>| trim(p))
}

/// What a marker line (`#` and then `rest`) says about the run.
pub open spec fn read_marker(st: ScanV, rest: Seq<char>) -> ScanV {
    if rest == "begin"@ {
        ScanV {
            lics: st.lics,
            facts: st.facts,
            flags: FlagsV { ran: true, no_oem: st.flags.no_oem, error: st.flags.error },
        }
    } else if rest == "no-oem"@ {
        ScanV {
            lics: st.lics,
            facts: st.facts,
            flags: FlagsV { ran: st.flags.ran, no_oem: true, error: st.flags.error },
        }
    } else if rest.len() >= 4 && rest.take(4) == "err="@ {
        ScanV {
            lics: st.lics,
            facts: st.facts,
            flags: FlagsV {
                ran: st.flags.ran,
                no_oem: st.flags.no_oem,
                error: trim(rest.skip(4)),
            },
        }
    } else {
        st
    }
}

/// What a record line with the fields `parts` adds: a fact for a whole `fact`
/// record, a licence for a whole `lic` record, nothing for anything else. The
/// last field takes in whatever follows it, joined back up with `|`.
pub open spec fn read_record(st: ScanV, parts: Seq<Seq<char>>) -> ScanV {
    if parts[0] == "fact"@ && parts.len() >= 4 {
        ScanV {
            lics: st.lics,
            facts: st.facts.push(
                FactV { section: parts[1], item: parts[2], value: join_with(parts.skip(3), '|') },
            ),
            flags: st.flags,
        }
    } else if parts[0] == "lic"@ && parts.len() >= 9 {
        ScanV {
            lics: st.lics.push(
                LicenseV {
                    kind: parts[1],
                    name: parts[2],
                    status: status_name_of(parts[3]),
                    channel: parts[4],
                    key: parts[5],
                    expires: parts[6],
                    kms: parts[7],
                    description: join_with(parts.skip(8), '|'),
                },
            ),
            facts: st.facts,
            flags: st.flags,
        }
    } else {
        st
    }
}

/// What one printed line adds. Trailing white space is dropped first; a blank
/// line adds nothing, a line starting with `#` is a marker, and anything else
/// is read as a record.
pub open spec fn read_line(st: ScanV, raw: Seq<char>) -> ScanV {
    let line = trim_end(raw);
    if line.len() == 0 {
        st
    } else if line[0] == '#' {
        read_marker(st, line.skip(1))
    } else {
        read_record(st, fields_of(line))
    }
}

/// The lines read in turn.
pub open spec fn read_lines(lines: Seq<Seq<char>>) -> ScanV
    decreases lines.len(),
{
    if lines.len() == 0 {
        empty_scan()
    } else {
        read_line(read_lines(lines.drop_last()), lines.last())
    }
}

/// Everything a run printed, read back, with the licences in display order.
pub open spec fn parsed(stdout: Seq<char>) -> ScanV {
    let r = read_lines(split_on(stdout, '\n'));
    ScanV { lics: display_order(r.lics), facts: r.facts, flags: r.flags }
}

/// The licences `parse` gives back are exactly the whole `lic` records the run
/// printed, none lost and none added, and they come in display order.
pub proof fn law_parsed_licences_are_the_records_in_order(stdout: Seq<char>)
    ensures
        is_in_display_order(parsed(stdout).lics),
        parsed(stdout).lics.to_multiset() == read_lines(split_on(stdout, '\n')).lics.to_multiset(),
{
    law_display_order_is_ordered(read_lines(split_on(stdout, '\n')).lics);
    law_display_order_loses_nothing(read_lines(split_on(stdout, '\n')).lics);
}

/// Whether a printed line is the begin marker, once trailing white space is
/// dropped.
pub open spec fn is_begin_line(raw: Seq<char>) -> bool {
    trim_end(raw) == "#begin"@
}

proof fn lemma_begin_step(st: ScanV, raw: Seq<char>)
    ensures
        read_line(st, raw).flags.ran == (st.flags.ran || is_begin_line(raw)),
{
    reveal_strlit("#begin");
    reveal_strlit("begin");
    let line = trim_end(raw);
    let marker = "#begin"@;
    assert(marker.len() == 6 && marker[0] == '#');
    assert(marker.skip(1) =~= "begin"@);
    if line.len() > 0 && line[0] == '#' {
        if line.skip(1) == "begin"@ {
            assert(line.len() == 6);
            assert(line =~= marker) by {
                assert forall|k: int| 0 <= k < line.len() implies line[k] == marker[k] by {
                    if k > 0 {
                        assert(line[k] == line.skip(1)[k - 1]);
                        assert(marker[k] == marker.skip(1)[k - 1]);
                    }
                }
            }
        } else if line == "#begin"@ {
            assert(line.skip(1) =~= "begin"@);
        }
    } else if line.len() > 0 {
        assert(line != "#begin"@) by {
            if line == "#begin"@ {
                assert(line[0] == '#');
            }
        }
    }
}

proof fn lemma_ran_iff_begin(lines: Seq<Seq<char>>)
    ensures
        read_lines(lines).flags.ran <==> exists|i: int| 0 <= i < lines.len() && is_begin_line(#[trigger] lines[i]),
    decreases lines.len(),
{
    if lines.len() > 0 {
        let t = lines.drop_last();
        lemma_ran_iff_begin(t);
        lemma_begin_step(read_lines(t), lines.last());
        if read_lines(lines).flags.ran {
            if is_begin_line(lines.last()) {
                assert(is_begin_line(lines[lines.len() - 1]));
            } else {
                let i = choose|i: int| 0 <= i < t.len() && is_begin_line(#[trigger] t[i]);
                assert(lines[i] == t[i]);
            }
        } else {
            assert forall|i: int| 0 <= i < lines.len() implies !is_begin_line(#[trigger] lines[i]) by {
                if i < t.len() {
                    assert(lines[i] == t[i]);
                }
            }
        }
    }
}

/// A run counts as started exactly when one of its lines is the begin
/// marker: without it the query never got going, and an empty list then means
/// "not read", not "nothing licensed".
pub proof fn law_a_run_started_only_with_its_marker(stdout: Seq<char>)
    ensures
        parsed(stdout).flags.ran <==> exists|i: int|
            0 <= i < split_on(stdout, '\n').len() && is_begin_line(
                #[trigger] split_on(stdout, '\n')[i],
            ),
{
    lemma_ran_iff_begin(split_on(stdout, '\n'));
}

/// `line` is `lit` exactly when it is `#` and then `word`, where `lit` is `#`
/// and then `word`.
proof fn lemma_hash_word(line: Seq<char>, word: Seq<char>, lit: Seq<char>)
    requires
        lit.len() == word.len() + 1,
        lit[0] == '#',
        lit.skip(1) == word,
    ensures
        (line.len() > 0 && line[0] == '#' && line.skip(1) == word) <==> line == lit,
{
    if line.len() > 0 && line[0] == '#' && line.skip(1) == word {
        assert(line =~= lit) by {
            assert forall|k: int| 0 <= k < line.len() implies line[k] == lit[k] by {
                if k > 0 {
                    assert(line[k] == line.skip(1)[k - 1]);
                    assert(lit[k] == lit.skip(1)[k - 1]);
                }
            }
        }
    }
}

/// Whether a printed line is the marker saying the firmware holds no OEM
/// key, once trailing white space is dropped.
pub open spec fn is_no_oem_line(raw: Seq<char>) -> bool {
    trim_end(raw) == "#no-oem"@
}

proof fn lemma_no_oem_step(st: ScanV, raw: Seq<char>)
    ensures
        read_line(st, raw).flags.no_oem == (st.flags.no_oem || is_no_oem_line(raw)),
{
    reveal_strlit("#no-oem");
    reveal_strlit("no-oem");
    reveal_strlit("begin");
    let line = trim_end(raw);
    assert("#no-oem"@.skip(1) =~= "no-oem"@);
    lemma_hash_word(line, "no-oem"@, "#no-oem"@);
    if line.len() > 0 && line[0] == '#' && line.skip(1) == "begin"@ {
        assert(line.skip(1).len() != "no-oem"@.len());
    }
}

proof fn lemma_no_oem_iff_marker(lines: Seq<Seq<char>>)
    ensures
        read_lines(lines).flags.no_oem <==> exists|i: int| 0 <= i < lines.len() && is_no_oem_line(#[trigger] lines[i]),
    decreases lines.len(),
{
    if lines.len() > 0 {
        let t = lines.drop_last();
        lemma_no_oem_iff_marker(t);
        lemma_no_oem_step(read_lines(t), lines.last());
        if read_lines(lines).flags.no_oem {
            if is_no_oem_line(lines.last()) {
                assert(is_no_oem_line(lines[lines.len() - 1]));
            } else {
                let i = choose|i: int| 0 <= i < t.len() && is_no_oem_line(#[trigger] t[i]);
                assert(lines[i] == t[i]);
            }
        } else {
            assert forall|i: int| 0 <= i < lines.len() implies !is_no_oem_line(#[trigger] lines[i]) by {
                if i < t.len() {
                    assert(lines[i] == t[i]);
                }
            }
        }
    }
}

/// The run says the firmware holds no OEM key exactly when one of its lines is
/// the `#no-oem` marker.
pub proof fn law_no_oem_key_only_with_its_marker(stdout: Seq<char>)
    ensures
        parsed(stdout).flags.no_oem <==> exists|i: int|
            0 <= i < split_on(stdout, '\n').len() && is_no_oem_line(
                #[trigger] split_on(stdout, '\n')[i],
            ),
{
    lemma_no_oem_iff_marker(split_on(stdout, '\n'));
}

/// The message a printed line reports as the run's error: for a line that,
/// once trailing white space is dropped, starts with `#err=`, what follows
/// that, without surrounding white space; nothing for any other line.
pub open spec fn error_message(raw: Seq<char>) -> Option<Seq<char>> {
    let line = trim_end(raw);
    if line.len() >= 5 && line.take(5) == "#err="@ {
        Some(trim(line.skip(5)))
    } else {
        None
    }
}

/// The message of the last of `lines` that reports an error, or nothing when
/// none does.
pub open spec fn last_error(lines: Seq<Seq<char>>) -> Seq<char>
    decreases lines.len(),
{
    if lines.len() == 0 {
        Seq::empty()
    } else {
        match error_message(lines.last()) {
            Some(m) => m,
            None => last_error(lines.drop_last()),
        }
    }
}

proof fn lemma_error_step(st: ScanV, raw: Seq<char>)
    ensures
        read_line(st, raw).flags.error == match error_message(raw) {
            Some(m) => m,
            None => st.flags.error,
        },
{
    reveal_strlit("#err=");
    reveal_strlit("err=");
    reveal_strlit("begin");
    reveal_strlit("no-oem");
    let line = trim_end(raw);
    let e = "#err="@;
    if line.len() > 0 && line[0] == '#' {
        let rest = line.skip(1);
        if line.len() >= 5 {
            assert(line.take(5) == e <==> rest.take(4) == "err="@) by {
                if line.take(5) == e {
                    assert forall|k: int| 0 <= k < 4 implies rest.take(4)[k] == "err="@[k] by {
                        assert(rest.take(4)[k] == line.take(5)[k + 1]);
                    }
                    assert(rest.take(4) =~= "err="@);
                }
                if rest.take(4) == "err="@ {
                    assert forall|k: int| 0 <= k < 5 implies line.take(5)[k] == e[k] by {
                        if k > 0 {
                            assert(line.take(5)[k] == rest.take(4)[k - 1]);
                        }
                    }
                    assert(line.take(5) =~= e);
                }
            }
            assert(line.skip(5) =~= rest.skip(4));
        }
        if rest == "begin"@ {
            assert(rest.take(4)[0] == 'b');
        }
        if rest == "no-oem"@ {
            assert(rest.take(4)[0] == 'n');
        }
    } else if line.len() >= 5 && line.take(5) == e {
        assert(line[0] == line.take(5)[0]);
    }
}

proof fn lemma_error_of_lines(lines: Seq<Seq<char>>)
    ensures
        read_lines(lines).flags.error == last_error(lines),
    decreases lines.len(),
{
    if lines.len() > 0 {
        lemma_error_of_lines(lines.drop_last());
        lemma_error_step(read_lines(lines.drop_last()), lines.last());
    }
}

/// The error a run reports is the message of its last `#err=` line, without
/// surrounding white space, and none when no line is one.
pub proof fn law_the_last_error_line_is_the_error(stdout: Seq<char>)
    ensures
        parsed(stdout).flags.error == last_error(split_on(stdout, '\n')),
{
    lemma_error_of_lines(split_on(stdout, '\n'));
}

/// Whether a printed line is a marker: once trailing white space is dropped,
/// it starts with `#`.
pub open spec fn is_marker_line(raw: Seq<char>) -> bool {
    trim_end(raw).len() > 0 && trim_end(raw)[0] == '#'
}

/// A marker line never adds a licence or a fact: leaving one out of what a run
/// printed leaves the licences and the facts read from it as they were.
pub proof fn law_a_marker_line_adds_no_record(
    before: Seq<Seq<char>>,
    marker: Seq<char>,
    after: Seq<Seq<char>>,
)
    requires
        is_marker_line(marker),
    ensures
        read_lines(before.push(marker) + after).lics == read_lines(before + after).lics,
        read_lines(before.push(marker) + after).facts == read_lines(before + after).facts,
    decreases after.len(),
{
    if after.len() == 0 {
        assert(before.push(marker) + after =~= before.push(marker));
        assert(before + after =~= before);
        assert(before.push(marker).drop_last() =~= before);
    } else {
        law_a_marker_line_adds_no_record(before, marker, after.drop_last());
        assert((before.push(marker) + after).drop_last() =~= before.push(marker) + after.drop_last());
        assert((before + after).drop_last() =~= before + after.drop_last());
        assert((before.push(marker) + after).last() == after.last());
        assert((before + after).last() == after.last());
    }
}

/// Whether `s` holds no `|`.
pub open spec fn free_of_bars(s: Seq<char>) -> bool {
    forall|j: int| 0 <= j < s.len() ==> s[j] != '|'
}

/// Every whole `fact` record adds exactly its fact, whatever its section:
/// after any lines, the line `fact|section|item|value` (each field free of
/// `|` and of surrounding white space) adds the fact (section, item, value)
/// after the facts read so far, and no licence.
pub proof fn law_a_fact_line_adds_its_fact(
    lines: Seq<Seq<char>>,
    section: Seq<char>,
    item: Seq<char>,
    value: Seq<char>,
)
    requires
        free_of_bars(section),
        free_of_bars(item),
        free_of_bars(value),
        trim(section) == section,
        trim(item) == item,
        trim(value) == value,
    ensures
        read_lines(lines.push("fact|"@ + section + "|"@ + item + "|"@ + value)).facts == read_lines(
            lines,
        ).facts.push(FactV { section, item, value }),
        read_lines(lines.push("fact|"@ + section + "|"@ + item + "|"@ + value)).lics == read_lines(
            lines,
        ).lics,
{
    reveal_strlit("fact|");
    reveal_strlit("fact");
    reveal_strlit("|");
    let line = "fact|"@ + section + "|"@ + item + "|"@ + value;
    let x1 = "fact"@.push('|');
    let x2 = section.push('|');
    let x3 = item.push('|');
    assert(line =~= x1 + (x2 + (x3 + value)));
    lemma_split_plain("fact"@, '|');
    lemma_split_plain(section, '|');
    lemma_split_plain(item, '|');
    lemma_split_plain(value, '|');
    assert(x1.last() == '|' && x2.last() == '|' && x3.last() == '|');
    crate::text::lemma_split_after_separator(x3, value, '|');
    crate::text::lemma_split_after_separator(x2, x3 + value, '|');
    crate::text::lemma_split_after_separator(x1, x2 + (x3 + value), '|');
    assert(x1.drop_last() =~= "fact"@);
    assert(x2.drop_last() =~= section);
    assert(x3.drop_last() =~= item);
    assert(split_on(x1, '|') == split_on("fact"@, '|').push(Seq::<char>::empty()));
    assert(split_on(x2, '|') == split_on(section, '|').push(Seq::<char>::empty()));
    assert(split_on(x3, '|') == split_on(item, '|').push(Seq::<char>::empty()));
    assert(split_on(line, '|') =~= seq!["fact"@, section, item, value]);
    // The line ends in the value, or in `|` when the value is empty.
    if value.len() > 0 {
        crate::text::lemma_trimmed_ends(value);
        assert(line.last() == value.last());
    } else {
        assert(line.last() == '|');
    }
    assert(trim_end(line) == line);
    assert(line[0] == 'f');
    assert(trim_end("fact"@) == "fact"@);
    assert(trim_start("fact"@) == "fact"@);
    assert(fields_of(line) =~= seq!["fact"@, section, item, value]);
    assert(fields_of(line).skip(3) =~= seq![value]);
    assert(lines.push(line).drop_last() =~= lines);
}

/// The record line made of `fields`, joined by `|`.
pub open spec fn record_line(fields: Seq<Seq<char>>) -> Seq<char> {
    join_with(fields, '|')
}

/// Whether each of `fields` is free of `|` and of surrounding white space, as
/// the query prints them.
pub open spec fn clean_fields(fields: Seq<Seq<char>>) -> bool {
    forall|k: int| 0 <= k < fields.len() ==> free_of_bars(#[trigger] fields[k]) && trim(fields[k]) == fields[k]
}

/// Every whole `lic` record adds exactly its licence, whatever its family:
/// after any lines, the line `lic|kind|name|status|channel|key|expires|kms|description`
/// adds the licence with those fields, its status code named, after the
/// licences read so far, and no fact.
pub proof fn law_a_lic_line_adds_its_licence(
    lines: Seq<Seq<char>>,
    kind: Seq<char>,
    name: Seq<char>,
    status: Seq<char>,
    channel: Seq<char>,
    key: Seq<char>,
    expires: Seq<char>,
    kms: Seq<char>,
    description: Seq<char>,
)
    requires
        clean_fields(seq![kind, name, status, channel, key, expires, kms, description]),
    ensures
        ({
            let line = record_line(
                seq!["lic"@, kind, name, status, channel, key, expires, kms, description],
            );
            &&& read_lines(lines.push(line)).lics == read_lines(lines).lics.push(
                LicenseV {
                    kind,
                    name,
                    status: status_name_of(status),
                    channel,
                    key,
                    expires,
                    kms,
                    description,
                },
            )
            &&& read_lines(lines.push(line)).facts == read_lines(lines).facts
        }),
{
    reveal_strlit("lic");
    let given = seq![kind, name, status, channel, key, expires, kms, description];
    let parts = seq!["lic"@, kind, name, status, channel, key, expires, kms, description];
    let line = record_line(parts);
    assert(trim_end("lic"@) == "lic"@);
    assert(trim_start("lic"@) == "lic"@);
    assert forall|k: int| 0 <= k < parts.len() implies free_of_bars(#[trigger] parts[k]) && trim(parts[k]) == parts[k] by {
        if k > 0 {
            assert(parts[k] == given[k - 1]);
        }
    }
    assert forall|k: int, j: int| 0 <= k < parts.len() && 0 <= j < parts[k].len() implies #[trigger] parts[k][j] != '|' by {
        assert(free_of_bars(parts[k]));
    }
    crate::text::lemma_split_join(parts, '|');
    // The line is the first eight fields joined, a bar, and the description.
    let front = join_with(parts.drop_last(), '|');
    assert(line == front.push('|') + description);
    if description.len() > 0 {
        assert(free_of_bars(given[7]) && trim(given[7]) == given[7]);
        crate::text::lemma_trimmed_ends(description);
        assert(line.last() == description.last());
    } else {
        assert(line.last() == '|');
    }
    assert(trim_end(line) == line);
    assert(line.len() > 0);
    assert(line[0] == 'l') by {
        lemma_join_starts(parts, '|');
    }
    assert(fields_of(line) =~= parts);
    assert(fields_of(line).skip(8) =~= seq![description]);
    reveal_strlit("fact");
    assert("lic"@ != "fact"@) by {
        assert("lic"@.len() != "fact"@.len());
    }
    assert(join_with(seq![description], '|') == description);
    assert(lines.push(line).drop_last() =~= lines);
    assert(read_lines(lines.push(line)) == read_line(read_lines(lines), line));
}

/// Joined text starts with the first piece.
proof fn lemma_join_starts(parts: Seq<Seq<char>>, sep: char)
    requires
        parts.len() > 0,
    ensures
        join_with(parts, sep).len() >= parts[0].len(),
        forall|j: int| 0 <= j < parts[0].len() ==> #[trigger] join_with(parts, sep)[j] == parts[0][j],
    decreases parts.len(),
{
    if parts.len() > 1 {
        lemma_join_starts(parts.drop_last(), sep);
        assert(parts.drop_last()[0] == parts[0]);
    }
}

/// What one line adds only ever extends what was read before it.
proof fn lemma_read_line_extends(st: ScanV, raw: Seq<char>)
    ensures
        st.lics.is_prefix_of(read_line(st, raw).lics),
        st.facts.is_prefix_of(read_line(st, raw).facts),
        st.flags.ran ==> read_line(st, raw).flags.ran,
{
    assert(st.lics.is_prefix_of(st.lics));
    assert(st.facts.is_prefix_of(st.facts));
}

proof fn lemma_prefix_transitive<T>(a: Seq<T>, b: Seq<T>, c: Seq<T>)
    requires
        a.is_prefix_of(b),
        b.is_prefix_of(c),
    ensures
        a.is_prefix_of(c),
{
    assert forall|i: int| 0 <= i < a.len() implies a[i] == c[i] by {
        assert(a[i] == b[i]);
    }
}

/// Reading more lines after some only ever extends what those gave.
proof fn lemma_read_lines_extend(a: Seq<Seq<char>>, b: Seq<Seq<char>>)
    ensures
        read_lines(a).lics.is_prefix_of(read_lines(a + b).lics),
        read_lines(a).facts.is_prefix_of(read_lines(a + b).facts),
        read_lines(a).flags.ran ==> read_lines(a + b).flags.ran,
    decreases b.len(),
{
    if b.len() == 0 {
        assert(a + b =~= a);
        assert(read_lines(a).lics.is_prefix_of(read_lines(a).lics));
        assert(read_lines(a).facts.is_prefix_of(read_lines(a).facts));
    } else {
        lemma_read_lines_extend(a, b.drop_last());
        assert((a + b).drop_last() =~= a + b.drop_last());
        let mid = read_lines(a + b.drop_last());
        lemma_read_line_extends(mid, (a + b).last());
        lemma_prefix_transitive(read_lines(a).lics, mid.lics, read_lines(a + b).lics);
        lemma_prefix_transitive(read_lines(a).facts, mid.facts, read_lines(a + b).facts);
    }
}

/// A run cut short is worth all but its last line: whatever the complete
/// lines of `printed` said is still there, in the same order, however the
/// output continues after its last line ending.
pub proof fn law_a_cut_run_keeps_its_complete_lines(printed: Seq<char>, rest: Seq<char>)
    requires
        printed.len() > 0,
        printed.last() == '\n',
    ensures
        read_lines(split_on(printed, '\n')).lics.is_prefix_of(
            read_lines(split_on(printed + rest, '\n')).lics,
        ),
        parsed(printed).facts.is_prefix_of(parsed(printed + rest).facts),
        parsed(printed).flags.ran ==> parsed(printed + rest).flags.ran,
{
    let whole = split_on(printed, '\n');
    lemma_split_nonempty(printed, '\n');
    crate::text::lemma_split_after_separator(printed, rest, '\n');
    let complete = whole.drop_last();
    assert(whole.last() =~= Seq::<char>::empty());
    assert(whole =~= complete.push(whole.last()));
    assert(read_lines(whole) == read_line(read_lines(complete), whole.last()));
    assert(trim_end(whole.last()) =~= Seq::<char>::empty());
    lemma_read_lines_extend(complete, split_on(rest, '\n'));
}

/// The read-back state as plain values.
pub open spec fn scan_view(lics: Seq<License>, facts: Seq<Fact>, flags: FlagsV) -> ScanV {
    ScanV { lics: license_views(lics), facts: fact_views(facts), flags }
}

/// Each piece without surrounding white space.
fn trim_each(pieces: &Vec<Vec<char>>) -> (r: Vec<Vec<char>>)
    ensures
        r.deep_view() == pieces.deep_view().map_values(|p: Seq<char>| trim(p)),
{
    let mut out: Vec<Vec<char>> = Vec::new();
    let mut i: usize = 0;
    while i < pieces.len()
        invariant
            i <= pieces@.len(),
            out.deep_view() == pieces.deep_view().take(i as int).map_values(
                |p: Seq<char>| trim(p),
            ),
        decreases pieces@.len() - i,
    {
        let t = trimmed(pieces[i].as_slice());
        let ghost before = out.deep_view();
        proof {
            lemma_chars_deep(&t);
            lemma_chars_deep(&pieces@[i as int]);
        }
        out.push(t);
        assert(out.deep_view() =~= before.push(t@));
        i = i + 1;
        assert(out.deep_view() =~= pieces.deep_view().take(i as int).map_values(
            |p: Seq<char>| trim(p),
        ));
    }
    assert(pieces.deep_view().take(pieces@.len() as int) =~= pieces.deep_view());
    out
}

/// Reads a marker line's `rest` into the flags.
fn read_marker_into(rest: &[char], flags: &mut Flags)
    ensures
        read_marker(scan_view(Seq::empty(), Seq::empty(), old(flags)@), rest@).flags
            == final(flags)@,
{
    if chars_are(rest, "begin") {
        flags.ran = true;
    } else if chars_are(rest, "no-oem") {
        flags.no_oem = true;
    } else if rest.len() >= 4 {
        let head = copy_range(rest, 0, 4);
        assert(head@ =~= rest@.take(4));
        if chars_are(head.as_slice(), "err=") {
            let msg = copy_range(rest, 4, rest.len());
            assert(msg@ =~= rest@.skip(4));
            let t = trimmed(msg.as_slice());
            flags.error = string_of(t.as_slice());
        }
    }
}

/// Reads one printed line into what has been read so far.
fn read_line_into(
    raw: &[char],
    lics: &mut Vec<License>,
    facts: &mut Vec<Fact>,
    flags: &mut Flags,
)
    ensures
        scan_view(final(lics)@, final(facts)@, final(flags)@) == read_line(
            scan_view(old(lics)@, old(facts)@, old(flags)@),
            raw@,
        ),
{
    let line = trimmed_end(raw);
    if line.len() == 0 {
        return;
    }
    if line[0] == '#' {
        let rest = copy_range(line.as_slice(), 1, line.len());
        assert(rest@ =~= line@.skip(1));
        read_marker_into(rest.as_slice(), flags);
        return;
    }
    let pieces = split(line.as_slice(), '|');
    let parts = trim_each(&pieces);
    proof {
        lemma_split_nonempty(line@, '|');
    }
    let ghost fields = fields_of(line@);
    assert(parts.deep_view() == fields);
    assert(parts@.len() == fields.len());
    assert forall|k: int| 0 <= k < parts@.len() implies (#[trigger] parts@[k])@ == fields[k] by {
        lemma_chars_deep(&parts@[k]);
    }
    if chars_are(parts[0].as_slice(), "fact") && parts.len() >= 4 {
        let value = join_from(&parts, 3, '|');
        let fact = Fact {
            section: string_of(parts[1].as_slice()),
            item: string_of(parts[2].as_slice()),
            value: string_of(value.as_slice()),
        };
        let ghost before = fact_views(facts@);
        facts.push(fact);
        assert(fact_views(facts@) =~= before.push(fact@));
    } else if chars_are(parts[0].as_slice(), "lic") && parts.len() >= 9 {
        let description = join_from(&parts, 8, '|');
        let lic = License {
            kind: string_of(parts[1].as_slice()),
            name: string_of(parts[2].as_slice()),
            status: status_name_chars(parts[3].as_slice()),
            channel: string_of(parts[4].as_slice()),
            key: string_of(parts[5].as_slice()),
            expires: string_of(parts[6].as_slice()),
            kms: string_of(parts[7].as_slice()),
            description: string_of(description.as_slice()),
        };
        let ghost before = license_views(lics@);
        lics.push(lic);
        assert(license_views(lics@) =~= before.push(lic@));
    }
}

/// The query's output read into licences, facts, and what its markers said.
/// The licences come out in display order, where names written in ASCII
/// tie-break by their ASCII lowercase forms.
pub fn parse(stdout: &str) -> (r: (Vec<License>, Vec<Fact>, Flags))
    ensures
        scan_view(r.0@, r.1@, r.2@) == parsed(stdout@),
        names_lower_as_ascii(read_lines(split_on(stdout@, '\n')).lics),
{
    let cs = chars_of(stdout);
    let lines = split(cs.as_slice(), '\n');
    let ghost all = split_on(stdout@, '\n');
    let mut lics: Vec<License> = Vec::new();
    let mut facts: Vec<Fact> = Vec::new();
    let mut flags = Flags::new();
    let mut i: usize = 0;
    assert(all.take(0) =~= Seq::<Seq<char>>::empty());
    assert(license_views(lics@) =~= Seq::<LicenseV>::empty());
    assert(fact_views(facts@) =~= Seq::<FactV>::empty());
    assert(scan_view(lics@, facts@, flags@) == empty_scan());
    while i < lines.len()
        invariant
            lines.deep_view() == all,
            i <= lines@.len(),
            scan_view(lics@, facts@, flags@) == read_lines(all.take(i as int)),
        decreases lines@.len() - i,
    {
        proof {
            lemma_chars_deep(&lines@[i as int]);
            assert(all.take(i + 1).drop_last() =~= all.take(i as int));
        }
        read_line_into(lines[i].as_slice(), &mut lics, &mut facts, &mut flags);
        i = i + 1;
    }
    assert(all.take(lines@.len() as int) =~= all);
    sort_licenses(&mut lics);
    (lics, facts, flags)
}

/// The OEM key an elevated run left behind, from what the file held: the
/// contents without surrounding white space, or nothing when there was no
/// file or it held only white space. A machine with no OEM key in firmware
/// writes an empty file, which is an answer and not a key.
pub open spec fn oem_key_of(contents: Option<Seq<char>>) -> Option<Seq<char>> {
    match contents {
        Some(c) => if trim(c).len() == 0 {
            None
        } else {
            Some(trim(c))
        },
        None => None,
    }
}

/// The characters of an optional text.
pub open spec fn text_of(contents: Option<&str>) -> Option<Seq<char>> {
    match contents {
        Some(c) => Some(c@),
        None => None,
    }
}

/// The OEM key from what the elevated run's file held.
pub fn oem_key_from(contents: Option<&str>) -> (r: Option<String>)
    ensures
        r matches Some(k) ==> oem_key_of(text_of(contents)) == Some(k@),
        r is None ==> oem_key_of(text_of(contents)) is None,
{
    match contents {
        Some(c) => {
            let cs = chars_of(c);
            let t = trimmed(cs.as_slice());
            if t.len() == 0 {
                None
            } else {
                Some(string_of(t.as_slice()))
            }
        },
        None => None,
    }
}

/// The script the elevated run executes: one property, written to `file`
/// and nothing else. The path goes inside a single-quoted PowerShell string,
/// so each quote in it is doubled.
pub open spec fn oem_script(file: Seq<char>) -> Seq<char> {
    "$ErrorActionPreference='SilentlyContinue';$k=(Get-CimInstance SoftwareLicensingService).OA3xOriginalProductKey;Set-Content -LiteralPath '"@
        + replace_all(file, "'"@, "''"@) + "' -Value ([string]$k).Trim() -Encoding ASCII -NoNewline"@
}

/// The command that reads the OEM key, for the host to run elevated: the
/// shell named by its full path under `system_root`, and the script.
pub open spec fn oem_command(system_root: Seq<char>, file: Seq<char>) -> Seq<Seq<char>> {
    seq![
        system_root + "\\System32\\WindowsPowerShell\\v1.0\\powershell.exe"@,
        "-NoProfile"@,
        "-NonInteractive"@,
        "-Command"@,
        oem_script(file),
    ]
}

/// The command that reads the OEM key, for the host to run elevated.
pub fn oem_argv(system_root: &str, file: &str) -> (r: Vec<String>)
    ensures
        r@.map_values(|s: String| s@) == oem_command(system_root@, file@),
{
    let mut shell = chars_of(system_root);
    crate::text::push_str(&mut shell, "\\System32\\WindowsPowerShell\\v1.0\\powershell.exe");
    let mut script = chars_of(
        "$ErrorActionPreference='SilentlyContinue';$k=(Get-CimInstance SoftwareLicensingService).OA3xOriginalProductKey;Set-Content -LiteralPath '",
    );
    let fc = chars_of(file);
    let quote = chars_of("'");
    let twice = chars_of("''");
    let quoted = replaced(fc.as_slice(), quote.as_slice(), twice.as_slice());
    crate::text::push_all(&mut script, quoted.as_slice());
    crate::text::push_str(&mut script, "' -Value ([string]$k).Trim() -Encoding ASCII -NoNewline");
    let a = chars_of("-NoProfile");
    let b = chars_of("-NonInteractive");
    let c = chars_of("-Command");
    let r = vec![
        string_of(shell.as_slice()),
        string_of(a.as_slice()),
        string_of(b.as_slice()),
        string_of(c.as_slice()),
        string_of(script.as_slice()),
    ];
    assert(r@.map_values(|s: String| s@) =~= oem_command(system_root@, file@));
    r
}

} // verus!
