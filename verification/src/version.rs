//! Version handling: extracting the base part of a version text,
//! comparing parsed versions to decide the update message, and the
//! freshness rule for the cached release lookup.

use vstd::prelude::*;
use crate::num::dec_str;
use crate::num::parse_u64;
use crate::num::parse_u64_spec;
use crate::num::u64_to_string;
use crate::text::eq_str;
use crate::text::find_from;
use crate::text::first_match;
use crate::text::lemma_first_match_bounds;
use vstd::string::StrSliceExecFns;
use vstd::string::StringExecFns;

verus! {

/// The numeric components of a parsed semantic version.
#[derive(Clone, Copy, PartialEq, Eq, Structural, Debug)]
pub struct SemVersion {
    pub major: u64,
    pub minor: u64,
    pub patch: u64,
}

/// How the installed version stands relative to the released one.
#[derive(Clone, Copy, PartialEq, Eq, Structural, Debug)]
pub enum UpdateStatus {
    UpdateAvailable,
    LocalNewer,
    UpToDate,
}

/// Numeric precedence on (major, minor, patch).
pub open spec fn sem_lt(a: SemVersion, b: SemVersion) -> bool {
    ||| a.major < b.major
    ||| (a.major == b.major && a.minor < b.minor)
    ||| (a.major == b.major && a.minor == b.minor && a.patch < b.patch)
}

/// The message to show for a pair of base versions.
pub open spec fn update_status_spec(cur: SemVersion, latest: SemVersion) -> UpdateStatus {
    if sem_lt(cur, latest) {
        UpdateStatus::UpdateAvailable
    } else if sem_lt(latest, cur) {
        UpdateStatus::LocalNewer
    } else {
        UpdateStatus::UpToDate
    }
}

/// Compare two parsed base versions.
pub fn update_status(cur: SemVersion, latest: SemVersion) -> (r: UpdateStatus)
    ensures
        r == update_status_spec(cur, latest),
{
    if cur.major < latest.major || (cur.major == latest.major && cur.minor < latest.minor) || (
    cur.major == latest.major && cur.minor == latest.minor && cur.patch < latest.patch) {
        UpdateStatus::UpdateAvailable
    } else if latest.major < cur.major || (latest.major == cur.major && latest.minor < cur.minor)
        || (latest.major == cur.major && latest.minor == cur.minor && latest.patch < cur.patch) {
        UpdateStatus::LocalNewer
    } else {
        UpdateStatus::UpToDate
    }
}

/// The text before the first dash — the base part of a version text.
pub open spec fn base_version_of(s: Seq<char>) -> Seq<char> {
    match first_match(s, seq!['-'], 0) {
        Option::Some(i) => s.take(i),
        Option::None => s,
    }
}

/// Extract the base part of a version text: everything before the
/// first dash, or the whole text when there is none.
pub fn get_base_version_str(ver_str: &str) -> (r: String)
    ensures
        r@ == base_version_of(ver_str@),
{
    proof {
        reveal_strlit("-");
        assert("-"@ =~= seq!['-']);
    }
    match find_from(ver_str, "-", 0) {
        Option::Some(i) => {
            proof {
                lemma_first_match_bounds(ver_str@, "-"@, 0);
            }
            let r = ver_str.substring_char(0, i).to_owned();
            proof {
                assert(r@ =~= ver_str@.take(i as int));
            }
            r
        },
        Option::None => ver_str.to_owned(),
    }
}

/// What the outside semantic-version parser returns for a text: the
/// numeric triple on success.  The result depends on the text alone.
pub uninterp spec fn semver_triple_of(s: Seq<char>) -> Option<(u64, u64, u64)>;

/// Relies on semver::Version::parse: a pure parse of the text into a
/// version whose numeric components are returned here; an empty text
/// never parses.
#[verifier::external_body]
fn parse_semver(s: &str) -> (r: Option<SemVersion>)
    ensures
        match r {
            Option::Some(v) => semver_triple_of(s@) == Some((v.major, v.minor, v.patch)),
            Option::None => semver_triple_of(s@) is None,
        },
        s@.len() == 0 ==> r is None,
{
    match semver::Version::parse(s) {
        Ok(v) => Some(SemVersion { major: v.major, minor: v.minor, patch: v.patch }),
        Err(_) => None,
    }
}

/// The parsed triple of a text, or all zeros where the parse fails —
/// the fallback the version comparison uses.
pub open spec fn parsed_or_zero(s: Seq<char>) -> SemVersion {
    match semver_triple_of(s) {
        Option::Some(t) => SemVersion { major: t.0, minor: t.1, patch: t.2 },
        Option::None => SemVersion { major: 0, minor: 0, patch: 0 },
    }
}

/// Compare the base parts of two full version texts: each is parsed
/// by the outside parser, an unparsable one counting as 0.0.0.
pub fn compare_versions(current_full: &str, latest_full: &str) -> (r: UpdateStatus)
    ensures
        r == update_status_spec(
            parsed_or_zero(base_version_of(current_full@)),
            parsed_or_zero(base_version_of(latest_full@)),
        ),
{
    let cb = get_base_version_str(current_full);
    let lb = get_base_version_str(latest_full);
    let cur = match parse_semver(cb.as_str()) {
        Option::Some(v) => v,
        Option::None => SemVersion { major: 0, minor: 0, patch: 0 },
    };
    let latest = match parse_semver(lb.as_str()) {
        Option::Some(v) => v,
        Option::None => SemVersion { major: 0, minor: 0, patch: 0 },
    };
    update_status(cur, latest)
}

/// The version text stored after the separator of a cache line.
pub open spec fn cache_version_part(cached: Seq<char>) -> Seq<char> {
    match first_match(cached, seq!['|'], 0) {
        Option::Some(i) => cached.skip(i + 1),
        Option::None => cached,
    }
}

/// A cache line "timestamp|full-version" may be reused when the
/// timestamp parses, does not lie in the future, is younger than an
/// hour, and the cached base version equals the current one.
pub open spec fn cache_fresh(cached: Seq<char>, now: u64, current_base: Seq<char>) -> bool {
    match first_match(cached, seq!['|'], 0) {
        Option::Some(i) => match parse_u64_spec(cached.take(i)) {
            Option::Some(ts) => ts <= now && now - ts < 3600 && base_version_of(
                cached.skip(i + 1),
            ) == current_base,
            Option::None => false,
        },
        Option::None => false,
    }
}

/// Decide whether a cached lookup can be reused: the full cached
/// version when the line is fresh, nothing otherwise.
pub fn check_cache(cached: &str, now: u64, current_base: &str) -> (r: Option<String>)
    ensures
        match r {
            Option::Some(s) => cache_fresh(cached@, now, current_base@) && s@
                == cache_version_part(cached@),
            Option::None => !cache_fresh(cached@, now, current_base@),
        },
{
    proof {
        reveal_strlit("|");
        assert("|"@ =~= seq!['|']);
    }
    let len = cached.unicode_len();
    match find_from(cached, "|", 0) {
        Option::Some(i) => {
            proof {
                lemma_first_match_bounds(cached@, "|"@, 0);
            }
            let ts_text = cached.substring_char(0, i);
            let ver = cached.substring_char(i + 1, len);
            proof {
                assert(ts_text@ =~= cached@.take(i as int));
                assert(ver@ =~= cached@.skip(i as int + 1));
            }
            match parse_u64(ts_text) {
                Option::Some(ts) => {
                    if ts <= now && now - ts < 3600 {
                        let ver_base = get_base_version_str(ver);
                        if eq_str(ver_base.as_str(), current_base) {
                            Some(ver.to_owned())
                        } else {
                            None
                        }
                    } else {
                        None
                    }
                },
                Option::None => None,
            }
        },
        Option::None => None,
    }
}

/// The cache line to write after a fresh lookup: the time, the
/// separator, and the full version text.
pub fn format_cache_entry(now: u64, ver: &str) -> (r: String)
    ensures
        r@ == dec_str(now as int) + seq!['|'] + ver@,
{
    proof {
        reveal_strlit("|");
        assert("|"@ =~= seq!['|']);
    }
    let mut out = u64_to_string(now);
    out.append("|");
    out.append(ver);
    proof {
        assert(out@ =~= dec_str(now as int) + seq!['|'] + ver@);
    }
    out
}

/// The version reported by a release lookup: the first result's
/// version text, or the not-found report when the result list is
/// empty.
pub fn first_result_version(versions: Vec<String>) -> (r: Result<String, String>)
    ensures
        versions@.len() > 0 ==> r == Result::<String, String>::Ok(versions@[0]),
        versions@.len() == 0 ==> match r {
            Result::Err(e) => e@ == "Package 'neocash' not found in AUR"@,
            Result::Ok(_) => false,
        },
{
    let mut versions = versions;
    if versions.len() > 0 {
        let ghost all = versions@;
        let first = versions.remove(0);
        proof {
            assert(first == all[0]);
        }
        Ok(first)
    } else {
        Err("Package 'neocash' not found in AUR".to_owned())
    }
}

} // verus!
