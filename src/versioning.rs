//! Worker image versions.

use vstd::prelude::*;

use core::cmp::Ordering;

use crate::plan::strings_view;
use crate::text::{has_prefix, less_than, seq_lt};

verus! {

#[verifier::external_type_specification]
#[verifier::external_body]
pub struct ExRegex(regex::Regex);

#[verifier::external_type_specification]
#[verifier::external_body]
pub struct ExVersion(semver::Version);

/// Whether the regex crate accepts `pattern`.
pub uninterp spec fn regex_compiles(pattern: Seq<char>) -> bool;

/// Whether the regular expression `pattern` matches somewhere in `text`.
pub uninterp spec fn regex_matches(pattern: Seq<char>, text: Seq<char>) -> bool;

/// Whether `text` is a semantic version as the semver crate reads it.
pub uninterp spec fn semver_parses(text: Seq<char>) -> bool;

/// The order of the semantic versions written `a` and `b`.
pub uninterp spec fn semver_order(a: Seq<char>, b: Seq<char>) -> Ordering;

/// A compiled regular expression, with the pattern it was compiled from.
/// Only `compile_pattern` builds one, so the two always belong together.
pub struct Pattern {
    source: String,
    compiled: regex::Regex,
}

impl Pattern {
    pub closed spec fn source(&self) -> Seq<char> {
        self.source@
    }
}

/// A parsed semantic version, with the text it was parsed from. Only
/// `parse_semver` builds one, so the two always belong together.
pub struct SemVer {
    text: String,
    parsed: semver::Version,
}

impl SemVer {
    pub closed spec fn text(&self) -> Seq<char> {
        self.text@
    }
}

/// Relies on `regex::Regex::new`, which compiles `pattern` or refuses it.
#[verifier::external_body]
fn compile_pattern(pattern: &str) -> (r: Option<Pattern>)
    ensures
        r.is_some() == regex_compiles(pattern@),
        r.is_some() ==> r.unwrap().source() == pattern@,
{
    match regex::Regex::new(pattern) {
        Ok(compiled) => Some(Pattern { source: pattern.to_string(), compiled }),
        Err(_) => None,
    }
}

/// Relies on `regex::Regex::is_match`: whether the pattern matches
/// somewhere in `text`.
#[verifier::external_body]
fn pattern_matches(p: &Pattern, text: &str) -> (r: bool)
    ensures
        r == regex_matches(p.source(), text@),
{
    p.compiled.is_match(text)
}

/// Relies on `semver::Version::parse`, which reads `text` as a semantic
/// version or refuses it.
#[verifier::external_body]
fn parse_semver(text: &str) -> (r: Option<SemVer>)
    ensures
        r.is_some() == semver_parses(text@),
        r.is_some() ==> r.unwrap().text() == text@,
{
    match semver::Version::parse(text) {
        Ok(parsed) => Some(SemVer { text: text.to_string(), parsed }),
        Err(_) => None,
    }
}

/// Relies on `semver::Version`'s `Ord::cmp`: the order of two versions, by
/// their fields in turn (numbers, pre-release, build metadata).
#[verifier::external_body]
fn compare_semver(a: &SemVer, b: &SemVer) -> (r: Ordering)
    ensures
        r == semver_order(a.text(), b.text()),
{
    a.parsed.cmp(&b.parsed)
}

/// The pattern a version must match: one to three dot-separated numbers,
/// the last of which may be `*`.
pub open spec fn version_pattern() -> Seq<char> {
    r"^(\d+\.)?(\d+\.)?(\*|\d+)$"@
}

/// `version` passes the version check.
pub open spec fn version_valid(version: Seq<char>) -> bool {
    regex_compiles(version_pattern()) && regex_matches(version_pattern(), version)
}

pub open spec fn invalid_version_message(version: Seq<char>) -> Seq<char> {
    "Invalid version '"@ + version + "'. Version numbers should follow semantic versioning."@
}

pub open spec fn unparsable_version_message(version: Seq<char>) -> Seq<char> {
    "Invalid version '"@ + version + "'. Please ensure your version number follows 'MAJOR.MINOR.PATCH'."@
}

/// Checks that `version` looks like a version number.
pub fn validate_version(version: &str) -> (r: Result<(), String>)
    ensures
        r.is_ok() == version_valid(version@),
        r.is_err() ==> r->Err_0@ == invalid_version_message(version@),
{
    let valid = match compile_pattern(r"^(\d+\.)?(\d+\.)?(\*|\d+)$") {
        Some(p) => pattern_matches(&p, version),
        None => false,
    };
    if valid {
        Ok(())
    } else {
        let mut m = String::from_str("Invalid version '");
        m.append(version);
        m.append("'. Version numbers should follow semantic versioning.");
        Err(m)
    }
}

fn unparsable(version: &str) -> (r: String)
    ensures
        r@ == unparsable_version_message(version@),
{
    let mut m = String::from_str("Invalid version '");
    m.append(version);
    m.append("'. Please ensure your version number follows 'MAJOR.MINOR.PATCH'.");
    m
}

/// `r` is the outcome of comparing the versions `v1` and `v2`.
pub open spec fn comparison(v1: Seq<char>, v2: Seq<char>, r: Result<Ordering, String>) -> bool {
    if !version_valid(v1) {
        r.is_err() && r->Err_0@ == invalid_version_message(v1)
    } else if !version_valid(v2) {
        r.is_err() && r->Err_0@ == invalid_version_message(v2)
    } else if semver_parses(v1) && semver_parses(v2) {
        r == Ok::<Ordering, String>(semver_order(v1, v2))
    } else {
        r.is_err() && r->Err_0@ == unparsable_version_message(v1)
    }
}

/// Compares two versions by semantic-version precedence, after checking
/// both. A refusal of either by the semver reader names `v1`.
pub fn compare_versions(v1: &str, v2: &str) -> (r: Result<Ordering, String>)
    ensures
        comparison(v1@, v2@, r),
{
    match validate_version(v1) {
        Ok(()) => {},
        Err(e) => {
            return Err(e);
        },
    }
    match validate_version(v2) {
        Ok(()) => {},
        Err(e) => {
            return Err(e);
        },
    }
    let a = match parse_semver(v1) {
        Some(a) => a,
        None => {
            return Err(unparsable(v1));
        },
    };
    let b = match parse_semver(v2) {
        Some(b) => b,
        None => {
            return Err(unparsable(v1));
        },
    };
    Ok(compare_semver(&a, &b))
}

/// What follows the last `c` in `s`; all of `s` when it holds no `c`.
pub open spec fn after_last(s: Seq<char>, c: char) -> Seq<char>
    decreases s.len(),
{
    if s.len() == 0 {
        Seq::empty()
    } else if s.last() == c {
        Seq::empty()
    } else {
        after_last(s.drop_last(), c).push(s.last())
    }
}

/// The repository under which the images of the worker `name` are tagged.
pub open spec fn worker_repository(name: Seq<char>) -> Seq<char> {
    "geoengine-local/"@ + name
}

/// `v` is the version part of one of `tags` that belongs to the worker `name`.
pub open spec fn is_worker_version(name: Seq<char>, tags: Seq<Seq<char>>, v: Seq<char>) -> bool {
    exists|i: int|
        0 <= i < tags.len() && has_prefix(#[trigger] tags[i], worker_repository(name)) && v
            == after_last(tags[i], ':')
}

/// What follows the last `:` of `s`; all of `s` when it holds none.
pub fn tag_suffix(s: &str) -> (r: String)
    ensures
        r@ == after_last(s@, ':'),
{
    let n = s.unicode_len();
    let mut i: usize = n;
    assert(s@.subrange(0, n as int) =~= s@);
    assert(s@.subrange(n as int, n as int) =~= Seq::<char>::empty());
    assert(after_last(s@, ':') =~= after_last(s@.subrange(0, n as int), ':') + s@.subrange(n as int, n as int));
    while i > 0
        invariant
            i <= n,
            n == s@.len(),
            after_last(s@, ':') == after_last(s@.subrange(0, i as int), ':') + s@.subrange(
                i as int,
                n as int,
            ),
        decreases i,
    {
        let c = s.get_char(i - 1);
        let ghost pre = s@.subrange(0, i as int);
        assert(pre.drop_last() =~= s@.subrange(0, i - 1));
        assert(pre.last() == c);
        if c == ':' {
            assert(after_last(pre, ':') =~= Seq::<char>::empty());
            return String::from_str(s.substring_char(i, n));
        }
        assert(s@.subrange(i - 1, n as int) =~= seq![c] + s@.subrange(i as int, n as int));
        assert(after_last(s@, ':') =~= after_last(s@.subrange(0, i - 1), ':') + s@.subrange(
            i - 1,
            n as int,
        ));
        i = i - 1;
    }
    assert(s@.subrange(0, n as int) =~= s@);
    String::from_str(s)
}

fn starts_with_text(s: &str, p: &str) -> (r: bool)
    ensures
        r == has_prefix(s@, p@),
{
    let n = s.unicode_len();
    let m = p.unicode_len();
    if m > n {
        return false;
    }
    let mut i: usize = 0;
    while i < m
        invariant
            m <= n,
            n == s@.len(),
            m == p@.len(),
            i <= m,
            forall|j: int| 0 <= j < i ==> s@[j] == p@[j],
        decreases m - i,
    {
        if s.get_char(i) != p.get_char(i) {
            assert(s@.subrange(0, m as int)[i as int] != p@[i as int]);
            return false;
        }
        i = i + 1;
    }
    assert(s@.subrange(0, m as int) =~= p@);
    true
}

/// The greatest version, in string order, among the image tags `repo_tags`
/// that belong to the worker `worker_name`.
pub fn get_latest_worker_version(worker_name: &str, repo_tags: &Vec<String>) -> (r: Option<String>)
    ensures
        r.is_none() <==> !exists|v: Seq<char>| #[trigger] is_worker_version(
            worker_name@,
            strings_view(repo_tags@),
            v,
        ),
        r.is_some() ==> is_worker_version(
            worker_name@,
            strings_view(repo_tags@),
            r.unwrap()@,
        ),
        r.is_some() ==> forall|v: Seq<char>|
            #[trigger] is_worker_version(worker_name@, strings_view(repo_tags@), v) ==> !seq_lt(
                r.unwrap()@,
                v,
            ),
{
    let ghost tags = strings_view(repo_tags@);
    let mut repository = String::from_str("geoengine-local/");
    repository.append(worker_name);
    let mut best: Option<String> = None;
    let n = repo_tags.len();
    let mut i: usize = 0;
    while i < n
        invariant
            n == repo_tags@.len(),
            tags == strings_view(repo_tags@),
            repository@ == worker_repository(worker_name@),
            i <= n,
            best.is_none() ==> forall|j: int|
                0 <= j < i ==> !has_prefix(#[trigger] tags[j], worker_repository(worker_name@)),
            best.is_some() ==> exists|j: int|
                0 <= j < i && has_prefix(#[trigger] tags[j], worker_repository(worker_name@))
                    && best.unwrap()@ == after_last(tags[j], ':'),
            best.is_some() ==> forall|j: int|
                0 <= j < i && has_prefix(#[trigger] tags[j], worker_repository(worker_name@))
                    ==> !seq_lt(best.unwrap()@, after_last(tags[j], ':')),
        decreases n - i,
    {
        assert(tags[i as int] == repo_tags@[i as int]@);
        if starts_with_text(repo_tags[i].as_str(), repository.as_str()) {
            let v = tag_suffix(repo_tags[i].as_str());
            let replace = match &best {
                None => true,
                Some(b) => less_than(b.as_str(), v.as_str()),
            };
            if replace {
                proof {
                    if best.is_some() {
                        let b = best.unwrap()@;
                        assert forall|j: int|
                            0 <= j < i && has_prefix(
                                #[trigger] tags[j],
                                worker_repository(worker_name@),
                            ) implies !seq_lt(v@, after_last(tags[j], ':')) by {
                            let w = after_last(tags[j], ':');
                            assert(!seq_lt(b, w));
                            if seq_lt(v@, w) {
                                crate::text::lemma_seq_lt_transitive(b, v@, w);
                            }
                        }
                    }
                    crate::text::lemma_seq_lt_irreflexive(v@);
                }
                best = Some(v);
            } else {
                proof {
                    let b = best.unwrap()@;
                    if seq_lt(b, v@) {
                    } else if b != v@ {
                        crate::text::lemma_seq_lt_total(b, v@);
                    }
                    crate::text::lemma_seq_lt_irreflexive(b);
                }
            }
        }
        i = i + 1;
    }
    proof {
        if best.is_none() {
            assert forall|v: Seq<char>| !is_worker_version(worker_name@, tags, v) by {
                if is_worker_version(worker_name@, tags, v) {
                    let j = choose|j: int|
                        0 <= j < tags.len() && has_prefix(
                            #[trigger] tags[j],
                            worker_repository(worker_name@),
                        ) && v == after_last(tags[j], ':');
                    assert(!has_prefix(tags[j], worker_repository(worker_name@)));
                }
            }
        } else {
            let j = choose|j: int|
                0 <= j < n && has_prefix(#[trigger] tags[j], worker_repository(worker_name@))
                    && best.unwrap()@ == after_last(tags[j], ':');
            assert(is_worker_version(worker_name@, tags, best.unwrap()@));
        }
    }
    best
}


/// Compares `version` with the newest version of the worker among the local
/// image tags `repo_tags`; with none, `version` counts as newer.
pub fn compare_worker_version(worker_name: &str, version: &str, repo_tags: &Vec<String>) -> (r:
    Result<Ordering, String>)
    ensures
        !version_valid(version@) ==> r.is_err() && r->Err_0@ == invalid_version_message(version@),
        version_valid(version@) && !(exists|v: Seq<char>|
            #[trigger] is_worker_version(worker_name@, strings_view(repo_tags@), v)) ==> r == Ok::<
            Ordering,
            String,
        >(Ordering::Greater),
        version_valid(version@) && (exists|v: Seq<char>|
            #[trigger] is_worker_version(worker_name@, strings_view(repo_tags@), v)) ==> exists|
            latest: Seq<char>,
        |
            #[trigger] is_worker_version(worker_name@, strings_view(repo_tags@), latest) && (forall|
                v: Seq<char>,
            |
                #[trigger] is_worker_version(worker_name@, strings_view(repo_tags@), v) ==> !seq_lt(
                    latest,
                    v,
                )) && comparison(version@, latest, r),
{
    match validate_version(version) {
        Ok(()) => {},
        Err(e) => {
            return Err(e);
        },
    }
    match get_latest_worker_version(worker_name, repo_tags) {
        Some(latest) => compare_versions(version, latest.as_str()),
        None => Ok(Ordering::Greater),
    }
}

} // verus!
