//! Semantic versions: parsing (`MAJOR.MINOR.PATCH[-PRERELEASE][+BUILD]`)
//! and the precedence that orders them.

use vstd::prelude::*;
use crate::text::{chars_of, string_from_chars, is_alnum, is_digit};
use crate::seqs::{all_digits, chars_all_digits, digits_value, parse_digits, split_chars, split_once, split_once_spec, split_seq, views};

verus! {

/// One dot-separated identifier of a prerelease.
#[derive(Debug)]
pub enum PrereleaseIdentifier {
    Numeric(u64),
    Text(String),
}

/// A parsed semantic version. Build metadata is not kept: it plays no part
/// in precedence.
#[derive(Debug)]
pub struct SemanticVersion {
    pub major: u64,
    pub minor: u64,
    pub patch: u64,
    pub prerelease: Vec<PrereleaseIdentifier>,
}

/// The mathematical value of a prerelease identifier.
pub enum PreId {
    Numeric(u64),
    Text(Seq<char>),
}

/// The mathematical value of a version.
pub struct VersionView {
    pub major: u64,
    pub minor: u64,
    pub patch: u64,
    pub prerelease: Seq<PreId>,
}

impl View for PrereleaseIdentifier {
    type V = PreId;

    open spec fn view(&self) -> PreId {
        match self {
            PrereleaseIdentifier::Numeric(n) => PreId::Numeric(*n),
            PrereleaseIdentifier::Text(s) => PreId::Text(s@),
        }
    }
}

/// The views of a sequence of identifiers.
pub open spec fn pre_views(s: Seq<PrereleaseIdentifier>) -> Seq<PreId> {
    Seq::new(s.len(), |i: int| s[i]@)
}

impl View for SemanticVersion {
    type V = VersionView;

    open spec fn view(&self) -> VersionView {
        VersionView {
            major: self.major,
            minor: self.minor,
            patch: self.patch,
            prerelease: pre_views(self.prerelease@),
        }
    }
}

/// Which identifier list failed validation.
#[derive(Debug, Clone, Copy, PartialEq, Eq, Structural)]
pub enum IdentifierKind {
    BuildMetadata,
    Prerelease,
}

/// Why a string is not a semantic version.
#[derive(Debug, Clone, Copy, PartialEq, Eq, Structural)]
pub enum VersionError {
    /// A `+` with nothing after it.
    EmptyBuildMetadata,
    /// An empty identifier, or a character other than ASCII letters, digits and `-`.
    InvalidIdentifiers(IdentifierKind),
    /// A `-` with nothing after it.
    EmptyPrerelease,
    /// The core is not three dot-separated parts.
    ExpectedCore,
    /// A core part that is empty, not all digits, or has a leading zero.
    InvalidNumeric,
    /// A core part that does not fit in a `u64`.
    NumberTooLarge,
    /// A numeric prerelease identifier with a leading zero.
    LeadingZeroPrerelease,
    /// A numeric prerelease identifier that does not fit in a `u64`.
    PrereleaseTooLarge,
}

/// `c` may appear in an identifier.
pub open spec fn identifier_char(c: char) -> bool {
    is_alnum(c) || c == '-'
}

/// An identifier is non-empty and made of ASCII letters, digits and `-`.
pub open spec fn valid_identifier(s: Seq<char>) -> bool {
    s.len() > 0 && forall|i: int| 0 <= i < s.len() ==> identifier_char(#[trigger] s[i])
}

/// An identifier list is empty, or every dot-separated identifier is valid.
pub open spec fn valid_identifiers(s: Seq<char>) -> bool {
    s.len() == 0 || forall|i: int|
        0 <= i < split_seq(s, '.').len() ==> valid_identifier(#[trigger] split_seq(s, '.')[i])
}

/// The value of a core part (`MAJOR`, `MINOR` or `PATCH`).
pub open spec fn number_spec(s: Seq<char>) -> Result<u64, VersionError> {
    if s.len() == 0 || !all_digits(s) || (s.len() > 1 && s[0] == '0') {
        Err(VersionError::InvalidNumeric)
    } else if digits_value(s) > u64::MAX {
        Err(VersionError::NumberTooLarge)
    } else {
        Ok(digits_value(s) as u64)
    }
}

/// The value of one prerelease identifier.
pub open spec fn identifier_spec(s: Seq<char>) -> Result<PreId, VersionError> {
    if all_digits(s) {
        if s.len() > 1 && s[0] == '0' {
            Err(VersionError::LeadingZeroPrerelease)
        } else if s.len() == 0 || digits_value(s) > u64::MAX {
            Err(VersionError::PrereleaseTooLarge)
        } else {
            Ok(PreId::Numeric(digits_value(s) as u64))
        }
    } else {
        Ok(PreId::Text(s))
    }
}

/// The values of a list of prerelease identifiers; the first failure wins.
pub open spec fn identifiers_spec(ids: Seq<Seq<char>>) -> Result<Seq<PreId>, VersionError>
    decreases ids.len(),
{
    if ids.len() == 0 {
        Ok(Seq::empty())
    } else {
        match identifiers_spec(ids.drop_last()) {
            Err(e) => Err(e),
            Ok(p) => match identifier_spec(ids.last()) {
                Err(e) => Err(e),
                Ok(x) => Ok(p.push(x)),
            },
        }
    }
}

/// The part of `v` before the build metadata, and the build metadata.
pub open spec fn build_split(v: Seq<char>) -> (Seq<char>, Seq<char>) {
    match split_once_spec(v, '+') {
        Some((a, b)) => (a, b),
        None => (v, Seq::empty()),
    }
}

/// The core of `w` (before the prerelease), and the prerelease.
pub open spec fn prerelease_split(w: Seq<char>) -> (Seq<char>, Seq<char>) {
    match split_once_spec(w, '-') {
        Some((a, b)) => (a, b),
        None => (w, Seq::empty()),
    }
}

/// What parsing `v` gives: a version, or the first rule it breaks, checked in
/// this order: build metadata, prerelease, core shape, core numbers, prerelease
/// identifiers.
pub open spec fn parse_spec(v: Seq<char>) -> Result<VersionView, VersionError> {
    let plus = split_once_spec(v, '+');
    if plus matches Some((_, b)) && b.len() == 0 {
        Err(VersionError::EmptyBuildMetadata)
    } else if !valid_identifiers(build_split(v).1) {
        Err(VersionError::InvalidIdentifiers(IdentifierKind::BuildMetadata))
    } else {
        let w = build_split(v).0;
        let dash = split_once_spec(w, '-');
        if dash matches Some((_, p)) && p.len() == 0 {
            Err(VersionError::EmptyPrerelease)
        } else {
            let core = prerelease_split(w).0;
            let pre = prerelease_split(w).1;
            let parts = split_seq(core, '.');
            if parts.len() != 3 {
                Err(VersionError::ExpectedCore)
            } else if number_spec(parts[0]) is Err {
                Err(number_spec(parts[0])->Err_0)
            } else if number_spec(parts[1]) is Err {
                Err(number_spec(parts[1])->Err_0)
            } else if number_spec(parts[2]) is Err {
                Err(number_spec(parts[2])->Err_0)
            } else if pre.len() == 0 {
                Ok(VersionView {
                    major: number_spec(parts[0])->Ok_0,
                    minor: number_spec(parts[1])->Ok_0,
                    patch: number_spec(parts[2])->Ok_0,
                    prerelease: Seq::empty(),
                })
            } else if !valid_identifiers(pre) {
                Err(VersionError::InvalidIdentifiers(IdentifierKind::Prerelease))
            } else {
                match identifiers_spec(split_seq(pre, '.')) {
                    Err(e) => Err(e),
                    Ok(ids) => Ok(VersionView {
                        major: number_spec(parts[0])->Ok_0,
                        minor: number_spec(parts[1])->Ok_0,
                        patch: number_spec(parts[2])->Ok_0,
                        prerelease: ids,
                    }),
                }
            }
        }
    }
}

fn is_identifier_char(c: char) -> (r: bool)
    ensures
        r == identifier_char(c),
{
    ('0' <= c && c <= '9') || ('a' <= c && c <= 'z') || ('A' <= c && c <= 'Z') || c == '-'
}

fn chars_valid_identifier(v: &Vec<char>) -> (r: bool)
    ensures
        r == valid_identifier(v@),
{
    if v.len() == 0 {
        return false;
    }
    let mut i: usize = 0;
    while i < v.len()
        invariant
            0 <= i <= v@.len(),
            forall|j: int| 0 <= j < i ==> identifier_char(#[trigger] v@[j]),
        decreases v.len() - i,
    {
        if !is_identifier_char(v[i]) {
            return false;
        }
        i += 1;
    }
    true
}

fn chars_valid_identifiers(v: &Vec<char>) -> (r: bool)
    ensures
        r == valid_identifiers(v@),
{
    if v.len() == 0 {
        return true;
    }
    let parts = split_chars(v, '.');
    let mut i: usize = 0;
    while i < parts.len()
        invariant
            v@.len() > 0,
            views(parts@) == split_seq(v@, '.'),
            0 <= i <= parts@.len(),
            forall|j: int| 0 <= j < i ==> valid_identifier(#[trigger] split_seq(v@, '.')[j]),
        decreases parts.len() - i,
    {
        assert(views(parts@)[i as int] == parts@[i as int]@);
        if !chars_valid_identifier(&parts[i]) {
            assert(!valid_identifier(split_seq(v@, '.')[i as int]));
            assert(split_seq(v@, '.').len() == parts@.len());
            assert(!valid_identifiers(v@));
            return false;
        }
        i += 1;
    }
    true
}

/// Checks a dot-separated identifier list (build metadata or prerelease):
/// it is empty, or each identifier is non-empty and made of ASCII letters,
/// digits and `-`.
pub fn validate_version_identifiers(value: &str, label: IdentifierKind) -> (r: Result<(), VersionError>)
    ensures
        r is Ok <==> valid_identifiers(value@),
        r matches Err(e) ==> e == VersionError::InvalidIdentifiers(label),
{
    let v = chars_of(value);
    if chars_valid_identifiers(&v) {
        Ok(())
    } else {
        Err(VersionError::InvalidIdentifiers(label))
    }
}

fn number_of(v: &Vec<char>) -> (r: Result<u64, VersionError>)
    ensures
        r == number_spec(v@),
{
    if v.len() == 0 || !chars_all_digits(v) || (v.len() > 1 && v[0] == '0') {
        return Err(VersionError::InvalidNumeric);
    }
    match parse_digits(v) {
        Some(n) => Ok(n),
        None => Err(VersionError::NumberTooLarge),
    }
}

/// Reads one core part of a version: non-empty ASCII digits without a
/// leading zero, fitting in a `u64`. `full_version` is the whole version the
/// part came from (it only names the version in error reports).
pub fn parse_version_number(value: &str, full_version: &str) -> (r: Result<u64, VersionError>)
    ensures
        r == number_spec(value@),
{
    let v = chars_of(value);
    number_of(&v)
}

fn identifier_of(v: &Vec<char>) -> (r: Result<PrereleaseIdentifier, VersionError>)
    ensures
        match r {
            Ok(x) => identifier_spec(v@) == Ok::<PreId, VersionError>(x@),
            Err(e) => identifier_spec(v@) == Err::<PreId, VersionError>(e),
        },
{
    if chars_all_digits(v) {
        if v.len() > 1 && v[0] == '0' {
            return Err(VersionError::LeadingZeroPrerelease);
        }
        if v.len() == 0 {
            return Err(VersionError::PrereleaseTooLarge);
        }
        match parse_digits(v) {
            Some(n) => Ok(PrereleaseIdentifier::Numeric(n)),
            None => Err(VersionError::PrereleaseTooLarge),
        }
    } else {
        Ok(PrereleaseIdentifier::Text(string_from_chars(v)))
    }
}

fn identifiers_of(ids: &Vec<Vec<char>>) -> (r: Result<Vec<PrereleaseIdentifier>, VersionError>)
    ensures
        match r {
            Ok(x) => identifiers_spec(views(ids@)) == Ok::<Seq<PreId>, VersionError>(pre_views(x@)),
            Err(e) => identifiers_spec(views(ids@)) == Err::<Seq<PreId>, VersionError>(e),
        },
{
    let mut out: Vec<PrereleaseIdentifier> = Vec::new();
    let mut i: usize = 0;
    assert(views(ids@).take(0) =~= Seq::<Seq<char>>::empty());
    assert(pre_views(out@) =~= Seq::<PreId>::empty());
    while i < ids.len()
        invariant
            0 <= i <= ids@.len(),
            identifiers_spec(views(ids@).take(i as int)) == Ok::<Seq<PreId>, VersionError>(pre_views(out@)),
        decreases ids.len() - i,
    {
        let ghost prefix = views(ids@).take(i + 1);
        assert(prefix.drop_last() =~= views(ids@).take(i as int));
        assert(prefix.last() == ids@[i as int]@);
        match identifier_of(&ids[i]) {
            Ok(x) => {
                let ghost before = out@;
                out.push(x);
                assert(pre_views(out@) =~= pre_views(before).push(x@));
            },
            Err(e) => {
                proof {
                    lemma_identifiers_err_extends(views(ids@), i as int + 1);
                }
                return Err(e);
            },
        }
        i += 1;
    }
    assert(views(ids@).take(ids@.len() as int) =~= views(ids@));
    Ok(out)
}

/// Once a prefix of identifiers fails, the whole list fails the same way.
proof fn lemma_identifiers_err_extends(ids: Seq<Seq<char>>, k: int)
    requires
        0 <= k <= ids.len(),
        identifiers_spec(ids.take(k)) is Err,
    ensures
        identifiers_spec(ids) == identifiers_spec(ids.take(k)),
    decreases ids.len() - k,
{
    if k == ids.len() {
        assert(ids.take(k) =~= ids);
    } else {
        assert(ids.take(k + 1).drop_last() =~= ids.take(k));
        lemma_identifiers_err_extends(ids, k + 1);
    }
}

/// Parses a semantic version: `MAJOR.MINOR.PATCH`, then optionally `-` and a
/// prerelease, then optionally `+` and build metadata.
pub fn parse_semantic_version(value: &str) -> (r: Result<SemanticVersion, VersionError>)
    ensures
        match r {
            Ok(ver) => parse_spec(value@) == Ok::<VersionView, VersionError>(ver@),
            Err(e) => parse_spec(value@) == Err::<VersionView, VersionError>(e),
        },
{
    let v = chars_of(value);
    let (without_build, build) = match split_once(&v, '+') {
        Some((core, b)) => {
            if b.len() == 0 {
                return Err(VersionError::EmptyBuildMetadata);
            }
            (core, b)
        },
        None => (v, Vec::new()),
    };
    assert(build_split(value@) == (without_build@, build@));
    if !chars_valid_identifiers(&build) {
        return Err(VersionError::InvalidIdentifiers(IdentifierKind::BuildMetadata));
    }
    let (core, pre) = match split_once(&without_build, '-') {
        Some((c, p)) => {
            if p.len() == 0 {
                return Err(VersionError::EmptyPrerelease);
            }
            (c, p)
        },
        None => (without_build, Vec::new()),
    };
    assert(prerelease_split(build_split(value@).0) == (core@, pre@));
    let parts = split_chars(&core, '.');
    if parts.len() != 3 {
        return Err(VersionError::ExpectedCore);
    }
    assert(views(parts@)[0] == parts@[0]@);
    assert(views(parts@)[1] == parts@[1]@);
    assert(views(parts@)[2] == parts@[2]@);
    let major = match number_of(&parts[0]) {
        Ok(n) => n,
        Err(e) => return Err(e),
    };
    let minor = match number_of(&parts[1]) {
        Ok(n) => n,
        Err(e) => return Err(e),
    };
    let patch = match number_of(&parts[2]) {
        Ok(n) => n,
        Err(e) => return Err(e),
    };
    if pre.len() == 0 {
        let ver = SemanticVersion { major, minor, patch, prerelease: Vec::new() };
        assert(ver@.prerelease =~= Seq::<PreId>::empty());
        return Ok(ver);
    }
    if !chars_valid_identifiers(&pre) {
        return Err(VersionError::InvalidIdentifiers(IdentifierKind::Prerelease));
    }
    let ids = split_chars(&pre, '.');
    match identifiers_of(&ids) {
        Ok(prerelease) => Ok(SemanticVersion { major, minor, patch, prerelease }),
        Err(e) => Err(e),
    }
}

} // verus!
