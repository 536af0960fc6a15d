//! Precedence of semantic versions: major, minor and patch numerically; a
//! version with a prerelease comes before the same version without one;
//! prereleases compare identifier by identifier (numbers before text, numbers
//! numerically, text character by character), then by length.

use vstd::prelude::*;
use core::cmp::Ordering;
use vstd::std_specs::cmp::{PartialEqSpecImpl, PartialOrdSpecImpl};
use crate::text::{chars_of, str_eq};
use crate::semver::{PreId, PrereleaseIdentifier, SemanticVersion, VersionView, pre_views};

verus! {

/// The outcome of comparing two values.
#[derive(Debug, Clone, Copy, PartialEq, Eq, Structural)]
pub enum Order {
    Less,
    Equal,
    Greater,
}

/// The std ordering for an outcome.
pub open spec fn ordering_of(o: Order) -> Ordering {
    match o {
        Order::Less => Ordering::Less,
        Order::Equal => Ordering::Equal,
        Order::Greater => Ordering::Greater,
    }
}

/// The std ordering for an outcome.
pub fn to_ordering(o: Order) -> (r: Ordering)
    ensures
        r == ordering_of(o),
{
    match o {
        Order::Less => Ordering::Less,
        Order::Equal => Ordering::Equal,
        Order::Greater => Ordering::Greater,
    }
}

/// Lexicographic order of character sequences (code point by code point).
pub open spec fn lex_order(a: Seq<char>, b: Seq<char>) -> Order
    decreases a.len(),
{
    if a.len() == 0 && b.len() == 0 {
        Order::Equal
    } else if a.len() == 0 {
        Order::Less
    } else if b.len() == 0 {
        Order::Greater
    } else if a[0] < b[0] {
        Order::Less
    } else if a[0] > b[0] {
        Order::Greater
    } else {
        lex_order(a.drop_first(), b.drop_first())
    }
}

/// Order of two numbers.
pub open spec fn num_order(a: u64, b: u64) -> Order {
    if a < b {
        Order::Less
    } else if a > b {
        Order::Greater
    } else {
        Order::Equal
    }
}

/// Order of two prerelease identifiers: numbers come before text.
pub open spec fn identifier_order(a: PreId, b: PreId) -> Order {
    match (a, b) {
        (PreId::Numeric(x), PreId::Numeric(y)) => num_order(x, y),
        (PreId::Numeric(_), PreId::Text(_)) => Order::Less,
        (PreId::Text(_), PreId::Numeric(_)) => Order::Greater,
        (PreId::Text(x), PreId::Text(y)) => lex_order(x, y),
    }
}

/// Order of two non-empty prereleases: the first differing identifier
/// decides; otherwise the shorter comes first.
pub open spec fn prerelease_order(a: Seq<PreId>, b: Seq<PreId>) -> Order
    decreases a.len(),
{
    if a.len() == 0 || b.len() == 0 {
        if a.len() == 0 && b.len() == 0 {
            Order::Equal
        } else if a.len() == 0 {
            Order::Less
        } else {
            Order::Greater
        }
    } else if identifier_order(a[0], b[0]) != Order::Equal {
        identifier_order(a[0], b[0])
    } else {
        prerelease_order(a.drop_first(), b.drop_first())
    }
}

/// Precedence of two versions.
pub open spec fn version_order(a: VersionView, b: VersionView) -> Order {
    if num_order(a.major, b.major) != Order::Equal {
        num_order(a.major, b.major)
    } else if num_order(a.minor, b.minor) != Order::Equal {
        num_order(a.minor, b.minor)
    } else if num_order(a.patch, b.patch) != Order::Equal {
        num_order(a.patch, b.patch)
    } else if a.prerelease.len() == 0 && b.prerelease.len() == 0 {
        Order::Equal
    } else if a.prerelease.len() == 0 {
        Order::Greater
    } else if b.prerelease.len() == 0 {
        Order::Less
    } else {
        prerelease_order(a.prerelease, b.prerelease)
    }
}

/// The reverse of an order.
pub open spec fn flip(o: Order) -> Order {
    match o {
        Order::Less => Order::Greater,
        Order::Equal => Order::Equal,
        Order::Greater => Order::Less,
    }
}

fn compare_u64(a: u64, b: u64) -> (r: Order)
    ensures
        r == num_order(a, b),
{
    if a < b {
        Order::Less
    } else if a > b {
        Order::Greater
    } else {
        Order::Equal
    }
}

/// Lexicographic comparison of character vectors.
pub fn compare_chars(a: &Vec<char>, b: &Vec<char>) -> (r: Order)
    ensures
        r == lex_order(a@, b@),
{
    let mut i: usize = 0;
    assert(a@.skip(0) =~= a@);
    assert(b@.skip(0) =~= b@);
    while i < a.len() && i < b.len()
        invariant
            0 <= i <= a@.len(),
            i <= b@.len(),
            lex_order(a@, b@) == lex_order(a@.skip(i as int), b@.skip(i as int)),
        decreases a.len() - i,
    {
        if a[i] < b[i] {
            return Order::Less;
        }
        if a[i] > b[i] {
            return Order::Greater;
        }
        assert(a@.skip(i as int).drop_first() =~= a@.skip(i + 1));
        assert(b@.skip(i as int).drop_first() =~= b@.skip(i + 1));
        i += 1;
    }
    if i < a.len() {
        Order::Greater
    } else if i < b.len() {
        Order::Less
    } else {
        Order::Equal
    }
}

fn compare_identifiers(a: &PrereleaseIdentifier, b: &PrereleaseIdentifier) -> (r: Order)
    ensures
        r == identifier_order(a@, b@),
{
    match (a, b) {
        (PrereleaseIdentifier::Numeric(x), PrereleaseIdentifier::Numeric(y)) => compare_u64(*x, *y),
        (PrereleaseIdentifier::Numeric(_), PrereleaseIdentifier::Text(_)) => Order::Less,
        (PrereleaseIdentifier::Text(_), PrereleaseIdentifier::Numeric(_)) => Order::Greater,
        (PrereleaseIdentifier::Text(x), PrereleaseIdentifier::Text(y)) => {
            let xs = chars_of(x.as_str());
            let ys = chars_of(y.as_str());
            compare_chars(&xs, &ys)
        },
    }
}

fn compare_prereleases(a: &Vec<PrereleaseIdentifier>, b: &Vec<PrereleaseIdentifier>) -> (r: Order)
    ensures
        r == prerelease_order(pre_views(a@), pre_views(b@)),
{
    let mut i: usize = 0;
    assert(pre_views(a@).skip(0) =~= pre_views(a@));
    assert(pre_views(b@).skip(0) =~= pre_views(b@));
    while i < a.len() && i < b.len()
        invariant
            0 <= i <= a@.len(),
            i <= b@.len(),
            prerelease_order(pre_views(a@), pre_views(b@))
                == prerelease_order(pre_views(a@).skip(i as int), pre_views(b@).skip(i as int)),
        decreases a.len() - i,
    {
        let o = compare_identifiers(&a[i], &b[i]);
        assert(pre_views(a@).skip(i as int)[0] == a@[i as int]@);
        assert(pre_views(b@).skip(i as int)[0] == b@[i as int]@);
        match o {
            Order::Equal => {},
            _ => {
                return o;
            },
        }
        assert(pre_views(a@).skip(i as int).drop_first() =~= pre_views(a@).skip(i + 1));
        assert(pre_views(b@).skip(i as int).drop_first() =~= pre_views(b@).skip(i + 1));
        i += 1;
    }
    if i < a.len() {
        Order::Greater
    } else if i < b.len() {
        Order::Less
    } else {
        Order::Equal
    }
}

impl SemanticVersion {
    /// The precedence of `self` relative to `other`.
    pub fn precedence(&self, other: &SemanticVersion) -> (r: Order)
        ensures
            r == version_order(self@, other@),
    {
        let o = compare_u64(self.major, other.major);
        match o {
            Order::Equal => {},
            _ => {
                return o;
            },
        }
        let o = compare_u64(self.minor, other.minor);
        match o {
            Order::Equal => {},
            _ => {
                return o;
            },
        }
        let o = compare_u64(self.patch, other.patch);
        match o {
            Order::Equal => {},
            _ => {
                return o;
            },
        }
        let a_empty = self.prerelease.len() == 0;
        let b_empty = other.prerelease.len() == 0;
        if a_empty && b_empty {
            Order::Equal
        } else if a_empty {
            Order::Greater
        } else if b_empty {
            Order::Less
        } else {
            compare_prereleases(&self.prerelease, &other.prerelease)
        }
    }
}

/// Precedence is antisymmetric: swapping the versions reverses the order.
pub proof fn lemma_version_order_flip(a: VersionView, b: VersionView)
    ensures
        version_order(b, a) == flip(version_order(a, b)),
{
    if version_order(a, b) == version_order(a, b) {
        if a.prerelease.len() > 0 && b.prerelease.len() > 0 {
            lemma_prerelease_order_flip(a.prerelease, b.prerelease);
        }
    }
}

proof fn lemma_lex_order_flip(a: Seq<char>, b: Seq<char>)
    ensures
        lex_order(b, a) == flip(lex_order(a, b)),
    decreases a.len(),
{
    if a.len() > 0 && b.len() > 0 && a[0] == b[0] {
        lemma_lex_order_flip(a.drop_first(), b.drop_first());
    }
}

proof fn lemma_prerelease_order_flip(a: Seq<PreId>, b: Seq<PreId>)
    ensures
        prerelease_order(b, a) == flip(prerelease_order(a, b)),
    decreases a.len(),
{
    if a.len() > 0 && b.len() > 0 {
        match (a[0], b[0]) {
            (PreId::Text(x), PreId::Text(y)) => {
                lemma_lex_order_flip(x, y);
            },
            _ => {},
        }
        if identifier_order(a[0], b[0]) == Order::Equal {
            lemma_prerelease_order_flip(a.drop_first(), b.drop_first());
        }
    }
}

/// Versions equal as values have equal precedence.
pub proof fn lemma_version_order_refl(a: VersionView)
    ensures
        version_order(a, a) == Order::Equal,
{
    if a.prerelease.len() > 0 {
        lemma_prerelease_order_refl(a.prerelease);
    }
}

proof fn lemma_lex_order_refl(a: Seq<char>)
    ensures
        lex_order(a, a) == Order::Equal,
    decreases a.len(),
{
    if a.len() > 0 {
        lemma_lex_order_refl(a.drop_first());
    }
}

proof fn lemma_prerelease_order_refl(a: Seq<PreId>)
    ensures
        prerelease_order(a, a) == Order::Equal,
    decreases a.len(),
{
    if a.len() > 0 {
        match a[0] {
            PreId::Text(x) => {
                lemma_lex_order_refl(x);
            },
            _ => {},
        }
        lemma_prerelease_order_refl(a.drop_first());
    }
}

fn identifiers_equal(a: &PrereleaseIdentifier, b: &PrereleaseIdentifier) -> (r: bool)
    ensures
        r == (a@ == b@),
{
    match (a, b) {
        (PrereleaseIdentifier::Numeric(x), PrereleaseIdentifier::Numeric(y)) => *x == *y,
        (PrereleaseIdentifier::Text(x), PrereleaseIdentifier::Text(y)) => str_eq(x.as_str(), y.as_str()),
        _ => false,
    }
}

impl PartialEq for SemanticVersion {
    fn eq(&self, other: &Self) -> (r: bool) {
        if self.major != other.major || self.minor != other.minor || self.patch != other.patch {
            return false;
        }
        if self.prerelease.len() != other.prerelease.len() {
            assert(self@.prerelease.len() != other@.prerelease.len());
            return false;
        }
        let mut i: usize = 0;
        while i < self.prerelease.len()
            invariant
                self.prerelease@.len() == other.prerelease@.len(),
                0 <= i <= self.prerelease@.len(),
                forall|j: int| 0 <= j < i ==> self.prerelease@[j]@ == other.prerelease@[j]@,
            decreases self.prerelease.len() - i,
        {
            if !identifiers_equal(&self.prerelease[i], &other.prerelease[i]) {
                assert(self@.prerelease[i as int] != other@.prerelease[i as int]);
                return false;
            }
            i += 1;
        }
        assert(self@.prerelease =~= other@.prerelease);
        true
    }
}

impl PartialEqSpecImpl for SemanticVersion {
    open spec fn obeys_eq_spec() -> bool {
        true
    }

    open spec fn eq_spec(&self, other: &SemanticVersion) -> bool {
        self@ == other@
    }
}

impl PartialOrd for SemanticVersion {
    fn partial_cmp(&self, other: &Self) -> (r: Option<Ordering>) {
        Some(to_ordering(self.precedence(other)))
    }
}

impl PartialOrdSpecImpl for SemanticVersion {
    open spec fn obeys_partial_cmp_spec() -> bool {
        true
    }

    open spec fn partial_cmp_spec(&self, other: &SemanticVersion) -> Option<Ordering> {
        Some(ordering_of(version_order(self@, other@)))
    }
}


proof fn lemma_lex_order_trans(a: Seq<char>, b: Seq<char>, c: Seq<char>)
    requires
        lex_order(a, b) == Order::Less,
        lex_order(b, c) == Order::Less,
    ensures
        lex_order(a, c) == Order::Less,
    decreases a.len(),
{
    if a.len() > 0 && b.len() > 0 && c.len() > 0 && a[0] == b[0] && b[0] == c[0] {
        lemma_lex_order_trans(a.drop_first(), b.drop_first(), c.drop_first());
    }
}

proof fn lemma_lex_order_equal(a: Seq<char>, b: Seq<char>)
    requires
        lex_order(a, b) == Order::Equal,
    ensures
        a == b,
    decreases a.len(),
{
    if a.len() > 0 && b.len() > 0 {
        lemma_lex_order_equal(a.drop_first(), b.drop_first());
        assert(a =~= seq![a[0]] + a.drop_first());
        assert(b =~= seq![b[0]] + b.drop_first());
    } else {
        assert(a =~= b);
    }
}

proof fn lemma_identifier_order_equal(a: PreId, b: PreId)
    requires
        identifier_order(a, b) == Order::Equal,
    ensures
        a == b,
{
    match (a, b) {
        (PreId::Text(x), PreId::Text(y)) => lemma_lex_order_equal(x, y),
        _ => {},
    }
}

proof fn lemma_identifier_order_trans(a: PreId, b: PreId, c: PreId)
    requires
        identifier_order(a, b) != Order::Greater,
        identifier_order(b, c) != Order::Greater,
        identifier_order(a, b) == Order::Less || identifier_order(b, c) == Order::Less,
    ensures
        identifier_order(a, c) == Order::Less,
{
    if identifier_order(a, b) == Order::Equal {
        lemma_identifier_order_equal(a, b);
    } else if identifier_order(b, c) == Order::Equal {
        lemma_identifier_order_equal(b, c);
    } else {
        match (a, b, c) {
            (PreId::Text(x), PreId::Text(y), PreId::Text(z)) => lemma_lex_order_trans(x, y, z),
            _ => {},
        }
    }
}

proof fn lemma_prerelease_order_trans(a: Seq<PreId>, b: Seq<PreId>, c: Seq<PreId>)
    requires
        prerelease_order(a, b) == Order::Less,
        prerelease_order(b, c) == Order::Less,
    ensures
        prerelease_order(a, c) == Order::Less,
    decreases a.len(),
{
    if a.len() > 0 && b.len() > 0 && c.len() > 0 {
        let ab = identifier_order(a[0], b[0]);
        let bc = identifier_order(b[0], c[0]);
        if ab == Order::Equal && bc == Order::Equal {
            lemma_identifier_order_equal(a[0], b[0]);
            lemma_identifier_order_equal(b[0], c[0]);
            lemma_prerelease_order_trans(a.drop_first(), b.drop_first(), c.drop_first());
        } else {
            lemma_identifier_order_trans(a[0], b[0], c[0]);
        }
    }
}

proof fn lemma_prerelease_order_equal(a: Seq<PreId>, b: Seq<PreId>)
    requires
        prerelease_order(a, b) == Order::Equal,
    ensures
        a == b,
    decreases a.len(),
{
    if a.len() > 0 && b.len() > 0 {
        lemma_identifier_order_equal(a[0], b[0]);
        lemma_prerelease_order_equal(a.drop_first(), b.drop_first());
        assert(a =~= seq![a[0]] + a.drop_first());
        assert(b =~= seq![b[0]] + b.drop_first());
    } else {
        assert(a =~= b);
    }
}

/// Precedence is transitive: a version that comes before a second one,
/// which comes before a third, comes before the third.
pub proof fn lemma_version_order_trans(a: VersionView, b: VersionView, c: VersionView)
    requires
        version_order(a, b) == Order::Less,
        version_order(b, c) == Order::Less,
    ensures
        version_order(a, c) == Order::Less,
{
    if a.major == c.major && a.minor == c.minor && a.patch == c.patch && a.major == b.major && a.minor == b.minor
        && a.patch == b.patch && a.prerelease.len() > 0 && b.prerelease.len() > 0 && c.prerelease.len() > 0 {
        lemma_prerelease_order_trans(a.prerelease, b.prerelease, c.prerelease);
    }
}

/// Only equal versions have equal precedence.
pub proof fn lemma_version_order_equal(a: VersionView, b: VersionView)
    requires
        version_order(a, b) == Order::Equal,
    ensures
        a == b,
{
    if a.prerelease.len() > 0 && b.prerelease.len() > 0 {
        lemma_prerelease_order_equal(a.prerelease, b.prerelease);
    } else {
        assert(a.prerelease =~= b.prerelease);
    }
}

} // verus!
