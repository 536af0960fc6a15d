//! Rendering the integration documents (skill and command files) from their
//! templates: each template must hold each version placeholder exactly once,
//! and the minimum version may not be newer than the generating version.

use vstd::prelude::*;
use crate::text::{chars_of, matches_at, occurs_at, push_str, string_push};
use crate::semver::{VersionError, parse_semantic_version, parse_spec};
use crate::precedence::{Order, version_order};

verus! {

/// The lowest CLI version that the shipped skill document supports.
pub const TALA_SKILL_MIN_VERSION: &'static str = "0.27.3";
/// Placeholder for the minimum CLI version in the templates.
pub const TALA_CLI_MIN_VERSION_PLACEHOLDER: &'static str = "__TALA_CLI_MIN_VERSION__";
/// Placeholder for the generating CLI version in the templates.
pub const TALA_CLI_GENERATED_VERSION_PLACEHOLDER: &'static str = "__TALA_CLI_GENERATED_VERSION__";

/// How many non-overlapping occurrences of `n` a left-to-right scan of `h`
/// finds (as `str::matches(..).count()`; the empty pattern matches at every
/// character boundary).
pub open spec fn match_count(h: Seq<char>, n: Seq<char>) -> nat
    decreases h.len(),
{
    if n.len() == 0 {
        h.len() + 1
    } else if h.len() < n.len() {
        0
    } else if h.subrange(0, n.len() as int) == n {
        1 + match_count(h.subrange(n.len() as int, h.len() as int), n)
    } else {
        match_count(h.drop_first(), n)
    }
}

/// `h` with every non-overlapping occurrence of `n`, scanned left to right,
/// replaced by `r` (as `str::replace`).
pub open spec fn replace_all(h: Seq<char>, n: Seq<char>, r: Seq<char>) -> Seq<char>
    decreases h.len(),
{
    if n.len() == 0 {
        if h.len() == 0 {
            r
        } else {
            r + seq![h[0]] + replace_all(h.drop_first(), n, r)
        }
    } else if h.len() < n.len() {
        h
    } else if h.subrange(0, n.len() as int) == n {
        r + replace_all(h.subrange(n.len() as int, h.len() as int), n, r)
    } else {
        seq![h[0]] + replace_all(h.drop_first(), n, r)
    }
}

/// Why a placeholder could not be replaced.
#[derive(Debug, Clone, Copy, PartialEq, Eq, Structural)]
pub enum PlaceholderError {
    /// The template does not hold the placeholder.
    Missing,
    /// The template holds the placeholder `count` times.
    Duplicated { count: usize },
}

proof fn lemma_match_count_le(h: Seq<char>, n: Seq<char>)
    requires
        n.len() > 0,
    ensures
        match_count(h, n) <= h.len(),
    decreases h.len(),
{
    if h.len() >= n.len() {
        if h.subrange(0, n.len() as int) == n {
            lemma_match_count_le(h.subrange(n.len() as int, h.len() as int), n);
        } else {
            lemma_match_count_le(h.drop_first(), n);
        }
    }
}

/// Replaces the single occurrence of `placeholder` in `template` by
/// `replacement`; a template without it, or with more than one, is refused.
pub fn replace_placeholder_once(template: &str, placeholder: &str, replacement: &str) -> (r: Result<String, PlaceholderError>)
    requires
        template@.len() < usize::MAX,
    ensures
        match_count(template@, placeholder@) == 0 <==> r == Err::<String, PlaceholderError>(PlaceholderError::Missing),
        match_count(template@, placeholder@) == 1 <==> r is Ok,
        r matches Ok(s) ==> s@ == replace_all(template@, placeholder@, replacement@),
        match_count(template@, placeholder@) > 1 ==> r == Err::<String, PlaceholderError>(
            PlaceholderError::Duplicated { count: match_count(template@, placeholder@) as usize }),
{
    let h = chars_of(template);
    let n = chars_of(placeholder);
    if n.len() == 0 {
        if h.len() == 0 {
            let mut out = String::new();
            push_str(&mut out, replacement);
            assert(out@ =~= replacement@);
            return Ok(out);
        }
        return Err(PlaceholderError::Duplicated { count: h.len() + 1 });
    }
    let mut out = String::new();
    let mut count: usize = 0;
    let mut i: usize = 0;
    assert(h@.skip(0) =~= h@);
    assert(out@ + replace_all(h@.skip(0), n@, replacement@) =~= replace_all(h@, n@, replacement@));
    while i < h.len()
        invariant
            n@.len() > 0,
            h@ == template@,
            n@ == placeholder@,
            0 <= i <= h@.len(),
            count <= i,
            count + match_count(h@.skip(i as int), n@) == match_count(h@, n@),
            out@ + replace_all(h@.skip(i as int), n@, replacement@) == replace_all(h@, n@, replacement@),
        decreases h.len() - i,
    {
        let ghost rest = h@.skip(i as int);
        if matches_at(&h, &n, i) {
            assert(rest.subrange(0, n@.len() as int) =~= h@.subrange(i as int, i + n@.len()));
            assert(rest.subrange(n@.len() as int, rest.len() as int) =~= h@.skip(i + n@.len()));
            let ghost before = out@;
            push_str(&mut out, replacement);
            assert(before + replace_all(rest, n@, replacement@)
                =~= out@ + replace_all(h@.skip(i + n@.len()), n@, replacement@));
            count += 1;
            i += n.len();
        } else {
            assert(rest.drop_first() =~= h@.skip(i + 1));
            proof {
                if rest.len() >= n@.len() {
                    assert(rest.subrange(0, n@.len() as int) =~= h@.subrange(i as int, i + n@.len()));
                } else {
                    assert(rest =~= seq![rest[0]] + rest.drop_first());
                    assert(h@.skip(i + 1).len() < n@.len());
                }
            }
            let ghost before = out@;
            string_push(&mut out, h[i]);
            assert(before + replace_all(rest, n@, replacement@)
                =~= out@ + replace_all(h@.skip(i + 1), n@, replacement@));
            i += 1;
        }
    }
    assert(h@.skip(i as int).len() == 0);
    assert(out@ =~= replace_all(h@, n@, replacement@));
    proof {
        lemma_match_count_le(h@, n@);
    }
    if count == 0 {
        Err(PlaceholderError::Missing)
    } else if count == 1 {
        Ok(out)
    } else {
        Err(PlaceholderError::Duplicated { count })
    }
}

/// Why an integration document could not be rendered.
#[derive(Debug, Clone, Copy, PartialEq, Eq, Structural)]
pub enum RenderError {
    /// The minimum version is not a semantic version.
    InvalidMinVersion(VersionError),
    /// The generating version is not a semantic version.
    InvalidGeneratedVersion(VersionError),
    /// The minimum version is newer than the generating version.
    MinNewerThanGenerated,
    /// The minimum-version placeholder is missing or repeated.
    MinPlaceholder(PlaceholderError),
    /// The generating-version placeholder is missing or repeated.
    GeneratedPlaceholder(PlaceholderError),
}

/// The placeholder outcome for `n` in `h`.
pub open spec fn placeholder_spec(h: Seq<char>, n: Seq<char>, r: Seq<char>) -> Result<Seq<char>, PlaceholderError> {
    if match_count(h, n) == 0 {
        Err(PlaceholderError::Missing)
    } else if match_count(h, n) == 1 {
        Ok(replace_all(h, n, r))
    } else {
        Err(PlaceholderError::Duplicated { count: match_count(h, n) as usize })
    }
}

/// What rendering `template` gives: both versions must parse, the minimum
/// may not be newer, then each placeholder is replaced once (minimum first).
pub open spec fn render_spec(template: Seq<char>, min: Seq<char>, generated: Seq<char>) -> Result<Seq<char>, RenderError> {
    match (parse_spec(min), parse_spec(generated)) {
        (Err(e), _) => Err(RenderError::InvalidMinVersion(e)),
        (Ok(_), Err(e)) => Err(RenderError::InvalidGeneratedVersion(e)),
        (Ok(a), Ok(b)) => if version_order(a, b) == Order::Greater {
            Err(RenderError::MinNewerThanGenerated)
        } else {
            match placeholder_spec(template, TALA_CLI_MIN_VERSION_PLACEHOLDER@, min) {
                Err(e) => Err(RenderError::MinPlaceholder(e)),
                Ok(with_min) => match placeholder_spec(with_min, TALA_CLI_GENERATED_VERSION_PLACEHOLDER@, generated) {
                    Err(e) => Err(RenderError::GeneratedPlaceholder(e)),
                    Ok(done) => Ok(done),
                },
            }
        },
    }
}

proof fn lemma_replace_all_len(h: Seq<char>, n: Seq<char>, r: Seq<char>)
    requires
        n.len() > 0,
        match_count(h, n) <= 1,
    ensures
        replace_all(h, n, r).len() <= h.len() + r.len(),
    decreases h.len(),
{
    if h.len() >= n.len() {
        if h.subrange(0, n.len() as int) == n {
            lemma_replace_all_len(h.subrange(n.len() as int, h.len() as int), n, r);
            lemma_no_match_identity(h.subrange(n.len() as int, h.len() as int), n, r);
        } else {
            lemma_replace_all_len(h.drop_first(), n, r);
        }
    }
}

proof fn lemma_no_match_identity(h: Seq<char>, n: Seq<char>, r: Seq<char>)
    requires
        n.len() > 0,
        match_count(h, n) == 0,
    ensures
        replace_all(h, n, r) == h,
    decreases h.len(),
{
    if h.len() >= n.len() {
        lemma_no_match_identity(h.drop_first(), n, r);
        assert(seq![h[0]] + h.drop_first() =~= h);
    }
}

/// Renders one integration document from its template, filling in the
/// minimum and generating CLI versions.
pub fn render_integration_document(template: &str, min_version: &str, generated_version: &str) -> (r: Result<String, RenderError>)
    requires
        template@.len() + min_version@.len() < usize::MAX,
    ensures
        match r {
            Ok(s) => render_spec(template@, min_version@, generated_version@) == Ok::<Seq<char>, RenderError>(s@),
            Err(e) => render_spec(template@, min_version@, generated_version@) == Err::<Seq<char>, RenderError>(e),
        },
{
    let min = match parse_semantic_version(min_version) {
        Ok(v) => v,
        Err(e) => return Err(RenderError::InvalidMinVersion(e)),
    };
    let generated = match parse_semantic_version(generated_version) {
        Ok(v) => v,
        Err(e) => return Err(RenderError::InvalidGeneratedVersion(e)),
    };
    match min.precedence(&generated) {
        Order::Greater => return Err(RenderError::MinNewerThanGenerated),
        _ => {},
    }
    proof {
        reveal_strlit("__TALA_CLI_MIN_VERSION__");
        reveal_strlit("__TALA_CLI_GENERATED_VERSION__");
    }
    let with_min = match replace_placeholder_once(template, TALA_CLI_MIN_VERSION_PLACEHOLDER, min_version) {
        Ok(s) => s,
        Err(e) => return Err(RenderError::MinPlaceholder(e)),
    };
    proof {
        lemma_replace_all_len(template@, TALA_CLI_MIN_VERSION_PLACEHOLDER@, min_version@);
    }
    match replace_placeholder_once(with_min.as_str(), TALA_CLI_GENERATED_VERSION_PLACEHOLDER, generated_version) {
        Ok(s) => Ok(s),
        Err(e) => Err(RenderError::GeneratedPlaceholder(e)),
    }
}

/// Renders the skill and the command document; both must render for either
/// to be returned.
pub fn render_integration_documents(
    skill_template: &str,
    command_template: &str,
    min_version: &str,
    generated_version: &str,
) -> (r: Result<(String, String), RenderError>)
    requires
        skill_template@.len() + min_version@.len() < usize::MAX,
        command_template@.len() + min_version@.len() < usize::MAX,
    ensures
        match r {
            Ok((s, c)) => render_spec(skill_template@, min_version@, generated_version@) == Ok::<Seq<char>, RenderError>(s@)
                && render_spec(command_template@, min_version@, generated_version@) == Ok::<Seq<char>, RenderError>(c@),
            Err(e) => render_spec(skill_template@, min_version@, generated_version@) == Err::<Seq<char>, RenderError>(e)
                || (render_spec(skill_template@, min_version@, generated_version@) is Ok
                    && render_spec(command_template@, min_version@, generated_version@) == Err::<Seq<char>, RenderError>(e)),
        },
{
    let skill = match render_integration_document(skill_template, min_version, generated_version) {
        Ok(s) => s,
        Err(e) => return Err(e),
    };
    let command = match render_integration_document(command_template, min_version, generated_version) {
        Ok(s) => s,
        Err(e) => return Err(e),
    };
    Ok((skill, command))
}

} // verus!
