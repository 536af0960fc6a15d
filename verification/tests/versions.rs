use tala::precedence::Order;
use tala::render::{
    render_integration_document, render_integration_documents, replace_placeholder_once,
    PlaceholderError, RenderError,
};
use tala::semver::{parse_semantic_version, parse_version_number, validate_version_identifiers,
    IdentifierKind, PrereleaseIdentifier, SemanticVersion, VersionError};

fn parse_cli_version_output(output: &str) -> Result<SemanticVersion, String> {
    let mut fields = output.split_whitespace();
    if fields.next() != Some("tala") {
        return Err("version output must start with 'tala'".to_string());
    }
    let version = fields
        .next()
        .ok_or_else(|| "version output is missing a version".to_string())?;
    if fields.next().is_some() {
        return Err("version output has unexpected trailing fields".to_string());
    }
    parse_semantic_version(version).map_err(|e| format!("{:?}", e))
}

#[test]
fn semantic_versions_follow_semver_precedence() {
    assert!(
        parse_semantic_version("1.0.0-alpha.1").unwrap()
            < parse_semantic_version("1.0.0-alpha.beta").unwrap()
    );
    assert!(
        parse_semantic_version("1.0.0-alpha").unwrap() < parse_semantic_version("1.0.0").unwrap()
    );
    assert_eq!(
        parse_semantic_version("1.0.0+build.1").unwrap(),
        parse_semantic_version("1.0.0+build.2").unwrap()
    );
}

#[test]
fn compatibility_fixtures_cover_each_version_direction() {
    let minimum = parse_semantic_version("0.27.3").unwrap();
    let generated = parse_semantic_version("0.28.0").unwrap();

    assert!(parse_semantic_version("0.26.0").unwrap() < minimum);
    assert!(minimum < generated);
    assert_eq!(generated, parse_semantic_version("0.28.0").unwrap());
    assert!(generated < parse_semantic_version("0.29.0").unwrap());
    assert!(
        parse_semantic_version("0.28.0-rc.1").unwrap() < parse_semantic_version("0.28.0").unwrap()
    );
}

#[test]
fn semantic_version_rejects_invalid_values() {
    for value in ["1.0", "01.0.0", "1.0.0-", "1.0.0+"] {
        assert!(
            parse_semantic_version(value).is_err(),
            "{} should be rejected",
            value
        );
    }
}

#[test]
fn renderer_replaces_each_version_placeholder() {
    let rendered = render_integration_document(
        "min=__TALA_CLI_MIN_VERSION__ generated=__TALA_CLI_GENERATED_VERSION__",
        "0.27.3",
        "0.28.0",
    )
    .unwrap();
    assert_eq!(rendered, "min=0.27.3 generated=0.28.0");
}

#[test]
fn renderer_rejects_missing_or_duplicate_placeholders() {
    assert!(render_integration_document("no placeholders", "0.27.3", "0.28.0").is_err());
    assert!(render_integration_document(
        "__TALA_CLI_MIN_VERSION__ __TALA_CLI_MIN_VERSION__ __TALA_CLI_GENERATED_VERSION__",
        "0.27.3",
        "0.28.0"
    )
    .is_err());
}

#[test]
fn renderer_rejects_invalid_and_inconsistent_versions() {
    assert!(render_integration_document(
        "__TALA_CLI_MIN_VERSION__ __TALA_CLI_GENERATED_VERSION__",
        "not-a-version",
        "0.28.0"
    )
    .is_err());
    assert!(render_integration_document(
        "__TALA_CLI_MIN_VERSION__ __TALA_CLI_GENERATED_VERSION__",
        "0.28.0",
        "0.27.3"
    )
    .is_err());
}

#[test]
fn version_output_fixtures_are_parsed_or_rejected() {
    assert!(parse_cli_version_output("tala 0.28.0").is_ok());
    assert!(parse_cli_version_output("").is_err());
    assert!(parse_cli_version_output("tala development").is_err());
    assert!(parse_cli_version_output("tala 0.28.0 extra").is_err());
}

#[test]
fn parse_keeps_each_component_and_prerelease() {
    let v = parse_semantic_version("12.3.45-rc.7.x-y+build.9").unwrap();
    assert_eq!(v.major, 12);
    assert_eq!(v.minor, 3);
    assert_eq!(v.patch, 45);
    assert_eq!(v.prerelease.len(), 3);
    assert!(matches!(v.prerelease[0], PrereleaseIdentifier::Text(ref s) if s == "rc"));
    assert!(matches!(v.prerelease[1], PrereleaseIdentifier::Numeric(7)));
    assert!(matches!(v.prerelease[2], PrereleaseIdentifier::Text(ref s) if s == "x-y"));
}

#[test]
fn parse_reports_each_error() {
    assert_eq!(parse_semantic_version("1.0.0+").unwrap_err(), VersionError::EmptyBuildMetadata);
    assert_eq!(
        parse_semantic_version("1.0.0+a..b").unwrap_err(),
        VersionError::InvalidIdentifiers(IdentifierKind::BuildMetadata)
    );
    assert_eq!(parse_semantic_version("1.0.0-").unwrap_err(), VersionError::EmptyPrerelease);
    assert_eq!(parse_semantic_version("1.0").unwrap_err(), VersionError::ExpectedCore);
    assert_eq!(parse_semantic_version("01.0.0").unwrap_err(), VersionError::InvalidNumeric);
    assert_eq!(
        parse_semantic_version("1.0.18446744073709551616").unwrap_err(),
        VersionError::NumberTooLarge
    );
    assert_eq!(
        parse_semantic_version("1.0.0-a_b").unwrap_err(),
        VersionError::InvalidIdentifiers(IdentifierKind::Prerelease)
    );
    assert_eq!(
        parse_semantic_version("1.0.0-01").unwrap_err(),
        VersionError::LeadingZeroPrerelease
    );
    assert_eq!(
        parse_semantic_version("1.0.0-18446744073709551616").unwrap_err(),
        VersionError::PrereleaseTooLarge
    );
}

#[test]
fn version_numbers_and_identifiers() {
    assert_eq!(parse_version_number("42", "1.42.0"), Ok(42));
    assert_eq!(parse_version_number("0", "0.0.0"), Ok(0));
    assert_eq!(parse_version_number("", "x"), Err(VersionError::InvalidNumeric));
    assert_eq!(parse_version_number("+1", "x"), Err(VersionError::InvalidNumeric));
    assert_eq!(validate_version_identifiers("", IdentifierKind::Prerelease), Ok(()));
    assert_eq!(validate_version_identifiers("a.b-c.1", IdentifierKind::Prerelease), Ok(()));
    assert_eq!(
        validate_version_identifiers("a.", IdentifierKind::BuildMetadata),
        Err(VersionError::InvalidIdentifiers(IdentifierKind::BuildMetadata))
    );
}

#[test]
fn precedence_is_antisymmetric_on_examples() {
    let a = parse_semantic_version("1.0.0-alpha").unwrap();
    let b = parse_semantic_version("1.0.0-alpha.1").unwrap();
    let c = parse_semantic_version("1.0.0-1").unwrap();
    assert_eq!(a.precedence(&b), Order::Less);
    assert_eq!(b.precedence(&a), Order::Greater);
    assert_eq!(c.precedence(&a), Order::Less);
    assert_eq!(a.precedence(&a), Order::Equal);
}

#[test]
fn placeholder_replacement_counts_occurrences() {
    assert_eq!(replace_placeholder_once("a X b", "X", "yy"), Ok("a yy b".to_string()));
    assert_eq!(replace_placeholder_once("a b", "X", "yy"), Err(PlaceholderError::Missing));
    assert_eq!(
        replace_placeholder_once("XX X", "X", "y"),
        Err(PlaceholderError::Duplicated { count: 3 })
    );
    assert_eq!(replace_placeholder_once("aaa", "aa", "b"), Ok("ba".to_string()));
}

#[test]
fn render_reports_each_error() {
    let t = "__TALA_CLI_MIN_VERSION__ __TALA_CLI_GENERATED_VERSION__";
    assert_eq!(
        render_integration_document(t, "x", "0.28.0"),
        Err(RenderError::InvalidMinVersion(VersionError::ExpectedCore))
    );
    assert_eq!(
        render_integration_document(t, "0.28.0", "0.28"),
        Err(RenderError::InvalidGeneratedVersion(VersionError::ExpectedCore))
    );
    assert_eq!(
        render_integration_document(t, "0.29.0", "0.28.0"),
        Err(RenderError::MinNewerThanGenerated)
    );
    assert_eq!(
        render_integration_document("__TALA_CLI_GENERATED_VERSION__", "0.27.3", "0.28.0"),
        Err(RenderError::MinPlaceholder(PlaceholderError::Missing))
    );
    assert_eq!(
        render_integration_document("__TALA_CLI_MIN_VERSION__", "0.27.3", "0.28.0"),
        Err(RenderError::GeneratedPlaceholder(PlaceholderError::Missing))
    );
    let (s, c) = render_integration_documents(t, t, "0.27.3", "0.28.0").unwrap();
    assert_eq!(s, "0.27.3 0.28.0");
    assert_eq!(c, "0.27.3 0.28.0");
    assert!(render_integration_documents(t, "none", "0.27.3", "0.28.0").is_err());
}

#[test]
fn precedence_is_transitive_and_equal_only_for_equal_versions() {
    let a = parse_semantic_version("1.0.0-alpha").unwrap();
    let b = parse_semantic_version("1.0.0-alpha.1").unwrap();
    let c = parse_semantic_version("1.0.0").unwrap();
    assert_eq!(a.precedence(&b), Order::Less);
    assert_eq!(b.precedence(&c), Order::Less);
    assert_eq!(a.precedence(&c), Order::Less);
    assert_eq!(c.precedence(&a), Order::Greater);
    let c2 = parse_semantic_version("1.0.0+build").unwrap();
    assert_eq!(c.precedence(&c2), Order::Equal);
}
