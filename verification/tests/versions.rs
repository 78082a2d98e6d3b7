use lune_ffi::errors::ValidationError;
use lune_ffi::versions::{strip_leading, Version, VersionReq};

#[test]
fn leading_letters_are_stripped() {
    assert_eq!(strip_leading("v1.2.3", 'v'), "1.2.3");
    assert_eq!(strip_leading("vvv1", 'v'), "1");
    assert_eq!(strip_leading("1.0.0v", 'v'), "1.0.0v");
    assert_eq!(strip_leading("", 'v'), "");
    assert_eq!(strip_leading("vv", 'v'), "");
    assert_eq!(strip_leading("V1", 'v'), "V1");
    assert_eq!(strip_leading("\u{e9}\u{e9}x", '\u{e9}'), "x");
}

#[test]
fn versions_are_read_trimmed_and_without_the_letter() {
    assert_eq!(Version::parse("1.2.3").unwrap().as_str(), "1.2.3");
    assert_eq!(Version::parse("  v1.2.3\n").unwrap().as_str(), "1.2.3");
    assert_eq!(Version::parse("vv0.1.0-alpha.1+build.5").unwrap().as_str(), "0.1.0-alpha.1+build.5");
    assert_eq!(Version::parse("v1.0.0").unwrap(), Version::parse("1.0.0").unwrap());
    assert_ne!(Version::parse("1.0.0").unwrap(), Version::parse("1.0.1").unwrap());
}

#[test]
fn texts_that_spell_no_version_are_refused_with_the_message() {
    let message = |s: &str| match Version::parse(s) {
        Err(ValidationError::InvalidVersion(m)) => m,
        other => panic!("{other:?}"),
    };
    assert_eq!(message(""), "empty string, expected a semver version");
    assert_eq!(message("  v "), "empty string, expected a semver version");
    assert_eq!(message("1.q.r"), "unexpected character 'q' while parsing minor version number");
    assert_eq!(message("1.2"), "unexpected end of input while parsing minor version number");
    assert_eq!(message("01.2.3"), "invalid leading zero in major version number");
    assert_eq!(message("1.2.3 v"), "unexpected character ' ' after patch version number");
    // The letter is dropped in front only and before the trimming of nothing else.
    assert_eq!(message("v 1.2.3"), "unexpected character ' ' while parsing major version number");
}

#[test]
fn a_known_answer_decides_what_is_kept() {
    assert_eq!(Version::checked("anything", None).unwrap().as_str(), "anything");
    assert!(matches!(
        Version::checked("1.0.0", Some("no".to_string())),
        Err(ValidationError::InvalidVersion(m)) if m == "no"
    ));
    assert_eq!(VersionReq::checked("^1", None).unwrap().as_str(), "^1");
    assert!(matches!(
        VersionReq::checked("^1", Some("why".to_string())),
        Err(ValidationError::InvalidVersion(m)) if m == "why"
    ));
}

#[test]
fn requirements_are_read_as_they_stand() {
    assert_eq!(VersionReq::parse("^1.0.0").unwrap().as_str(), "^1.0.0");
    assert_eq!(VersionReq::parse(">=2.0, <3").unwrap().as_str(), ">=2.0, <3");
    assert_eq!(VersionReq::parse("*").unwrap().as_str(), "*");
    assert!(matches!(
        VersionReq::parse("not a requirement"),
        Err(ValidationError::InvalidVersion(m))
            if m == "unexpected character 'n' while parsing major version number"
    ));
    assert!(matches!(
        VersionReq::parse(""),
        Err(ValidationError::InvalidVersion(m))
            if m == "unexpected end of input while parsing major version number"
    ));
    assert!(matches!(
        VersionReq::parse("v1.0.0"),
        Err(ValidationError::InvalidVersion(_))
    ));
}

#[test]
fn requirements_admit_versions() {
    let v = |s: &str| Version::parse(s).unwrap();
    let q = |s: &str| VersionReq::parse(s).unwrap();
    assert!(q("^1.0.0").matches(&v("1.1.0")));
    assert!(q("^1.0.0").matches(&v("1.0.0")));
    assert!(!q("^1.0.0").matches(&v("2.0.0")));
    assert!(!q("^1.0.0").matches(&v("0.9.9")));
    assert!(q("~1.2").matches(&v("1.2.9")));
    assert!(!q("~1.2").matches(&v("1.3.0")));
    assert!(q(">=2.0").matches(&v("3.1.4")));
    assert!(q("*").matches(&v("0.0.1")));
    assert!(!q("^1.0.0").matches(&v("1.1.0-beta")));
    assert!(v("1.1.0").matches(&q("^1.0.0")));
    assert!(!v("2.0.0").matches(&q("^1.0.0")));
    // A text that was kept without being one spells nothing and meets nothing.
    let odd = Version::checked("one", None).unwrap();
    assert!(!q("*").matches(&odd));
    let loose = VersionReq::checked("whatever", None).unwrap();
    assert!(!loose.matches(&v("1.0.0")));
}

#[test]
fn versions_are_ordered() {
    let v = |s: &str| Version::parse(s).unwrap();
    assert!(v("1.1.0").newer_than(&v("1.0.0")));
    assert!(!v("1.0.0").newer_than(&v("1.1.0")));
    assert!(!v("1.0.0").newer_than(&v("1.0.0")));
    assert!(v("10.0.0").newer_than(&v("9.0.0")));
    assert!(v("1.0.0").newer_than(&v("1.0.0-rc.1")));
    assert!(v("1.0.0-rc.10").newer_than(&v("1.0.0-rc.9")));
    assert!(v("1.0.0-beta").newer_than(&v("1.0.0-alpha")));
    let odd = Version::checked("one", None).unwrap();
    assert!(!odd.newer_than(&v("0.0.1")));
    assert!(!v("0.0.1").newer_than(&odd));
}
