use renkit::version::{Version, VersionError};

fn v(major: u32, minor: u32, patch: u32) -> Version {
    Version { major, minor, patch, hotfix: 0, nightly: false }
}

#[test]
fn version_parsing() {
    let v = Version::from_str("7.4.0").unwrap();
    assert_eq!(v.major, 7);
    assert_eq!(v.minor, 4);
    assert_eq!(v.patch, 0);
    assert_eq!(v.hotfix, 0);
    assert!(!v.nightly);

    let v = Version::from_str("8.3.0.24041601+nightly").unwrap();
    assert_eq!(v.major, 8);
    assert_eq!(v.minor, 3);
    assert_eq!(v.patch, 0);
    assert_eq!(v.hotfix, 24041601);
    assert!(v.nightly);

    assert!(Version::from_str("999999999999999999999999999999.3.0.24041601+nightly").is_err());
    assert!(Version::from_str("8.999999999999999999999999999999.0.24041601+nightly").is_err());
    assert!(Version::from_str("8.3.999999999999999999999999999999.24041601+nightly").is_err());

    assert!(Version::from_str("bad-version-string").is_err());
}

#[test]
fn version_links() {
    let v = Version::from_str("8.3.0").unwrap();
    assert_eq!(
        v.sdk_url(),
        "https://www.renpy.org/dl/8.3.0/renpy-8.3.0-sdk.zip"
    );
    assert_eq!(
        v.rapt_url(),
        "https://www.renpy.org/dl/8.3.0/renpy-8.3.0-rapt.zip"
    );
    assert_eq!(
        v.steam_url(),
        "https://www.renpy.org/dl/8.3.0/renpy-8.3.0-steam.zip"
    );
    assert_eq!(
        v.web_url(),
        "https://www.renpy.org/dl/8.3.0/renpy-8.3.0-web.zip"
    );

    let v = Version::from_str("8.3.0.24041601+nightly").unwrap();
    assert_eq!(
        v.sdk_url(),
        "https://nightly.renpy.org/8.3.0.24041601+nightly/renpy-8.3.0.24041601+nightly-sdk.zip"
    );
    assert_eq!(
        v.rapt_url(),
        "https://nightly.renpy.org/8.3.0.24041601+nightly/renpy-8.3.0.24041601+nightly-rapt.zip"
    );
    assert_eq!(
        v.steam_url(),
        "https://nightly.renpy.org/8.3.0.24041601+nightly/renpy-8.3.0.24041601+nightly-steam.zip"
    );
    assert_eq!(
        v.web_url(),
        "https://nightly.renpy.org/8.3.0.24041601+nightly/renpy-8.3.0.24041601+nightly-web.zip"
    );
}

#[test]
fn version_rendering() {
    assert_eq!(v(8, 3, 0).version_string(), "8.3.0");
    assert_eq!(v(7, 4, 11).version_string(), "7.4.11");
    let nightly = Version { major: 8, minor: 3, patch: 0, hotfix: 24041601, nightly: true };
    assert_eq!(nightly.version_string(), "8.3.0.24041601+nightly");
    let hotfix = Version { major: 8, minor: 0, patch: 3, hotfix: 1, nightly: false };
    assert_eq!(hotfix.version_string(), "8.0.3.1");
}

#[test]
fn version_parsing_defaults_and_suffix() {
    let two = Version::from_str("8.3").unwrap();
    assert_eq!(two, v(8, 3, 0));
    let nightly = Version::from_str("8.3+nightly").unwrap();
    assert_eq!(
        nightly,
        Version { major: 8, minor: 3, patch: 0, hotfix: 0, nightly: true }
    );
    assert!(Version::from_str("8.").is_err());
    assert!(Version::from_str(".3").is_err());
    assert!(Version::from_str("8.3.").is_err());
    assert!(Version::from_str("8.3.0.").is_err());
    assert!(Version::from_str("8.3.0.1.2").is_err());
    assert!(Version::from_str("8.3.0+nightlyx").is_err());
    assert!(Version::from_str("").is_err());
}

#[test]
fn version_error_kinds() {
    assert_eq!(Version::from_str("x.y"), Err(VersionError::Syntax));
    assert_eq!(
        Version::from_str("4294967296.0.0"),
        Err(VersionError::OutOfRange)
    );
    assert_eq!(
        Version::from_str("4294967295.0.0").unwrap().major,
        u32::MAX
    );
}

#[test]
fn version_ordering() {
    assert!(v(8, 0, 0).is_at_least(&v(7, 5, 0)));
    assert!(v(7, 5, 0).is_at_least(&v(7, 5, 0)));
    assert!(v(7, 4, 11).is_before(&v(7, 5, 0)));
    let nightly = Version { major: 8, minor: 0, patch: 0, hotfix: 0, nightly: true };
    assert!(nightly.is_at_least(&v(8, 0, 0)));
    assert!(v(8, 0, 0).is_before(&nightly));
}

#[test]
fn version_installed_lookup() {
    let entries = vec!["8.3.0".to_string(), "junk".to_string()];
    assert!(v(8, 3, 0).is_installed(&entries));
    assert!(!v(8, 2, 0).is_installed(&entries));
    assert!(v(8, 3, 0).to_local(&entries).is_ok());
    assert!(v(8, 2, 0).to_local(&entries).is_err());
    assert!(v(8, 3, 0).to_remote(&entries).is_err());
    let remote = v(8, 2, 0).to_remote(&entries).unwrap();
    assert_eq!(remote.version, v(8, 2, 0));
}

#[test]
fn parse_version_helper() {
    assert!(renkit::version::parse_version("8.3.0").is_ok());
    assert!(renkit::version::parse_version("nope").is_err());
}
