use renkit::renconstruct::config::{BuildOption, KnownBuildOption};
use renkit::renconstruct::packaging::packaging_invocations;
use renkit::version::Version;

fn version(major: u32, minor: u32, patch: u32) -> Version {
    Version { major, minor, patch, hotfix: 0, nightly: false }
}

fn known(k: KnownBuildOption, enabled: bool) -> (BuildOption, bool) {
    (BuildOption::Known(k), enabled)
}

#[test]
fn desktop_targets_share_one_invocation() {
    let builds = vec![
        known(KnownBuildOption::Pc, true),
        known(KnownBuildOption::Mac, true),
        known(KnownBuildOption::Steam, false),
    ];
    let inv = packaging_invocations(&builds, &version(8, 3, 0), "/in", "/out");
    assert_eq!(inv.len(), 1);
    assert_eq!(inv[0].args, vec![
        "distribute",
        "/in",
        "--destination",
        "/out",
        "--package",
        "pc",
        "--package",
        "mac",
    ]);
    assert!(inv[0].scratch_dir.is_none());
}

#[test]
fn android_and_web_get_dedicated_invocations() {
    let builds = vec![
        known(KnownBuildOption::AndroidApk, true),
        known(KnownBuildOption::AndroidAab, true),
        known(KnownBuildOption::Web, true),
        known(KnownBuildOption::Pc, true),
    ];
    let inv = packaging_invocations(&builds, &version(8, 3, 0), "/in", "/out");
    assert_eq!(inv.len(), 4);
    assert_eq!(inv[0].args, vec!["android_build", "/in", "--dest", "/out"]);
    assert_eq!(inv[1].args, vec!["android_build", "/in", "--bundle", "--dest", "/out"]);
    assert_eq!(inv[2].args, vec!["web_build", "/in", "--dest", "/out/web"]);
    // The web build clears its destination, so it is contained in a
    // scratch directory the driver empties out afterwards.
    assert_eq!(inv[2].scratch_dir.as_deref(), Some("/out/web"));
    assert_eq!(inv[3].args, vec![
        "distribute",
        "/in",
        "--destination",
        "/out",
        "--package",
        "pc",
    ]);
}

#[test]
fn old_engines_build_the_package_differently() {
    let builds = vec![known(KnownBuildOption::AndroidApk, true)];
    let inv = packaging_invocations(&builds, &version(7, 4, 0), "/in", "/out");
    assert_eq!(inv.len(), 1);
    assert_eq!(inv[0].args, vec![
        "android_build",
        "/in",
        "assembleRelease",
        "--dest",
        "/out",
    ]);
}

#[test]
fn custom_targets_are_distributed() {
    let builds = vec![(BuildOption::Custom("itch".to_string()), true)];
    let inv = packaging_invocations(&builds, &version(8, 3, 0), "/in", "/out");
    assert_eq!(inv.len(), 1);
    assert_eq!(inv[0].args, vec![
        "distribute",
        "/in",
        "--destination",
        "/out",
        "--package",
        "itch",
    ]);
}

#[test]
fn nothing_to_package_means_no_invocations() {
    let builds = vec![known(KnownBuildOption::Pc, false)];
    let inv = packaging_invocations(&builds, &version(8, 3, 0), "/in", "/out");
    assert!(inv.is_empty());
}
