use renkit::common::strip_extended_prefix;
use renkit::renutil::{
    auto_install_allowed, cleanup_paths, get_registry, latest_versions, launch_arguments,
    required_jdk_version, resolve_launch_version, versions_from_names, Instance, Local,
    RenutilError,
};
use renkit::version::Version;

fn version(major: u32, minor: u32, patch: u32) -> Version {
    Version { major, minor, patch, hotfix: 0, nightly: false }
}

fn local(v: Version) -> Instance<Local> {
    Instance::new(v)
}

#[test]
fn instance_paths() {
    let i = local(version(8, 3, 0));
    assert_eq!(i.path("/reg"), "/reg/8.3.0");
    assert_eq!(i.entrypoint("/reg"), "/reg/8.3.0/renpy.py");
}

#[test]
fn architecture_table() {
    assert_eq!(
        local(version(7, 3, 5)).architecture("windows", "x86_64").unwrap(),
        "windows-x86_64"
    );
    assert_eq!(
        local(version(7, 4, 0)).architecture("windows", "x86_64").unwrap(),
        "py2-windows-x86_64"
    );
    assert_eq!(
        local(version(8, 0, 0)).architecture("windows", "x86").unwrap(),
        "py3-windows-i686"
    );
    assert_eq!(
        local(version(8, 1, 0)).architecture("linux", "x86_64").unwrap(),
        "py3-linux-x86_64"
    );
    assert_eq!(
        local(version(7, 6, 0)).architecture("linux", "aarch64").unwrap(),
        "py2-linux-aarch64"
    );
    assert_eq!(
        local(version(7, 4, 0)).architecture("linux", "arm"),
        Err(RenutilError::UnsupportedPlatform)
    );
    assert_eq!(
        local(version(7, 3, 0)).architecture("macos", "x86_64").unwrap(),
        "darwin-x86_64"
    );
    assert_eq!(
        local(version(7, 4, 11)).architecture("macos", "x86_64").unwrap(),
        "mac-x86_64"
    );
    assert_eq!(
        local(version(8, 0, 3)).architecture("macos", "arm").unwrap(),
        "py3-mac-x86_64"
    );
    assert_eq!(
        local(version(8, 0, 4)).architecture("macos", "x86_64").unwrap(),
        "py3-mac-universal"
    );
    assert_eq!(
        local(version(8, 0, 0)).architecture("freebsd", "x86_64"),
        Err(RenutilError::UnsupportedPlatform)
    );
}

#[test]
fn python_location() {
    let i = local(version(8, 3, 0));
    assert_eq!(
        i.python("/reg", "linux", "x86_64").unwrap(),
        "/reg/8.3.0/lib/py3-linux-x86_64/python"
    );
    assert_eq!(
        i.python("/reg", "windows", "x86_64").unwrap(),
        "/reg/8.3.0/lib/py3-windows-x86_64/python.exe"
    );
}

#[test]
fn registry_resolution() {
    assert_eq!(
        get_registry(Some("/custom".to_string()), Some("/home/u".to_string())).unwrap(),
        "/custom"
    );
    assert_eq!(
        get_registry(None, Some("/home/u".to_string())).unwrap(),
        "/home/u/.renutil"
    );
    assert_eq!(get_registry(None, None), Err(RenutilError::NoHomeDirectory));
}

#[test]
fn launch_version_resolution() {
    let v = version(8, 3, 0);
    assert_eq!(resolve_launch_version(Some(v), false, None).unwrap(), v);
    assert_eq!(resolve_launch_version(Some(v), true, None).unwrap(), v);
    assert_eq!(resolve_launch_version(None, true, Some(v)).unwrap(), v);
    assert_eq!(
        resolve_launch_version(None, false, Some(v)),
        Err(RenutilError::LauncherModeNeedsVersion)
    );
    assert_eq!(
        resolve_launch_version(None, true, None),
        Err(RenutilError::NoVersionFound)
    );
}

#[test]
fn auto_install_override() {
    assert!(auto_install_allowed(None, true));
    assert!(!auto_install_allowed(None, false));
    assert!(auto_install_allowed(Some("true"), true));
    assert!(auto_install_allowed(Some("1"), true));
    assert!(!auto_install_allowed(Some("0"), true));
    assert!(!auto_install_allowed(Some("no"), true));
}

#[test]
fn launcher_arguments() {
    let args = vec!["project".to_string(), "lint".to_string()];
    assert_eq!(
        launch_arguments("/reg/8.3.0/renpy.py", true, "/reg/8.3.0/launcher", &args),
        vec!["-EO", "/reg/8.3.0/renpy.py", "project", "lint"]
    );
    assert_eq!(
        launch_arguments("/reg/8.3.0/renpy.py", false, "/reg/8.3.0/launcher", &args),
        vec!["-EO", "/reg/8.3.0/renpy.py", "/reg/8.3.0/launcher", "project", "lint"]
    );
}

#[test]
fn cleanup_path_list() {
    let paths = cleanup_paths("/reg/8.3.0");
    assert_eq!(paths, vec![
        "/reg/8.3.0/tmp",
        "/reg/8.3.0/rapt/assets",
        "/reg/8.3.0/rapt/bin",
        "/reg/8.3.0/rapt/project/app/build",
        "/reg/8.3.0/rapt/project/app/src/main/assets",
    ]);
}

#[test]
fn versions_among_names() {
    let names = vec![
        "8.3.0".to_string(),
        "downloads".to_string(),
        "7.4.11".to_string(),
    ];
    assert_eq!(
        versions_from_names(&names),
        vec![version(8, 3, 0), version(7, 4, 11)]
    );
}

#[test]
fn extended_prefix_stripping() {
    assert_eq!(strip_extended_prefix("\\\\?\\C:\\renpy"), "C:\\renpy");
    assert_eq!(
        strip_extended_prefix("\\\\?\\UNC\\server\\share"),
        "\\\\server\\share"
    );
    assert_eq!(strip_extended_prefix("/plain/path"), "/plain/path");
    assert_eq!(strip_extended_prefix(""), "");
}

#[test]
fn listing_takes_the_newest_first() {
    let nightly = Version { major: 8, minor: 4, patch: 0, hotfix: 1, nightly: true };
    let versions = vec![version(7, 4, 11), version(8, 3, 0), nightly, version(8, 1, 0)];
    assert_eq!(
        latest_versions(&versions, 2, false, true),
        vec![version(8, 3, 0), version(8, 1, 0)]
    );
    assert_eq!(
        latest_versions(&versions, 10, true, true),
        vec![nightly, version(8, 3, 0), version(8, 1, 0), version(7, 4, 11)]
    );
    // A local listing shows nightly builds whether or not they were
    // asked for.
    assert_eq!(
        latest_versions(&versions, 1, false, false),
        vec![nightly]
    );
    assert_eq!(required_jdk_version(&version(8, 2, 0)), 21);
    assert_eq!(required_jdk_version(&version(8, 1, 3)), 8);
}
