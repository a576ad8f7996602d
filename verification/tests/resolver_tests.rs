use renkit::renconstruct::config::{BuildOption, KnownBuildOption};
use renkit::renconstruct::resolver::{
    active_builds, artifact_lookup, canonical_name, resolve_artifacts, OutputEntry,
};

fn file(name: &str) -> OutputEntry {
    OutputEntry {
        file_name: name.to_string(),
        path: format!("/out/{}", name),
        is_file: true,
    }
}

fn dir(name: &str) -> OutputEntry {
    OutputEntry {
        file_name: name.to_string(),
        path: format!("/out/{}", name),
        is_file: false,
    }
}

fn ids(names: &[&str]) -> Vec<String> {
    names.iter().map(|s| s.to_string()).collect()
}

#[test]
fn longer_identifier_claims_first() {
    // A generic identifier must not steal the artifact meant for a more
    // specific identifier that it is a suffix of.
    let map = resolve_artifacts(&ids(&[]), &ids(&["pc", "mac_pc"]), &vec![file(
        "release_mac_pc.zip",
    )]);
    assert_eq!(map.len(), 2);
    assert_eq!(map[0].0, "mac_pc");
    assert_eq!(map[0].1, Some("/out/release_mac_pc.zip".to_string()));
    assert_eq!(map[1].0, "pc");
    assert_eq!(map[1].1, None);
}

#[test]
fn each_identifier_claims_its_artifact() {
    let map = resolve_artifacts(
        &ids(&["pc", "mac"]),
        &ids(&[]),
        &vec![file("game-pc.zip"), file("game-mac.zip")],
    );
    let pc = artifact_lookup(&map, "pc").unwrap().clone();
    let mac = artifact_lookup(&map, "mac").unwrap().clone();
    assert_eq!(pc, Some("/out/game-pc.zip".to_string()));
    assert_eq!(mac, Some("/out/game-mac.zip".to_string()));
}

#[test]
fn empty_directory_resolves_to_nothing() {
    let map = resolve_artifacts(&ids(&[]), &ids(&["steam"]), &vec![]);
    assert_eq!(map, vec![("steam".to_string(), None)]);
}

#[test]
fn resolution_is_pure() {
    let active = ids(&["pc", "mac"]);
    let on_builds = ids(&[]);
    let entries = vec![file("game-pc.zip"), file("game-mac.zip"), dir("web")];
    let first = resolve_artifacts(&active, &on_builds, &entries);
    let second = resolve_artifacts(&active, &on_builds, &entries);
    assert_eq!(first, second);
}

#[test]
fn task_identifiers_override_active_set() {
    let map = resolve_artifacts(&ids(&["pc", "mac"]), &ids(&["web"]), &vec![dir("web")]);
    assert_eq!(map, vec![("web".to_string(), Some("/out/web".to_string()))]);
}

#[test]
fn files_match_by_stem_directories_by_name() {
    // "game-web.zip" matches "web" only through its stem; the directory
    // name is taken as it is.
    let map = resolve_artifacts(&ids(&[]), &ids(&["web"]), &vec![file("web.zip")]);
    assert_eq!(map[0].1, Some("/out/web.zip".to_string()));
    let map = resolve_artifacts(&ids(&[]), &ids(&["zip"]), &vec![file("web.zip")]);
    assert_eq!(map[0].1, None);
}

#[test]
fn hidden_entries_are_ignored() {
    let map = resolve_artifacts(&ids(&[]), &ids(&["pc"]), &vec![file(".game-pc.zip")]);
    assert_eq!(map, vec![("pc".to_string(), None)]);
}

#[test]
fn entries_are_tried_in_descending_name_order() {
    // Both entries end with the identifier; the lexicographically larger
    // name is tried, and claimed, first.
    let map = resolve_artifacts(&ids(&[]), &ids(&["pc"]), &vec![
        file("alpha-pc.zip"),
        file("beta-pc.zip"),
    ]);
    assert_eq!(map[0].1, Some("/out/beta-pc.zip".to_string()));
}

#[test]
fn canonical_names() {
    assert_eq!(canonical_name(&BuildOption::Known(KnownBuildOption::Pc)), "pc");
    assert_eq!(canonical_name(&BuildOption::Known(KnownBuildOption::Win)), "win");
    assert_eq!(canonical_name(&BuildOption::Known(KnownBuildOption::Linux)), "linux");
    assert_eq!(canonical_name(&BuildOption::Known(KnownBuildOption::Mac)), "mac");
    assert_eq!(canonical_name(&BuildOption::Known(KnownBuildOption::Web)), "web");
    assert_eq!(canonical_name(&BuildOption::Known(KnownBuildOption::Steam)), "steam");
    assert_eq!(canonical_name(&BuildOption::Known(KnownBuildOption::Market)), "market");
    assert_eq!(
        canonical_name(&BuildOption::Known(KnownBuildOption::AndroidApk)),
        "android_apk"
    );
    assert_eq!(
        canonical_name(&BuildOption::Known(KnownBuildOption::AndroidAab)),
        "android_aab"
    );
    assert_eq!(canonical_name(&BuildOption::Custom("itch".to_string())), "itch");
}

#[test]
fn active_builds_keeps_enabled_in_order() {
    let builds = vec![
        (BuildOption::Known(KnownBuildOption::Mac), true),
        (BuildOption::Known(KnownBuildOption::Pc), false),
        (BuildOption::Custom("itch".to_string()), true),
    ];
    assert_eq!(active_builds(&builds), vec!["mac".to_string(), "itch".to_string()]);
}
