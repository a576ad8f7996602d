use renkit::renconstruct::resolver::OutputEntry;
use renkit::renconstruct::tasks::{
    find_mac_zip, keystore_paths, keystore_restore_plan, lint_arguments, lint_outcome,
    property_file_contents, resolve_credential, resolve_keystore, should_convert, RestoreAction,
    TaskContext, TaskError,
};
use renkit::version::Version;

fn version(major: u32, minor: u32, patch: u32) -> Version {
    Version { major, minor, patch, hotfix: 0, nightly: false }
}

fn context(v: Version, renpy_path: &str, input_dir: &str) -> TaskContext {
    TaskContext {
        version: v,
        input_dir: input_dir.to_string(),
        output_dir: "/out".to_string(),
        renpy_path: renpy_path.to_string(),
        registry: "/reg".to_string(),
    }
}

#[test]
fn keystore_blob_is_decoded() {
    // "YW5kcm9pZA==" is the base64 form of "android"; handing the text
    // back unchanged would fail this.
    let bytes = resolve_keystore(Some("YW5kcm9pZA==".to_string()), None).unwrap();
    assert_eq!(bytes, b"android".to_vec());
}

#[test]
fn keystore_configuration_precedes_environment() {
    let bytes = resolve_keystore(
        Some("YW5kcm9pZA==".to_string()),
        Some("QQ==".to_string()),
    )
    .unwrap();
    assert_eq!(bytes, b"android".to_vec());
    let bytes = resolve_keystore(None, Some("QQ==".to_string())).unwrap();
    assert_eq!(bytes, b"A".to_vec());
}

#[test]
fn keystore_errors() {
    assert_eq!(resolve_keystore(None, None), Err(TaskError::MissingKeystore));
    assert_eq!(
        resolve_keystore(Some("not base64!".to_string()), None),
        Err(TaskError::InvalidKeystore)
    );
}

#[test]
fn credential_resolution_order() {
    assert_eq!(
        resolve_credential(Some("cfg".to_string()), Some("env".to_string()), "android"),
        "cfg"
    );
    assert_eq!(
        resolve_credential(None, Some("env".to_string()), "android"),
        "env"
    );
    assert_eq!(resolve_credential(None, None, "android"), "android");
}

#[test]
fn keystore_paths_by_engine_age() {
    let old = keystore_paths(&context(version(7, 5, 0), "/renpy", "/project"));
    assert_eq!(old.android, "/renpy/rapt/android.keystore");
    assert_eq!(old.bundle_backup, "/renpy/rapt/bundle.keystore.original");
    let new = keystore_paths(&context(version(8, 1, 0), "/renpy", "/project"));
    assert_eq!(new.android, "/project/android.keystore");
    assert_eq!(new.bundle, "/project/bundle.keystore");
    assert_eq!(new.local_properties, "/renpy/rapt/project/local.properties");
    assert_eq!(
        new.bundle_properties_backup,
        "/renpy/rapt/project/bundle.properties.original"
    );
}

#[test]
fn property_file_layout() {
    let text = property_file_contents("android", "secret", "/k/android.keystore", "/renpy");
    assert_eq!(
        text,
        "key.alias=android\nkey.store.password=secret\nkey.alias.password=secret\nkey.store=/k/android.keystore\nsdk.dir=/renpy"
    );
}

#[test]
fn restore_plan_follows_backups() {
    let paths = keystore_paths(&context(version(8, 1, 0), "/renpy", "/project"));
    let plan = keystore_restore_plan(&paths, true, false, true, false);
    assert_eq!(plan.len(), 4);
    assert_eq!(
        plan[0],
        RestoreAction::Restore {
            backup: "/project/android.keystore.original".to_string(),
            target: "/project/android.keystore".to_string(),
        }
    );
    assert_eq!(
        plan[1],
        RestoreAction::Remove { target: "/project/bundle.keystore".to_string() }
    );
    assert!(matches!(plan[2], RestoreAction::Restore { .. }));
    assert!(matches!(plan[3], RestoreAction::Remove { .. }));
}

fn png_header() -> Vec<u8> {
    vec![0x89, 0x50, 0x4E, 0x47, 0x0D, 0x0A, 0x1A, 0x0A, 0x00, 0x00, 0x00, 0x0D]
}

#[test]
fn conversion_takes_configured_extensions_only() {
    let allowed = vec!["png".to_string(), "jpg".to_string()];
    let png = "png".to_string();
    let gif = "gif".to_string();
    assert!(should_convert(Some(&png), &allowed, &png_header()));
    assert!(!should_convert(Some(&gif), &allowed, &png_header()));
    assert!(!should_convert(None, &allowed, &png_header()));
}

#[test]
fn already_converted_containers_are_skipped() {
    let allowed = vec!["png".to_string()];
    let png = "png".to_string();
    let riff = vec![
        0x52, 0x49, 0x46, 0x46, 0x00, 0x00, 0x00, 0x00, 0x57, 0x45, 0x42, 0x50,
    ];
    assert!(!should_convert(Some(&png), &allowed, &riff));
    let avif = vec![
        0x00, 0x00, 0x00, 0x1C, 0x66, 0x74, 0x79, 0x70, 0x61, 0x76, 0x69, 0x66,
    ];
    assert!(!should_convert(Some(&png), &allowed, &avif));
}

#[test]
fn lint_invocation() {
    let args = lint_arguments("/project");
    assert_eq!(args, vec!["/project", "lint"]);
    assert!(lint_outcome(true).is_ok());
    assert_eq!(lint_outcome(false), Err(TaskError::LintFailed));
}

fn file(name: &str) -> OutputEntry {
    OutputEntry {
        file_name: name.to_string(),
        path: format!("/out/{}", name),
        is_file: true,
    }
}

#[test]
fn mac_zip_is_found_by_suffix() {
    let entries = vec![file("game-pc.zip"), file("game-mac.zip"), file("notes.txt")];
    assert_eq!(find_mac_zip(&entries).unwrap(), "/out/game-mac.zip");
    let none = vec![file("game-pc.zip"), file("game-mac.tar")];
    assert_eq!(find_mac_zip(&none), Err(TaskError::MissingMacZip));
    let dir_only = vec![OutputEntry {
        file_name: "game-mac.zip".to_string(),
        path: "/out/game-mac.zip".to_string(),
        is_file: false,
    }];
    assert_eq!(find_mac_zip(&dir_only), Err(TaskError::MissingMacZip));
}
