use renkit::renconstruct::config::{
    default_as_true, default_avif_quality, default_convert_images_extensions,
    default_webp_quality, validate, BuildOption, Config, ConfigError, ConvertImagesOptions,
    GeneralTaskOptions, ImageFormat, KeystoreOptions, KnownBuildOption, LintOptions,
    PriorityOptions, RenconstructOptions, RenutilOptions, Task, TaskOptions,
};
use renkit::version::Version;

fn version(major: u32, minor: u32, patch: u32) -> Version {
    Version { major, minor, patch, hotfix: 0, nightly: false }
}

fn keystore_task(name: &str, enabled: bool, sandboxed: bool) -> Task {
    Task {
        name: name.to_string(),
        kind: GeneralTaskOptions {
            enabled,
            on_builds: vec![],
            sandboxed,
            priorities: PriorityOptions { pre_build: 0, post_build: 0 },
            options: TaskOptions::Keystore(KeystoreOptions {
                keystore_apk: "QQ==".to_string(),
                keystore_aab: "QQ==".to_string(),
                alias: None,
                password: None,
            }),
        },
    }
}

fn lint_task(name: &str, sandboxed: bool) -> Task {
    Task {
        name: name.to_string(),
        kind: GeneralTaskOptions {
            enabled: true,
            on_builds: vec![],
            sandboxed,
            priorities: PriorityOptions { pre_build: 0, post_build: 0 },
            options: TaskOptions::Lint(LintOptions {}),
        },
    }
}

fn convert_task(name: &str, sandboxed: bool) -> Task {
    Task {
        name: name.to_string(),
        kind: GeneralTaskOptions {
            enabled: true,
            on_builds: vec![],
            sandboxed,
            priorities: PriorityOptions { pre_build: 0, post_build: 0 },
            options: TaskOptions::ConvertImages(ConvertImagesOptions {
                format: ImageFormat::WebP,
                avif_quality: default_avif_quality(),
                webp_quality: default_webp_quality(),
                paths: vec![],
            }),
        },
    }
}

fn config(builds: Vec<(BuildOption, bool)>, v: Version, tasks: Vec<Task>) -> Config {
    Config {
        builds,
        options: RenconstructOptions { task_dir: None, clear_output_dir: false },
        renutil: RenutilOptions { version: v, registry: None, update_pickle: false },
        tasks,
    }
}

fn known(k: KnownBuildOption) -> BuildOption {
    BuildOption::Known(k)
}

#[test]
fn valid_configuration_passes() {
    let c = config(
        vec![(known(KnownBuildOption::Pc), true)],
        version(8, 3, 0),
        vec![convert_task("images", true)],
    );
    assert!(validate(&c).is_ok());
}

#[test]
fn no_enabled_build_is_rejected() {
    let c = config(
        vec![(known(KnownBuildOption::Pc), false)],
        version(8, 3, 0),
        vec![],
    );
    assert_eq!(validate(&c), Err(ConfigError::NoBuildsEnabled));
    let empty = config(vec![], version(8, 3, 0), vec![]);
    assert_eq!(validate(&empty), Err(ConfigError::NoBuildsEnabled));
}

#[test]
fn web_needs_a_new_engine() {
    let c = config(
        vec![(known(KnownBuildOption::Web), true)],
        version(8, 1, 0),
        vec![],
    );
    assert_eq!(validate(&c), Err(ConfigError::WebNeedsNewerEngine));
    let ok = config(
        vec![(known(KnownBuildOption::Web), true)],
        version(8, 2, 0),
        vec![],
    );
    assert!(validate(&ok).is_ok());
}

#[test]
fn app_bundle_needs_a_new_engine() {
    let c = config(
        vec![(known(KnownBuildOption::AndroidAab), true)],
        version(7, 4, 11),
        vec![keystore_task("keys", true, false)],
    );
    assert_eq!(validate(&c), Err(ConfigError::AndroidAabNeedsNewerEngine));
}

#[test]
fn android_builds_need_an_enabled_keystore_task() {
    let c = config(
        vec![(known(KnownBuildOption::AndroidApk), true)],
        version(8, 3, 0),
        vec![keystore_task("keys", false, false)],
    );
    assert_eq!(validate(&c), Err(ConfigError::MissingKeystoreTask));
    let ok = config(
        vec![(known(KnownBuildOption::AndroidApk), true)],
        version(8, 3, 0),
        vec![keystore_task("keys", true, false)],
    );
    assert!(validate(&ok).is_ok());
}

#[test]
fn sandboxed_lint_fails_validation_before_anything_runs() {
    // A sandboxed lint task beside another sandboxed task at the same
    // priority is rejected when the configuration is checked, not when
    // the scheduler reaches it.
    let c = config(
        vec![(known(KnownBuildOption::Pc), true)],
        version(8, 3, 0),
        vec![lint_task("checks", true), convert_task("images", true)],
    );
    assert_eq!(
        validate(&c),
        Err(ConfigError::IllegalSandbox { task_name: "checks".to_string() })
    );
}

#[test]
fn sandboxed_keystore_is_rejected() {
    let c = config(
        vec![(known(KnownBuildOption::Pc), true)],
        version(8, 3, 0),
        vec![keystore_task("keys", true, true)],
    );
    assert_eq!(
        validate(&c),
        Err(ConfigError::IllegalSandbox { task_name: "keys".to_string() })
    );
}

#[test]
fn defaults() {
    assert!(default_as_true());
    assert_eq!(default_avif_quality(), 85);
    assert_eq!(default_webp_quality(), 90);
    assert_eq!(default_convert_images_extensions(), vec!["png", "jpg", "jpeg"]);
    assert!(matches!(ImageFormat::default(), ImageFormat::WebP));
    let p = PriorityOptions::default();
    assert_eq!(p.pre_build, 0);
    assert_eq!(p.post_build, 0);
    let o = RenconstructOptions::default();
    assert!(o.task_dir.is_none());
    assert!(!o.clear_output_dir);
}
