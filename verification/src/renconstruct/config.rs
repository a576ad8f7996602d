use crate::version::{version_le, Version};
use vstd::prelude::*;

verus! {

/// Target encoding for the image-conversion task.
#[derive(Clone, Copy, PartialEq, Eq, Structural, Debug)]
pub enum ImageFormat {
    WebP,
    Avif,
    HybridWebPAvif,
}

impl Default for ImageFormat {
    fn default() -> (r: Self)
        ensures
            r == ImageFormat::WebP,
    {
        ImageFormat::WebP
    }
}

/// How one configured directory is searched and re-encoded.
#[derive(Clone, Debug)]
pub struct ConvertImagesPathConfig {
    pub recursive: bool,
    pub lossless: bool,
    pub extensions: Vec<String>,
}

pub fn default_as_true() -> (r: bool)
    ensures
        r,
{
    true
}

/// The file extensions the image-conversion task looks at by default.
pub fn default_convert_images_extensions() -> (r: Vec<String>)
    ensures
        r.deep_view() == seq!["png"@, "jpg"@, "jpeg"@],
{
    let mut out: Vec<String> = Vec::new();
    out.push(String::from_str("png"));
    out.push(String::from_str("jpg"));
    out.push(String::from_str("jpeg"));
    proof {
        assert(out.deep_view() =~= seq!["png"@, "jpg"@, "jpeg"@]);
    }
    out
}

/// Image quality for lossy encodings, in whole percent.
pub fn default_avif_quality() -> (r: u8)
    ensures
        r == 85,
{
    85
}

pub fn default_webp_quality() -> (r: u8)
    ensures
        r == 90,
{
    90
}

/// Scheduling rank of one task in each phase; lower runs earlier.
#[derive(Clone, Copy, PartialEq, Eq, Structural, Debug)]
pub struct PriorityOptions {
    pub pre_build: usize,
    pub post_build: usize,
}

impl Default for PriorityOptions {
    fn default() -> (r: Self)
        ensures
            r.pre_build == 0 && r.post_build == 0,
    {
        PriorityOptions { pre_build: 0, post_build: 0 }
    }
}

#[derive(Clone, Debug)]
pub struct LintOptions {}

/// Keystore material for Android packaging: two base64-encoded keystore
/// blobs and optional credentials.
#[derive(Clone, Debug)]
pub struct KeystoreOptions {
    pub keystore_apk: String,
    pub keystore_aab: String,
    pub alias: Option<String>,
    pub password: Option<String>,
}

#[derive(Clone, Debug)]
pub struct ConvertImagesOptions {
    pub format: ImageFormat,
    /// Lossy quality in whole percent.
    pub avif_quality: u8,
    pub webp_quality: u8,
    pub paths: Vec<(String, ConvertImagesPathConfig)>,
}

#[derive(Clone, Debug)]
pub struct NotarizeOptions {
    pub bundle_id: String,
    pub key_file: String,
    pub cert_file: String,
    pub app_store_key_file: String,
}

/// One value of a custom task's open option table.
#[derive(Debug)]
pub enum CustomOptionValue {
    Text(String),
    Flag(bool),
    Number(usize),
    /// The bit pattern of a 64-bit floating-point literal, kept as found.
    Decimal(u64),
    Array(Vec<CustomOptionValue>),
    Dict(Vec<(String, CustomOptionValue)>),
}

/// Which lifecycle hooks the plugin loader found on a custom task's
/// instance.
#[derive(Clone, Copy, PartialEq, Eq, Structural, Debug)]
pub enum HookSet {
    HasNeither,
    HasPre,
    HasPost,
    HasBoth,
}

impl HookSet {
    pub open spec fn spec_has_pre(self) -> bool {
        self == HookSet::HasPre || self == HookSet::HasBoth
    }

    pub open spec fn spec_has_post(self) -> bool {
        self == HookSet::HasPost || self == HookSet::HasBoth
    }

    pub fn has_pre(&self) -> (r: bool)
        ensures
            r == self.spec_has_pre(),
    {
        matches!(self, HookSet::HasPre | HookSet::HasBoth)
    }

    pub fn has_post(&self) -> (r: bool)
        ensures
            r == self.spec_has_post(),
    {
        matches!(self, HookSet::HasPost | HookSet::HasBoth)
    }

    /// The hook set for an instance found to carry the two callables.
    pub fn from_probes(has_pre: bool, has_post: bool) -> (r: HookSet)
        ensures
            r.spec_has_pre() == has_pre,
            r.spec_has_post() == has_post,
    {
        match (has_pre, has_post) {
            (false, false) => HookSet::HasNeither,
            (true, false) => HookSet::HasPre,
            (false, true) => HookSet::HasPost,
            (true, true) => HookSet::HasBoth,
        }
    }
}

/// A custom task's open options, and the hooks bound to it once the
/// plugin loader has matched it to a discovered class.
#[derive(Debug)]
pub struct CustomOptions {
    pub hooks: HookSet,
    pub options: Vec<(String, CustomOptionValue)>,
}

/// Kind-specific configuration of one task.
#[derive(Debug)]
pub enum TaskOptions {
    Lint(LintOptions),
    Keystore(KeystoreOptions),
    ConvertImages(ConvertImagesOptions),
    Notarize(NotarizeOptions),
    Custom(CustomOptions),
}

/// Configuration shared by every task kind.
#[derive(Debug)]
pub struct GeneralTaskOptions {
    pub enabled: bool,
    /// The build targets the task applies to; an empty list applies it
    /// to every active target.
    pub on_builds: Vec<String>,
    /// Whether the task may run concurrently with its sandboxed siblings
    /// of the same priority.
    pub sandboxed: bool,
    pub priorities: PriorityOptions,
    pub options: TaskOptions,
}

/// A distribution target: one of the fixed set, or a custom name.
#[derive(Clone, PartialEq, Eq, Hash, Debug)]
pub enum BuildOption {
    Known(KnownBuildOption),
    Custom(String),
}

#[derive(Clone, Copy, PartialEq, Eq, Structural, Hash, Debug)]
pub enum KnownBuildOption {
    Pc,
    Win,
    Linux,
    Mac,
    Web,
    Steam,
    Market,
    AndroidApk,
    AndroidAab,
}

/// Options of the orchestrator itself.
#[derive(Clone, Debug)]
pub struct RenconstructOptions {
    pub task_dir: Option<String>,
    pub clear_output_dir: bool,
}

impl Default for RenconstructOptions {
    fn default() -> (r: Self)
        ensures
            r.task_dir is None,
            !r.clear_output_dir,
    {
        RenconstructOptions { task_dir: None, clear_output_dir: false }
    }
}

/// Which engine the build uses and where installations live.
#[derive(Clone, Debug)]
pub struct RenutilOptions {
    pub version: Version,
    pub registry: Option<String>,
    pub update_pickle: bool,
}

/// One configured task under its unique name.
#[derive(Debug)]
pub struct Task {
    pub name: String,
    pub kind: GeneralTaskOptions,
}

/// The whole configuration of one run, tasks in their configured order.
#[derive(Debug)]
pub struct Config {
    pub builds: Vec<(BuildOption, bool)>,
    pub options: RenconstructOptions,
    pub renutil: RenutilOptions,
    pub tasks: Vec<Task>,
}

/// Why a configuration was rejected before any task ran.
#[derive(Clone, PartialEq, Eq, Debug)]
pub enum ConfigError {
    /// No build target is enabled.
    NoBuildsEnabled,
    /// The web target needs engine 8.2.0 or newer.
    WebNeedsNewerEngine,
    /// The Android app-bundle target needs engine 7.5.0 or newer.
    AndroidAabNeedsNewerEngine,
    /// An Android target is enabled but no enabled keystore task exists.
    MissingKeystoreTask,
    /// A lint or keystore task asks to be sandboxed.
    IllegalSandbox { task_name: String },
    /// A custom task matches no discovered class.
    UnmatchedCustomTask { task_name: String },
}

/// True when target `k` is enabled by some entry.
pub open spec fn spec_build_enabled(builds: Seq<(BuildOption, bool)>, k: BuildOption) -> bool {
    exists|i: int| 0 <= i < builds.len() && builds[i].0 == k && builds[i].1
}

/// True when any target at all is enabled.
pub open spec fn spec_any_build_enabled(builds: Seq<(BuildOption, bool)>) -> bool {
    exists|i: int| 0 <= i < builds.len() && builds[i].1
}

/// True when some enabled task carries keystore material.
pub open spec fn spec_has_enabled_keystore(tasks: Seq<Task>) -> bool {
    exists|i: int|
        0 <= i < tasks.len() && tasks[i].kind.enabled && tasks[i].kind.options is Keystore
}

/// A lint or keystore task must not be sandboxed: its work touches
/// shared engine state that concurrent siblings would race on.
pub open spec fn spec_illegal_sandbox(t: Task) -> bool {
    t.kind.sandboxed && (t.kind.options is Lint || t.kind.options is Keystore)
}

pub open spec fn first_arm_engine() -> Version {
    Version { major: 7, minor: 5, patch: 0, hotfix: 0, nightly: false }
}

pub open spec fn first_web_engine() -> Version {
    Version { major: 8, minor: 2, patch: 0, hotfix: 0, nightly: false }
}

/// Everything `validate` checks, in one statement.
pub open spec fn spec_config_valid(c: Config) -> bool {
    &&& spec_any_build_enabled(c.builds@)
    &&& spec_build_enabled(c.builds@, BuildOption::Known(KnownBuildOption::Web)) ==> version_le(
        first_web_engine(),
        c.renutil.version,
    )
    &&& spec_build_enabled(c.builds@, BuildOption::Known(KnownBuildOption::AndroidAab))
        ==> version_le(first_arm_engine(), c.renutil.version)
    &&& (spec_build_enabled(c.builds@, BuildOption::Known(KnownBuildOption::AndroidApk))
        || spec_build_enabled(c.builds@, BuildOption::Known(KnownBuildOption::AndroidAab)))
        ==> spec_has_enabled_keystore(c.tasks@)
    &&& forall|i: int| 0 <= i < c.tasks@.len() ==> !spec_illegal_sandbox(#[trigger] c.tasks@[i])
}

/// True when `b` names the known target `k`.
fn build_is(b: &BuildOption, k: KnownBuildOption) -> (r: bool)
    ensures
        r == (*b == BuildOption::Known(k)),
{
    match b {
        BuildOption::Known(kk) => *kk == k,
        BuildOption::Custom(_) => false,
    }
}

/// True when target `k` is enabled in `builds`.
pub fn build_enabled(builds: &Vec<(BuildOption, bool)>, k: KnownBuildOption) -> (r: bool)
    ensures
        r == spec_build_enabled(builds@, BuildOption::Known(k)),
{
    let n = builds.len();
    let mut i: usize = 0;
    loop
        invariant
            n == builds@.len(),
            i <= n,
            forall|j: int|
                0 <= j < i ==> !((#[trigger] builds@[j]).0 == BuildOption::Known(k)
                    && builds@[j].1),
        ensures
            i <= n,
            forall|j: int|
                0 <= j < i ==> !((#[trigger] builds@[j]).0 == BuildOption::Known(k)
                    && builds@[j].1),
            i < n ==> builds@[i as int].0 == BuildOption::Known(k) && builds@[i as int].1,
        decreases n - i,
    {
        if i == n {
            break ;
        }
        if builds[i].1 && build_is(&builds[i].0, k) {
            break ;
        }
        i = i + 1;
    }
    i < n
}

/// Checks a configuration before anything runs, per `spec_config_valid`;
/// the first broken rule, in the order below, names the error.
pub fn validate(config: &Config) -> (r: Result<(), ConfigError>)
    ensures
        r is Ok <==> spec_config_valid(*config),
        match r {
            Ok(_) => true,
            Err(e) => match e {
                ConfigError::NoBuildsEnabled => !spec_any_build_enabled(config.builds@),
                ConfigError::WebNeedsNewerEngine => {
                    &&& spec_any_build_enabled(config.builds@)
                    &&& spec_build_enabled(
                        config.builds@,
                        BuildOption::Known(KnownBuildOption::Web),
                    )
                    &&& !version_le(first_web_engine(), config.renutil.version)
                },
                ConfigError::AndroidAabNeedsNewerEngine => {
                    &&& spec_any_build_enabled(config.builds@)
                    &&& spec_build_enabled(
                        config.builds@,
                        BuildOption::Known(KnownBuildOption::Web),
                    ) ==> version_le(first_web_engine(), config.renutil.version)
                    &&& spec_build_enabled(
                        config.builds@,
                        BuildOption::Known(KnownBuildOption::AndroidAab),
                    )
                    &&& !version_le(first_arm_engine(), config.renutil.version)
                },
                ConfigError::MissingKeystoreTask => {
                    &&& spec_any_build_enabled(config.builds@)
                    &&& spec_build_enabled(
                        config.builds@,
                        BuildOption::Known(KnownBuildOption::Web),
                    ) ==> version_le(first_web_engine(), config.renutil.version)
                    &&& spec_build_enabled(
                        config.builds@,
                        BuildOption::Known(KnownBuildOption::AndroidAab),
                    ) ==> version_le(first_arm_engine(), config.renutil.version)
                    &&& (spec_build_enabled(
                        config.builds@,
                        BuildOption::Known(KnownBuildOption::AndroidApk),
                    ) || spec_build_enabled(
                        config.builds@,
                        BuildOption::Known(KnownBuildOption::AndroidAab),
                    ))
                    &&& !spec_has_enabled_keystore(config.tasks@)
                },
                ConfigError::IllegalSandbox { task_name } => exists|i: int|
                    0 <= i < config.tasks@.len() && spec_illegal_sandbox(#[trigger] config.tasks@[i])
                        && config.tasks@[i].name == task_name && (forall|k: int|
                        0 <= k < i ==> !spec_illegal_sandbox(#[trigger] config.tasks@[k])),
                ConfigError::UnmatchedCustomTask { .. } => false,
            },
        },
{
    let builds = &config.builds;
    let any = {
        let n = builds.len();
        let mut i: usize = 0;
        loop
            invariant
                n == builds@.len(),
                i <= n,
                forall|j: int| 0 <= j < i ==> !(#[trigger] builds@[j]).1,
            ensures
                i <= n,
                forall|j: int| 0 <= j < i ==> !(#[trigger] builds@[j]).1,
                i < n ==> builds@[i as int].1,
            decreases n - i,
        {
            if i == n {
                break ;
            }
            if builds[i].1 {
                break ;
            }
            i = i + 1;
        }
        i < n
    };
    if !any {
        return Err(ConfigError::NoBuildsEnabled);
    }
    let web_min = Version { major: 8, minor: 2, patch: 0, hotfix: 0, nightly: false };
    if build_enabled(builds, KnownBuildOption::Web) && config.renutil.version.is_before(&web_min) {
        return Err(ConfigError::WebNeedsNewerEngine);
    }
    let aab_min = Version { major: 7, minor: 5, patch: 0, hotfix: 0, nightly: false };
    if build_enabled(builds, KnownBuildOption::AndroidAab) && config.renutil.version.is_before(
        &aab_min,
    ) {
        return Err(ConfigError::AndroidAabNeedsNewerEngine);
    }
    if build_enabled(builds, KnownBuildOption::AndroidApk) || build_enabled(
        builds,
        KnownBuildOption::AndroidAab,
    ) {
        let tasks = &config.tasks;
        let n = tasks.len();
        let mut i: usize = 0;
        loop
            invariant
                n == tasks@.len(),
                i <= n,
                forall|j: int|
                    0 <= j < i ==> !((#[trigger] tasks@[j]).kind.enabled
                        && tasks@[j].kind.options is Keystore),
            ensures
                i <= n,
                forall|j: int|
                    0 <= j < i ==> !((#[trigger] tasks@[j]).kind.enabled
                        && tasks@[j].kind.options is Keystore),
                i < n ==> tasks@[i as int].kind.enabled && tasks@[i as int].kind.options is Keystore,
            decreases n - i,
        {
            if i == n {
                break ;
            }
            if tasks[i].kind.enabled && matches!(tasks[i].kind.options, TaskOptions::Keystore(_)) {
                break ;
            }
            i = i + 1;
        }
        if i == n {
            return Err(ConfigError::MissingKeystoreTask);
        }
    }
    let tasks = &config.tasks;
    let n = tasks.len();
    let mut i: usize = 0;
    loop
        invariant
            n == tasks@.len(),
            i <= n,
            forall|j: int| 0 <= j < i ==> !spec_illegal_sandbox(#[trigger] tasks@[j]),
        ensures
            i <= n,
            forall|j: int| 0 <= j < i ==> !spec_illegal_sandbox(#[trigger] tasks@[j]),
            i < n ==> spec_illegal_sandbox(tasks@[i as int]),
        decreases n - i,
    {
        if i == n {
            break ;
        }
        if tasks[i].kind.sandboxed && matches!(
            tasks[i].kind.options,
            TaskOptions::Lint(_) | TaskOptions::Keystore(_),
        ) {
            break ;
        }
        i = i + 1;
    }
    if i < n {
        let name = tasks[i].name.clone();
        return Err(ConfigError::IllegalSandbox { task_name: name });
    }
    Ok(())
}

} // verus!
