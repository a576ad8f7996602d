use crate::text::{spec_ends_with, spec_file_stem, str_ends_with, str_eq_str};
use crate::renconstruct::resolver::OutputEntry;
use crate::version::{version_lt, Version};
use vstd::prelude::*;

verus! {

/// The read-only bundle handed to every task invocation.
#[derive(Clone, Debug)]
pub struct TaskContext {
    pub version: Version,
    pub input_dir: String,
    pub output_dir: String,
    pub renpy_path: String,
    pub registry: String,
}

/// Why a task reported failure.
#[derive(Clone, PartialEq, Eq, Debug)]
pub enum TaskError {
    /// No keystore blob was configured and none stood in the environment.
    MissingKeystore,
    /// The keystore blob is not valid base64.
    InvalidKeystore,
    /// The engine's lint run exited with a failure.
    LintFailed,
    /// No zip archive of the desktop Mac build stands in the output
    /// directory.
    MissingMacZip,
}

/// What base64 decoding of a text yields, when it is valid: standard
/// alphabet, with padding.
pub uninterp spec fn base64_decoding(s: Seq<char>) -> Option<Seq<u8>>;

#[verifier::external_type_specification]
#[verifier::external_body]
pub struct ExDecodeError(base64::DecodeError);

/// Relies on base64's `Engine::decode` with the `STANDARD` engine: it
/// decodes the standard alphabet with padding, and the result is a
/// function of the input text alone.
#[verifier::external_body]
fn b64_decode(s: &str) -> (r: Result<Vec<u8>, base64::DecodeError>)
    ensures
        r is Ok <==> base64_decoding(s@) is Some,
        r is Ok ==> r.unwrap()@ == base64_decoding(s@).unwrap(),
{
    base64::Engine::decode(&base64::engine::general_purpose::STANDARD, s)
}

/// The credential text a task uses: explicit configuration first, the
/// process environment as fallback, then the given default.
pub fn resolve_credential(
    configured: Option<String>,
    environment: Option<String>,
    fallback: &str,
) -> (r: String)
    ensures
        r@ == if configured is Some {
            configured.unwrap()@
        } else if environment is Some {
            environment.unwrap()@
        } else {
            fallback@
        },
{
    match configured {
        Some(v) => v,
        None => match environment {
            Some(v) => v,
            None => fallback.to_owned(),
        },
    }
}

/// The keystore bytes a task writes: the configured blob first, the
/// environment as fallback, base64-decoded; a missing or malformed blob
/// is the task's failure.
pub fn resolve_keystore(configured: Option<String>, environment: Option<String>) -> (r: Result<
    Vec<u8>,
    TaskError,
>)
    ensures
        ({
            let chosen = if configured is Some {
                configured
            } else {
                environment
            };
            match r {
                Ok(bytes) => chosen is Some && base64_decoding(chosen.unwrap()@) == Some(bytes@),
                Err(TaskError::MissingKeystore) => chosen is None,
                Err(TaskError::InvalidKeystore) => chosen is Some && base64_decoding(
                    chosen.unwrap()@,
                ) is None,
                Err(_) => false,
            }
        }),
{
    let blob = match configured {
        Some(v) => v,
        None => match environment {
            Some(v) => v,
            None => {
                return Err(TaskError::MissingKeystore);
            },
        },
    };
    match b64_decode(blob.as_str()) {
        Ok(bytes) => Ok(bytes),
        Err(_) => Err(TaskError::InvalidKeystore),
    }
}

/// Where the keystore task's four file pairs live. Older engines keep
/// the keystores under the packaging tool; newer ones keep them next to
/// the project. The two property files always live under the packaging
/// tool.
pub struct KeystorePaths {
    pub android: String,
    pub android_backup: String,
    pub bundle: String,
    pub bundle_backup: String,
    pub local_properties: String,
    pub local_properties_backup: String,
    pub bundle_properties: String,
    pub bundle_properties_backup: String,
}

/// Whether this engine version keeps its keystores under the packaging
/// tool rather than next to the project.
pub open spec fn spec_old_keystore_layout(v: Version) -> bool {
    version_lt(v, Version { major: 7, minor: 6, patch: 0, hotfix: 0, nightly: false })
        && version_lt(v, Version { major: 8, minor: 1, patch: 0, hotfix: 0, nightly: false })
}

pub fn keystore_paths(ctx: &TaskContext) -> (r: KeystorePaths)
    ensures
        ({
            let version = ctx.version;
            let renpy_path = &ctx.renpy_path;
            let input_dir = &ctx.input_dir;
            let base = if spec_old_keystore_layout(version) {
                renpy_path@ + "/rapt"@
            } else {
                input_dir@
            };
            &&& r.android@ == base + "/android.keystore"@
            &&& r.android_backup@ == base + "/android.keystore.original"@
            &&& r.bundle@ == base + "/bundle.keystore"@
            &&& r.bundle_backup@ == base + "/bundle.keystore.original"@
            &&& r.local_properties@ == renpy_path@ + "/rapt/project/local.properties"@
            &&& r.local_properties_backup@ == renpy_path@
                + "/rapt/project/local.properties.original"@
            &&& r.bundle_properties@ == renpy_path@ + "/rapt/project/bundle.properties"@
            &&& r.bundle_properties_backup@ == renpy_path@
                + "/rapt/project/bundle.properties.original"@
        }),
{
    let version = &ctx.version;
    let renpy_path = ctx.renpy_path.as_str();
    let input_dir = ctx.input_dir.as_str();
    let v760 = Version { major: 7, minor: 6, patch: 0, hotfix: 0, nightly: false };
    let v810 = Version { major: 8, minor: 1, patch: 0, hotfix: 0, nightly: false };
    let mut base = if version.is_before(&v760) && version.is_before(&v810) {
        let mut b = renpy_path.to_owned();
        b.append("/rapt");
        b
    } else {
        input_dir.to_owned()
    };
    let mut android = base.clone();
    android.append("/android.keystore");
    let mut android_backup = base.clone();
    android_backup.append("/android.keystore.original");
    let mut bundle = base.clone();
    bundle.append("/bundle.keystore");
    let mut bundle_backup = base.clone();
    bundle_backup.append("/bundle.keystore.original");
    let mut local_properties = renpy_path.to_owned();
    local_properties.append("/rapt/project/local.properties");
    let mut local_properties_backup = renpy_path.to_owned();
    local_properties_backup.append("/rapt/project/local.properties.original");
    let mut bundle_properties = renpy_path.to_owned();
    bundle_properties.append("/rapt/project/bundle.properties");
    let mut bundle_properties_backup = renpy_path.to_owned();
    bundle_properties_backup.append("/rapt/project/bundle.properties.original");
    proof {
        if spec_old_keystore_layout(*version) {
            assert(base@ =~= renpy_path@ + "/rapt"@);
        }
    }
    KeystorePaths {
        android,
        android_backup,
        bundle,
        bundle_backup,
        local_properties,
        local_properties_backup,
        bundle_properties,
        bundle_properties_backup,
    }
}

/// The contents of one keystore property file.
pub fn property_file_contents(
    alias: &str,
    password: &str,
    keystore_path: &str,
    sdk_dir: &str,
) -> (r: String)
    ensures
        r@ == "key.alias="@ + alias@ + "\nkey.store.password="@ + password@
            + "\nkey.alias.password="@ + password@ + "\nkey.store="@ + keystore_path@
            + "\nsdk.dir="@ + sdk_dir@,
{
    let mut out = String::from_str("key.alias=");
    out.append(alias);
    out.append("\nkey.store.password=");
    out.append(password);
    out.append("\nkey.alias.password=");
    out.append(password);
    out.append("\nkey.store=");
    out.append(keystore_path);
    out.append("\nsdk.dir=");
    out.append(sdk_dir);
    proof {
        assert(out@ =~= "key.alias="@ + alias@ + "\nkey.store.password="@ + password@
            + "\nkey.alias.password="@ + password@ + "\nkey.store="@ + keystore_path@
            + "\nsdk.dir="@ + sdk_dir@);
    }
    out
}

/// One restoration step of the keystore task's cleanup.
#[derive(Clone, PartialEq, Eq, Debug)]
pub enum RestoreAction {
    /// Copy the backup over the target, then delete the backup.
    Restore { backup: String, target: String },
    /// No backup was made: the target itself is removed.
    Remove { target: String },
}

/// What restores one file pair.
pub open spec fn spec_restore_step(backup: String, target: String, backup_exists: bool) -> RestoreAction {
    if backup_exists {
        RestoreAction::Restore { backup, target }
    } else {
        RestoreAction::Remove { target }
    }
}

/// The keystore task's cleanup plan: each of its four file pairs is
/// restored from its backup when one was made, and removed otherwise.
pub fn keystore_restore_plan(
    paths: &KeystorePaths,
    android_backup_exists: bool,
    bundle_backup_exists: bool,
    local_properties_backup_exists: bool,
    bundle_properties_backup_exists: bool,
) -> (r: Vec<RestoreAction>)
    ensures
        r@.len() == 4,
        r@[0] == spec_restore_step(paths.android_backup, paths.android, android_backup_exists),
        r@[1] == spec_restore_step(paths.bundle_backup, paths.bundle, bundle_backup_exists),
        r@[2] == spec_restore_step(
            paths.local_properties_backup,
            paths.local_properties,
            local_properties_backup_exists,
        ),
        r@[3] == spec_restore_step(
            paths.bundle_properties_backup,
            paths.bundle_properties,
            bundle_properties_backup_exists,
        ),
{
    let mut out: Vec<RestoreAction> = Vec::new();
    out.push(
        if android_backup_exists {
            RestoreAction::Restore {
                backup: paths.android_backup.clone(),
                target: paths.android.clone(),
            }
        } else {
            RestoreAction::Remove { target: paths.android.clone() }
        },
    );
    out.push(
        if bundle_backup_exists {
            RestoreAction::Restore {
                backup: paths.bundle_backup.clone(),
                target: paths.bundle.clone(),
            }
        } else {
            RestoreAction::Remove { target: paths.bundle.clone() }
        },
    );
    out.push(
        if local_properties_backup_exists {
            RestoreAction::Restore {
                backup: paths.local_properties_backup.clone(),
                target: paths.local_properties.clone(),
            }
        } else {
            RestoreAction::Remove { target: paths.local_properties.clone() }
        },
    );
    out.push(
        if bundle_properties_backup_exists {
            RestoreAction::Restore {
                backup: paths.bundle_properties_backup.clone(),
                target: paths.bundle_properties.clone(),
            }
        } else {
            RestoreAction::Remove { target: paths.bundle_properties.clone() }
        },
    );
    out
}

pub open spec fn spec_riff_header(header: Seq<u8>) -> bool {
    header[0] == 0x52u8 && header[1] == 0x49u8 && header[2] == 0x46u8 && header[3] == 0x46u8
}

pub open spec fn spec_avif_header(header: Seq<u8>) -> bool {
    header[4] == 0x66u8 && header[5] == 0x74u8 && header[6] == 0x79u8 && header[7] == 0x70u8
        && header[8] == 0x61u8 && header[9] == 0x76u8 && header[10] == 0x69u8 && header[11]
        == 0x66u8
}

/// Whether the image-conversion task takes one file: its extension must
/// be among the configured ones, and a file already in a target
/// container — a RIFF file or an AVIF brand — is left alone.
pub open spec fn spec_should_convert(
    extension: Option<Seq<char>>,
    allowed: Seq<String>,
    header: Seq<u8>,
) -> bool {
    match extension {
        None => false,
        Some(e) => (exists|i: int| 0 <= i < allowed.len() && allowed[i]@ == e)
            && !spec_riff_header(header) && !spec_avif_header(header),
    }
}

pub fn should_convert(
    extension: Option<&String>,
    allowed: &Vec<String>,
    header: &Vec<u8>,
) -> (r: bool)
    requires
        header@.len() >= 12,
    ensures
        r == spec_should_convert(
            match extension {
                Some(e) => Some(e@),
                None => None,
            },
            allowed@,
            header@,
        ),
{
    let e = match extension {
        Some(e) => e,
        None => {
            return false;
        },
    };
    let n = allowed.len();
    let mut i: usize = 0;
    loop
        invariant
            n == allowed@.len(),
            i <= n,
            forall|k: int| 0 <= k < i ==> (#[trigger] allowed@[k])@ != e@,
        ensures
            i <= n,
            forall|k: int| 0 <= k < i ==> (#[trigger] allowed@[k])@ != e@,
            i < n ==> allowed@[i as int]@ == e@,
        decreases n - i,
    {
        if i == n {
            break ;
        }
        if str_eq_str(allowed[i].as_str(), e.as_str()) {
            break ;
        }
        i = i + 1;
    }
    if i == n {
        return false;
    }
    let riff = header[0] == 0x52 && header[1] == 0x49 && header[2] == 0x46 && header[3] == 0x46;
    let avif = header[4] == 0x66 && header[5] == 0x74 && header[6] == 0x79 && header[7] == 0x70
        && header[8] == 0x61 && header[9] == 0x76 && header[10] == 0x69 && header[11] == 0x66;
    !riff && !avif
}

/// The engine arguments of one lint run.
pub fn lint_arguments(input_dir: &str) -> (r: Vec<String>)
    ensures
        r@.len() == 2,
        r@[0]@ == input_dir@,
        r@[1]@ == "lint"@,
{
    let mut out: Vec<String> = Vec::new();
    out.push(input_dir.to_owned());
    out.push(String::from_str("lint"));
    out
}

/// The lint task's verdict from the engine's exit status.
pub fn lint_outcome(status_success: bool) -> (r: Result<(), TaskError>)
    ensures
        r is Ok <==> status_success,
        r is Err ==> r.unwrap_err() == TaskError::LintFailed,
{
    if status_success {
        Ok(())
    } else {
        Err(TaskError::LintFailed)
    }
}

/// A zip archive of the desktop Mac build: a file whose name ends in
/// `.zip` and whose stem ends in `-mac`.
pub open spec fn spec_is_mac_zip(e: OutputEntry) -> bool {
    e.is_file && spec_ends_with(e.file_name@, ".zip"@) && spec_ends_with(
        spec_file_stem(e.file_name@),
        "-mac"@,
    )
}

/// The path of the first Mac build archive among the entries, for the
/// notarization task; none found is the task's failure.
pub fn find_mac_zip(entries: &Vec<OutputEntry>) -> (r: Result<String, TaskError>)
    ensures
        match r {
            Ok(p) => exists|i: int|
                0 <= i < entries@.len() && spec_is_mac_zip(#[trigger] entries@[i]) && p@
                    == entries@[i].path@ && forall|k: int|
                    0 <= k < i ==> !spec_is_mac_zip(#[trigger] entries@[k]),
            Err(e) => e == TaskError::MissingMacZip && forall|k: int|
                0 <= k < entries@.len() ==> !spec_is_mac_zip(#[trigger] entries@[k]),
        },
{
    let n = entries.len();
    let mut i: usize = 0;
    loop
        invariant
            n == entries@.len(),
            i <= n,
            forall|k: int| 0 <= k < i ==> !spec_is_mac_zip(#[trigger] entries@[k]),
        ensures
            i <= n,
            forall|k: int| 0 <= k < i ==> !spec_is_mac_zip(#[trigger] entries@[k]),
            i < n ==> spec_is_mac_zip(entries@[i as int]),
        decreases n - i,
    {
        if i == n {
            break ;
        }
        let e = &entries[i];
        if e.is_file && str_ends_with(e.file_name.as_str(), ".zip") {
            let stem = crate::text::file_stem(e.file_name.as_str());
            if str_ends_with(stem.as_str(), "-mac") {
                break ;
            }
        }
        i = i + 1;
    }
    if i < n {
        Ok(entries[i].path.clone())
    } else {
        Err(TaskError::MissingMacZip)
    }
}

} // verus!
