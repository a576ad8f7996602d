use crate::text::{join_path, str_eq_str};
use crate::version::{spec_parse_version, spec_version_string, version_lt, version_le, Version};
use vstd::prelude::*;

verus! {

/// Why a registry or launch request was refused.
#[derive(Clone, Copy, PartialEq, Eq, Structural, Debug)]
pub enum RenutilError {
    /// Neither an explicit registry nor a home directory was given.
    NoHomeDirectory,
    /// The host operating system or processor is not supported by the
    /// engine at this version.
    UnsupportedPlatform,
    /// Launcher mode was asked for without naming a version.
    LauncherModeNeedsVersion,
    /// No version was named and none could be found near the project.
    NoVersionFound,
    /// The version is not installed in the registry.
    NotInstalled,
    /// The version is already installed in the registry.
    AlreadyInstalled,
}

pub trait InstanceState {

}

/// Marks an instance known to be present in the registry.
#[derive(Debug)]
pub struct Local;

/// Marks an instance not present in the registry.
#[derive(Debug)]
pub struct Remote;

impl InstanceState for Local {

}

impl InstanceState for Remote {

}

/// One engine installation, present or absent, named by its version.
#[derive(Debug)]
pub struct Instance<S: InstanceState> {
    pub version: Version,
    pub marker: core::marker::PhantomData<S>,
}

impl<S: InstanceState> Instance<S> {
    pub fn new(version: Version) -> (r: Self)
        ensures
            r.version == version,
    {
        Instance { version, marker: core::marker::PhantomData }
    }

    /// Where this instance lives under the given registry directory.
    pub fn path(&self, registry: &str) -> (r: String)
        ensures
            r@ == registry@ + seq!['/'] + spec_version_string(self.version),
    {
        let v = self.version.version_string();
        join_path(registry, v.as_str())
    }
}

pub open spec fn plain_version(major: u32, minor: u32, patch: u32) -> Version {
    Version { major, minor, patch, hotfix: 0, nightly: false }
}

/// The platform directory name the engine uses for its bundled
/// interpreter, by host system, processor and engine version; `None` for
/// a pairing no release supports.
pub open spec fn spec_architecture(v: Version, host_os: Seq<char>, arch: Seq<char>) -> Option<
    Seq<char>,
> {
    if host_os == "windows"@ {
        if arch == "x86_64"@ {
            if version_lt(v, plain_version(7, 4, 0)) {
                Some("windows-x86_64"@)
            } else if version_lt(v, plain_version(8, 0, 0)) {
                Some("py2-windows-x86_64"@)
            } else {
                Some("py3-windows-x86_64"@)
            }
        } else if arch == "x86"@ {
            if version_lt(v, plain_version(7, 4, 0)) {
                Some("windows-i686"@)
            } else if version_lt(v, plain_version(8, 0, 0)) {
                Some("py2-windows-i686"@)
            } else {
                Some("py3-windows-i686"@)
            }
        } else {
            None
        }
    } else if host_os == "linux"@ {
        if arch == "x86_64"@ {
            if version_lt(v, plain_version(7, 4, 0)) {
                Some("linux-x86_64"@)
            } else if version_lt(v, plain_version(8, 0, 0)) {
                Some("py2-linux-x86_64"@)
            } else {
                Some("py3-linux-x86_64"@)
            }
        } else if arch == "x86"@ {
            if version_lt(v, plain_version(7, 4, 0)) {
                Some("linux-i686"@)
            } else if version_lt(v, plain_version(8, 0, 0)) {
                Some("py2-linux-i686"@)
            } else {
                Some("py3-linux-i686"@)
            }
        } else if arch == "arm"@ {
            if version_lt(v, plain_version(7, 5, 0)) {
                None
            } else if version_lt(v, plain_version(8, 0, 0)) {
                Some("py2-linux-armv7l"@)
            } else {
                Some("py3-linux-armv7l"@)
            }
        } else if arch == "aarch64"@ {
            if version_lt(v, plain_version(7, 5, 0)) {
                None
            } else if version_lt(v, plain_version(8, 0, 0)) {
                Some("py2-linux-aarch64"@)
            } else {
                Some("py3-linux-aarch64"@)
            }
        } else {
            None
        }
    } else if host_os == "macos"@ {
        if version_lt(v, plain_version(7, 4, 0)) {
            Some("darwin-x86_64"@)
        } else if version_le(v, Version { major: 7, minor: 4, patch: 11, hotfix: 0, nightly: false }) {
            Some("mac-x86_64"@)
        } else if version_lt(v, plain_version(8, 0, 0)) {
            Some("py2-mac-x86_64"@)
        } else if version_le(v, Version { major: 8, minor: 0, patch: 3, hotfix: 0, nightly: false }) {
            Some("py3-mac-x86_64"@)
        } else {
            Some("py3-mac-universal"@)
        }
    } else {
        None
    }
}

impl Instance<Local> {
    /// The platform directory name for this instance on the given host
    /// system and processor, per `spec_architecture`.
    pub fn architecture(&self, host_os: &str, arch: &str) -> (r: Result<String, RenutilError>)
        ensures
            r is Ok <==> spec_architecture(self.version, host_os@, arch@) is Some,
            r is Ok ==> r.unwrap()@ == spec_architecture(self.version, host_os@, arch@).unwrap(),
            r is Err ==> r.unwrap_err() == RenutilError::UnsupportedPlatform,
    {
        let v740 = Version { major: 7, minor: 4, patch: 0, hotfix: 0, nightly: false };
        let v7411 = Version { major: 7, minor: 4, patch: 11, hotfix: 0, nightly: false };
        let v750 = Version { major: 7, minor: 5, patch: 0, hotfix: 0, nightly: false };
        let v800 = Version { major: 8, minor: 0, patch: 0, hotfix: 0, nightly: false };
        let v803 = Version { major: 8, minor: 0, patch: 3, hotfix: 0, nightly: false };
        if str_eq_str(host_os, "windows") {
            if str_eq_str(arch, "x86_64") {
                if self.version.is_before(&v740) {
                    Ok(String::from_str("windows-x86_64"))
                } else if self.version.is_before(&v800) {
                    Ok(String::from_str("py2-windows-x86_64"))
                } else {
                    Ok(String::from_str("py3-windows-x86_64"))
                }
            } else if str_eq_str(arch, "x86") {
                if self.version.is_before(&v740) {
                    Ok(String::from_str("windows-i686"))
                } else if self.version.is_before(&v800) {
                    Ok(String::from_str("py2-windows-i686"))
                } else {
                    Ok(String::from_str("py3-windows-i686"))
                }
            } else {
                Err(RenutilError::UnsupportedPlatform)
            }
        } else if str_eq_str(host_os, "linux") {
            if str_eq_str(arch, "x86_64") {
                if self.version.is_before(&v740) {
                    Ok(String::from_str("linux-x86_64"))
                } else if self.version.is_before(&v800) {
                    Ok(String::from_str("py2-linux-x86_64"))
                } else {
                    Ok(String::from_str("py3-linux-x86_64"))
                }
            } else if str_eq_str(arch, "x86") {
                if self.version.is_before(&v740) {
                    Ok(String::from_str("linux-i686"))
                } else if self.version.is_before(&v800) {
                    Ok(String::from_str("py2-linux-i686"))
                } else {
                    Ok(String::from_str("py3-linux-i686"))
                }
            } else if str_eq_str(arch, "arm") {
                if self.version.is_before(&v750) {
                    Err(RenutilError::UnsupportedPlatform)
                } else if self.version.is_before(&v800) {
                    Ok(String::from_str("py2-linux-armv7l"))
                } else {
                    Ok(String::from_str("py3-linux-armv7l"))
                }
            } else if str_eq_str(arch, "aarch64") {
                if self.version.is_before(&v750) {
                    Err(RenutilError::UnsupportedPlatform)
                } else if self.version.is_before(&v800) {
                    Ok(String::from_str("py2-linux-aarch64"))
                } else {
                    Ok(String::from_str("py3-linux-aarch64"))
                }
            } else {
                Err(RenutilError::UnsupportedPlatform)
            }
        } else if str_eq_str(host_os, "macos") {
            if self.version.is_before(&v740) {
                Ok(String::from_str("darwin-x86_64"))
            } else if !v7411.is_before(&self.version) {
                Ok(String::from_str("mac-x86_64"))
            } else if self.version.is_before(&v800) {
                Ok(String::from_str("py2-mac-x86_64"))
            } else if !v803.is_before(&self.version) {
                Ok(String::from_str("py3-mac-x86_64"))
            } else {
                Ok(String::from_str("py3-mac-universal"))
            }
        } else {
            Err(RenutilError::UnsupportedPlatform)
        }
    }

    /// Where the bundled interpreter lives for this instance.
    pub fn python(&self, registry: &str, host_os: &str, arch: &str) -> (r: Result<
        String,
        RenutilError,
    >)
        ensures
            r is Ok <==> spec_architecture(self.version, host_os@, arch@) is Some,
            r is Ok ==> r.unwrap()@ == registry@ + seq!['/'] + spec_version_string(self.version)
                + "/lib/"@ + spec_architecture(self.version, host_os@, arch@).unwrap() + seq!['/']
                + (if host_os@ == "windows"@ {
                "python.exe"@
            } else {
                "python"@
            }),
            r is Err ==> r.unwrap_err() == RenutilError::UnsupportedPlatform,
    {
        let arch_dir = match self.architecture(host_os, arch) {
            Ok(a) => a,
            Err(e) => {
                return Err(e);
            },
        };
        let mut out = self.path(registry);
        out.append("/lib/");
        out.append(arch_dir.as_str());
        out.append("/");
        if str_eq_str(host_os, "windows") {
            out.append("python.exe");
        } else {
            out.append("python");
        }
        proof {
            reveal_strlit("/");
            assert(out@ =~= registry@ + seq!['/'] + spec_version_string(self.version) + "/lib/"@
                + spec_architecture(self.version, host_os@, arch@).unwrap() + seq!['/'] + (
            if host_os@ == "windows"@ {
                "python.exe"@
            } else {
                "python"@
            }));
        }
        Ok(out)
    }

    /// The script the engine is started through.
    pub fn entrypoint(&self, registry: &str) -> (r: String)
        ensures
            r@ == registry@ + seq!['/'] + spec_version_string(self.version) + "/renpy.py"@,
    {
        let mut out = self.path(registry);
        out.append("/renpy.py");
        proof {
            assert(out@ =~= registry@ + seq!['/'] + spec_version_string(self.version)
                + "/renpy.py"@);
        }
        out
    }
}

/// The registry directory to use: the one given explicitly, else
/// `.renutil` under the home directory.
pub fn get_registry(registry: Option<String>, home: Option<String>) -> (r: Result<
    String,
    RenutilError,
>)
    ensures
        match r {
            Ok(p) => {
                &&& registry is Some ==> p == registry.unwrap()
                &&& registry is None ==> home is Some && p@ == home.unwrap()@ + "/.renutil"@
            },
            Err(e) => registry is None && home is None && e == RenutilError::NoHomeDirectory,
        },
{
    match registry {
        Some(p) => Ok(p),
        None => match home {
            Some(h) => {
                let mut out = h;
                out.append("/.renutil");
                Ok(out)
            },
            None => Err(RenutilError::NoHomeDirectory),
        },
    }
}

/// The version a launch will use: the explicitly named one first, else
/// the one recorded next to the project; launcher mode insists on an
/// explicit version.
pub fn resolve_launch_version(
    explicit: Option<Version>,
    direct: bool,
    project_version: Option<Version>,
) -> (r: Result<Version, RenutilError>)
    ensures
        match r {
            Ok(v) => {
                &&& explicit is Some ==> v == explicit.unwrap()
                &&& explicit is None ==> direct && project_version == Some(v)
            },
            Err(e) => {
                &&& explicit is None
                &&& e == if !direct {
                    RenutilError::LauncherModeNeedsVersion
                } else {
                    RenutilError::NoVersionFound
                }
                &&& direct ==> project_version is None
            },
        },
{
    if !direct && matches!(explicit, None) {
        return Err(RenutilError::LauncherModeNeedsVersion);
    }
    match explicit {
        Some(v) => Ok(v),
        None => match project_version {
            Some(v) => Ok(v),
            None => Err(RenutilError::NoVersionFound),
        },
    }
}

/// Whether launching may install a missing version on its own: an
/// environment override of `true` or `1` (already lowercased) keeps the
/// caller's wish, any other override withdraws it.
pub fn auto_install_allowed(override_value: Option<&str>, auto_install: bool) -> (r: bool)
    ensures
        r == match override_value {
            Some(v) => if v@ == "true"@ || v@ == "1"@ {
                auto_install
            } else {
                false
            },
            None => auto_install,
        },
{
    match override_value {
        Some(v) => {
            if str_eq_str(v, "true") || str_eq_str(v, "1") {
                auto_install
            } else {
                false
            }
        },
        None => auto_install,
    }
}

/// The versions named by a list of entries, in their order; a name
/// that is no version string is passed over.
pub open spec fn spec_versions_from_names(names: Seq<String>) -> Seq<Version>
    decreases names.len(),
{
    if names.len() == 0 {
        Seq::<Version>::empty()
    } else {
        spec_versions_from_names(names.drop_last()) + (match spec_parse_version(names.last()@) {
            Some(v) => seq![v],
            None => Seq::<Version>::empty(),
        })
    }
}

/// Collects the versions named by directory entries or link texts.
pub fn versions_from_names(names: &Vec<String>) -> (r: Vec<Version>)
    ensures
        r@ == spec_versions_from_names(names@),
{
    let n = names.len();
    let mut out: Vec<Version> = Vec::new();
    let mut i: usize = 0;
    proof {
        assert(names@.take(0) =~= Seq::<String>::empty());
    }
    while i < n
        invariant
            n == names@.len(),
            i <= n,
            out@ == spec_versions_from_names(names@.take(i as int)),
        decreases n - i,
    {
        match Version::from_str(names[i].as_str()) {
            Ok(v) => {
                out.push(v);
            },
            Err(_) => {},
        }
        proof {
            assert(names@.take(i + 1 as int).drop_last() =~= names@.take(i as int));
            assert(names@.take(i + 1 as int).last() == names@[i as int]);
        }
        i = i + 1;
    }
    proof {
        assert(names@.take(n as int) =~= names@);
    }
    out
}

/// Inserts a version into a list sorted newest first, after every
/// version at least as new: a stable insertion.
pub open spec fn spec_insert_version_desc(sorted: Seq<Version>, x: Version) -> Seq<Version>
    decreases sorted.len(),
{
    if sorted.len() == 0 {
        seq![x]
    } else if version_lt(sorted[0], x) {
        seq![x] + sorted
    } else {
        seq![sorted[0]] + spec_insert_version_desc(sorted.skip(1), x)
    }
}

/// Versions sorted newest first, ties keeping their order.
pub open spec fn spec_sort_versions_desc(vs: Seq<Version>) -> Seq<Version>
    decreases vs.len(),
{
    if vs.len() == 0 {
        Seq::<Version>::empty()
    } else {
        spec_insert_version_desc(spec_sort_versions_desc(vs.drop_last()), vs.last())
    }
}

/// The versions offered for listing: an online listing hides nightly
/// builds unless they were asked for; a local listing shows everything.
pub open spec fn spec_listed_versions(vs: Seq<Version>, online: bool, nightly: bool) -> Seq<
    Version,
>
    decreases vs.len(),
{
    if vs.len() == 0 {
        Seq::<Version>::empty()
    } else {
        spec_listed_versions(vs.drop_last(), online, nightly) + (if !online || !vs.last().nightly
            || nightly {
            seq![vs.last()]
        } else {
            Seq::<Version>::empty()
        })
    }
}

proof fn lemma_insert_version_at(sorted: Seq<Version>, x: Version, j: int)
    requires
        0 <= j <= sorted.len(),
        forall|k: int| 0 <= k < j ==> !version_lt(#[trigger] sorted[k], x),
        j < sorted.len() ==> version_lt(sorted[j], x),
    ensures
        spec_insert_version_desc(sorted, x) == sorted.take(j) + seq![x] + sorted.skip(j),
    decreases j,
{
    if sorted.len() == 0 {
        assert(spec_insert_version_desc(sorted, x) =~= sorted.take(j) + seq![x] + sorted.skip(j));
    } else if j == 0 {
        assert(spec_insert_version_desc(sorted, x) =~= sorted.take(0) + seq![x] + sorted.skip(0));
    } else {
        lemma_insert_version_at(sorted.skip(1), x, j - 1);
        assert(sorted.skip(1).take(j - 1) =~= sorted.take(j).skip(1));
        assert(sorted.skip(1).skip(j - 1) =~= sorted.skip(j));
        assert(spec_insert_version_desc(sorted, x) =~= sorted.take(j) + seq![x] + sorted.skip(j));
    }
}

/// The newest `num` versions of a listing, newest first: nightly builds
/// are hidden from an online listing unless asked for, and equally new
/// entries keep their incoming order.
pub fn latest_versions(versions: &Vec<Version>, num: usize, nightly: bool, online: bool) -> (r:
    Vec<Version>)
    ensures
        ({
            let sorted = spec_sort_versions_desc(
                spec_listed_versions(versions@, online, nightly),
            );
            r@ == if num <= sorted.len() {
                sorted.take(num as int)
            } else {
                sorted
            }
        }),
{
    let n = versions.len();
    let mut kept: Vec<Version> = Vec::new();
    let mut i: usize = 0;
    proof {
        assert(versions@.take(0) =~= Seq::<Version>::empty());
    }
    while i < n
        invariant
            n == versions@.len(),
            i <= n,
            kept@ == spec_listed_versions(versions@.take(i as int), online, nightly),
        decreases n - i,
    {
        let v = versions[i];
        if !online || !v.nightly || nightly {
            kept.push(v);
        }
        proof {
            assert(versions@.take(i + 1 as int).drop_last() =~= versions@.take(i as int));
            assert(versions@.take(i + 1 as int).last() == versions@[i as int]);
        }
        i = i + 1;
    }
    proof {
        assert(versions@.take(n as int) =~= versions@);
    }

    let kn = kept.len();
    let mut sorted: Vec<Version> = Vec::new();
    let mut i: usize = 0;
    proof {
        assert(kept@.take(0) =~= Seq::<Version>::empty());
    }
    while i < kn
        invariant
            kn == kept@.len(),
            i <= kn,
            sorted@ == spec_sort_versions_desc(kept@.take(i as int)),
        decreases kn - i,
    {
        let x = kept[i];
        let m = sorted.len();
        let mut j: usize = 0;
        while j < m
            invariant
                m == sorted@.len(),
                j <= m,
                forall|k: int| 0 <= k < j ==> !version_lt(#[trigger] sorted@[k], x),
            ensures
                j <= m,
                forall|k: int| 0 <= k < j ==> !version_lt(#[trigger] sorted@[k], x),
                j < m ==> version_lt(sorted@[j as int], x),
            decreases m - j,
        {
            if sorted[j].is_before(&x) {
                break ;
            }
            j = j + 1;
        }
        proof {
            lemma_insert_version_at(sorted@, x, j as int);
        }
        sorted.insert(j, x);
        proof {
            assert(kept@.take(i + 1 as int).drop_last() =~= kept@.take(i as int));
            assert(kept@.take(i + 1 as int).last() == kept@[i as int]);
        }
        i = i + 1;
    }
    proof {
        assert(kept@.take(kn as int) =~= kept@);
    }

    let sn = sorted.len();
    let keep = if num <= sn {
        num
    } else {
        sn
    };
    let mut out: Vec<Version> = Vec::new();
    let mut i: usize = 0;
    while i < keep
        invariant
            keep <= sn,
            sn == sorted@.len(),
            i <= keep,
            out@ == sorted@.take(i as int),
        decreases keep - i,
    {
        out.push(sorted[i]);
        proof {
            assert(out@ =~= sorted@.take(i + 1 as int));
        }
        i = i + 1;
    }
    proof {
        if num > sn {
            assert(sorted@.take(sn as int) =~= sorted@);
        }
    }
    out
}

/// Which Java development kit a version's Android tooling needs.
pub fn required_jdk_version(version: &Version) -> (r: u32)
    ensures
        r == if version_le(Version { major: 8, minor: 2, patch: 0, hotfix: 0, nightly: false },
            *version,
        ) {
            21u32
        } else {
            8u32
        },
{
    let v820 = Version { major: 8, minor: 2, patch: 0, hotfix: 0, nightly: false };
    if version.is_at_least(&v820) {
        21
    } else {
        8
    }
}

/// The interpreter arguments of one engine start: isolation flags, the
/// entry script, the launcher project in launcher mode, then the
/// caller's arguments.
pub fn launch_arguments(
    entrypoint: &str,
    direct: bool,
    launcher_path: &str,
    args: &Vec<String>,
) -> (r: Vec<String>)
    ensures
        ({
            let head: Seq<Seq<char>> = if direct {
                seq!["-EO"@, entrypoint@]
            } else {
                seq!["-EO"@, entrypoint@, launcher_path@]
            };
            r.deep_view() == head + args.deep_view()
        }),
{
    let mut out: Vec<String> = Vec::new();
    out.push(String::from_str("-EO"));
    out.push(entrypoint.to_owned());
    if !direct {
        out.push(launcher_path.to_owned());
    }
    let ghost head = out.deep_view();
    proof {
        if direct {
            assert(head =~= seq!["-EO"@, entrypoint@]);
        } else {
            assert(head =~= seq!["-EO"@, entrypoint@, launcher_path@]);
        }
    }
    let ghost base_len = out@.len() as int;
    let ghost base = out@;
    let n = args.len();
    let mut i: usize = 0;
    while i < n
        invariant
            n == args@.len(),
            i <= n,
            out@.len() == base_len + i,
            head.len() == base_len,
            forall|k: int| 0 <= k < base_len ==> (#[trigger] out@[k])@ == head[k],
            forall|k: int| 0 <= k < i ==> (#[trigger] out@[base_len + k])@ == args.deep_view()[k],
        decreases n - i,
    {
        let x = args[i].clone();
        proof {
            assert(x@ == args.deep_view()[i as int]);
        }
        out.push(x);
        i = i + 1;
    }
    proof {
        let ov = out.deep_view();
        let target = head + args.deep_view();
        assert forall|k: int| 0 <= k < ov.len() implies #[trigger] ov[k] == target[k] by {
            assert(ov[k] == out@[k]@);
            if k >= base_len {
                assert(out@[base_len + (k - base_len)]@ == args.deep_view()[k - base_len]);
            }
        }
        assert(out.deep_view() =~= head + args.deep_view());
    }
    out
}

/// The directories under one instance that hold only reproducible
/// temporary build state.
pub fn cleanup_paths(instance_path: &str) -> (r: Vec<String>)
    ensures
        r@.len() == 5,
        r@[0]@ == instance_path@ + "/tmp"@,
        r@[1]@ == instance_path@ + "/rapt/assets"@,
        r@[2]@ == instance_path@ + "/rapt/bin"@,
        r@[3]@ == instance_path@ + "/rapt/project/app/build"@,
        r@[4]@ == instance_path@ + "/rapt/project/app/src/main/assets"@,
{
    let mut out: Vec<String> = Vec::new();
    let mut p = instance_path.to_owned();
    p.append("/tmp");
    out.push(p);
    let mut p = instance_path.to_owned();
    p.append("/rapt/assets");
    out.push(p);
    let mut p = instance_path.to_owned();
    p.append("/rapt/bin");
    out.push(p);
    let mut p = instance_path.to_owned();
    p.append("/rapt/project/app/build");
    out.push(p);
    let mut p = instance_path.to_owned();
    p.append("/rapt/project/app/src/main/assets");
    out.push(p);
    out
}

} // verus!
