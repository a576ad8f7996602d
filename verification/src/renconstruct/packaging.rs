use crate::renconstruct::config::{BuildOption, KnownBuildOption};
use crate::renconstruct::config::spec_build_enabled;
use crate::renconstruct::resolver::{canonical_name, spec_canonical_name};
use crate::version::{version_le, Version};
use vstd::prelude::*;

verus! {

/// What one packaging invocation looks like to the driver.
pub struct InvocationView {
    pub args: Seq<Seq<char>>,
    pub scratch_dir: Option<Seq<char>>,
}

/// One invocation of the external packaging tool.
#[derive(Debug)]
pub struct PackagingInvocation {
    /// Arguments handed to the engine launcher.
    pub args: Vec<String>,
    /// A directory the invocation is contained in: the driver creates
    /// it first, and afterwards moves its contents up into the output
    /// directory and removes it. The web build clears its destination,
    /// so it must not write into the shared output directory directly.
    pub scratch_dir: Option<String>,
}

impl View for PackagingInvocation {
    type V = InvocationView;

    open spec fn view(&self) -> InvocationView {
        InvocationView {
            args: self.args.deep_view(),
            scratch_dir: match self.scratch_dir {
                Some(s) => Some(s@),
                None => None,
            },
        }
    }
}

pub open spec fn spec_apk_args(v: Version, input: Seq<char>, output: Seq<char>) -> Seq<Seq<char>> {
    if version_le(Version { major: 7, minor: 5, patch: 0, hotfix: 0, nightly: false }, v) {
        seq!["android_build"@, input, "--dest"@, output]
    } else {
        seq!["android_build"@, input, "assembleRelease"@, "--dest"@, output]
    }
}

pub open spec fn spec_aab_args(input: Seq<char>, output: Seq<char>) -> Seq<Seq<char>> {
    seq!["android_build"@, input, "--bundle"@, "--dest"@, output]
}

pub open spec fn spec_web_args(input: Seq<char>, output: Seq<char>) -> Seq<Seq<char>> {
    seq!["web_build"@, input, "--dest"@, output + "/web"@]
}

/// A target with a dedicated invocation of its own.
pub open spec fn spec_dedicated_target(b: BuildOption) -> bool {
    b == BuildOption::Known(KnownBuildOption::AndroidApk) || b == BuildOption::Known(
        KnownBuildOption::AndroidAab,
    ) || b == BuildOption::Known(KnownBuildOption::Web)
}

/// The `--package` arguments of the combined invocation: one pair for
/// each enabled target that has no dedicated invocation.
pub open spec fn spec_distribute_packages(builds: Seq<(BuildOption, bool)>) -> Seq<Seq<char>>
    decreases builds.len(),
{
    if builds.len() == 0 {
        Seq::<Seq<char>>::empty()
    } else {
        spec_distribute_packages(builds.drop_last()) + (if builds.last().1
            && !spec_dedicated_target(builds.last().0) {
            seq!["--package"@, spec_canonical_name(builds.last().0)]
        } else {
            Seq::<Seq<char>>::empty()
        })
    }
}

/// The packaging step between the two phases: a dedicated invocation
/// each for the Android package, the Android bundle and the web build
/// (in that order, each only when its target is enabled; the bundle
/// only on engines that support it), then one combined invocation for
/// every remaining enabled target.
pub open spec fn spec_packaging_invocations(
    builds: Seq<(BuildOption, bool)>,
    v: Version,
    input: Seq<char>,
    output: Seq<char>,
) -> Seq<InvocationView> {
    (if spec_build_enabled(builds, BuildOption::Known(KnownBuildOption::AndroidApk)) {
        seq![InvocationView { args: spec_apk_args(v, input, output), scratch_dir: None }]
    } else {
        Seq::<InvocationView>::empty()
    }) + (if spec_build_enabled(builds, BuildOption::Known(KnownBuildOption::AndroidAab))
        && version_le(Version { major: 7, minor: 5, patch: 0, hotfix: 0, nightly: false }, v) {
        seq![InvocationView { args: spec_aab_args(input, output), scratch_dir: None }]
    } else {
        Seq::<InvocationView>::empty()
    }) + (if spec_build_enabled(builds, BuildOption::Known(KnownBuildOption::Web)) {
        seq![
            InvocationView {
                args: spec_web_args(input, output),
                scratch_dir: Some(output + "/web"@),
            },
        ]
    } else {
        Seq::<InvocationView>::empty()
    }) + (if spec_distribute_packages(builds).len() > 0 {
        seq![
            InvocationView {
                args: seq!["distribute"@, input, "--destination"@, output]
                    + spec_distribute_packages(builds),
                scratch_dir: None,
            },
        ]
    } else {
        Seq::<InvocationView>::empty()
    })
}

/// True when `b` names a target with a dedicated invocation.
fn dedicated_target(b: &BuildOption) -> (r: bool)
    ensures
        r == spec_dedicated_target(*b),
{
    match b {
        BuildOption::Known(KnownBuildOption::AndroidApk) => true,
        BuildOption::Known(KnownBuildOption::AndroidAab) => true,
        BuildOption::Known(KnownBuildOption::Web) => true,
        _ => false,
    }
}

/// Plans the packaging step, per `spec_packaging_invocations`.
pub fn packaging_invocations(
    builds: &Vec<(BuildOption, bool)>,
    version: &Version,
    input_dir: &str,
    output_dir: &str,
) -> (r: Vec<PackagingInvocation>)
    ensures
        r@.map_values(|x: PackagingInvocation| x@) == spec_packaging_invocations(
            builds@,
            *version,
            input_dir@,
            output_dir@,
        ),
{
    let v750 = Version { major: 7, minor: 5, patch: 0, hotfix: 0, nightly: false };
    let mut out: Vec<PackagingInvocation> = Vec::new();

    if crate::renconstruct::config::build_enabled(builds, KnownBuildOption::AndroidApk) {
        let mut args: Vec<String> = Vec::new();
        args.push(String::from_str("android_build"));
        args.push(input_dir.to_owned());
        if !version.is_at_least(&v750) {
            args.push(String::from_str("assembleRelease"));
        }
        args.push(String::from_str("--dest"));
        args.push(output_dir.to_owned());
        proof {
            assert(args.deep_view() =~= spec_apk_args(*version, input_dir@, output_dir@));
        }
        out.push(PackagingInvocation { args, scratch_dir: None });
    }
    if crate::renconstruct::config::build_enabled(builds, KnownBuildOption::AndroidAab)
        && version.is_at_least(&v750) {
        let mut args: Vec<String> = Vec::new();
        args.push(String::from_str("android_build"));
        args.push(input_dir.to_owned());
        args.push(String::from_str("--bundle"));
        args.push(String::from_str("--dest"));
        args.push(output_dir.to_owned());
        proof {
            assert(args.deep_view() =~= spec_aab_args(input_dir@, output_dir@));
        }
        out.push(PackagingInvocation { args, scratch_dir: None });
    }
    if crate::renconstruct::config::build_enabled(builds, KnownBuildOption::Web) {
        let mut web_dir = output_dir.to_owned();
        web_dir.append("/web");
        let mut args: Vec<String> = Vec::new();
        args.push(String::from_str("web_build"));
        args.push(input_dir.to_owned());
        args.push(String::from_str("--dest"));
        args.push(web_dir.clone());
        proof {
            assert(args.deep_view() =~= spec_web_args(input_dir@, output_dir@));
        }
        out.push(PackagingInvocation { args, scratch_dir: Some(web_dir) });
    }

    // The combined invocation for the remaining targets.
    let n = builds.len();
    let mut packages: Vec<String> = Vec::new();
    let mut i: usize = 0;
    proof {
        assert(builds@.take(0) =~= Seq::<(BuildOption, bool)>::empty());
    }
    while i < n
        invariant
            n == builds@.len(),
            i <= n,
            packages.deep_view() == spec_distribute_packages(builds@.take(i as int)),
        decreases n - i,
    {
        if builds[i].1 && !dedicated_target(&builds[i].0) {
            packages.push(String::from_str("--package"));
            let name = canonical_name(&builds[i].0);
            packages.push(name);
        }
        proof {
            assert(builds@.take(i + 1 as int).drop_last() =~= builds@.take(i as int));
            assert(builds@.take(i + 1 as int).last() == builds@[i as int]);
            if builds@[i as int].1 && !spec_dedicated_target(builds@[i as int].0) {
                assert(packages.deep_view() =~= spec_distribute_packages(builds@.take(i as int))
                    + seq!["--package"@, spec_canonical_name(builds@[i as int].0)]);
            }
        }
        i = i + 1;
    }
    proof {
        assert(builds@.take(n as int) =~= builds@);
    }
    if packages.len() > 0 {
        let mut args: Vec<String> = Vec::new();
        args.push(String::from_str("distribute"));
        args.push(input_dir.to_owned());
        args.push(String::from_str("--destination"));
        args.push(output_dir.to_owned());
        let ghost base = args.deep_view();
        let ghost pkg_deep = packages.deep_view();
        let ghost pkg_seq = packages@;
        proof {
            assert(base =~= seq!["distribute"@, input_dir@, "--destination"@, output_dir@]);
        }
        args.append(&mut packages);
        proof {
            let av = args.deep_view();
            assert forall|k: int| 0 <= k < av.len() implies #[trigger] av[k] == (base
                + pkg_deep)[k] by {
                assert(av[k] == args.deep_view()[k]);
                assert(args.deep_view()[k] == args@[k]@);
                if k >= 4 {
                    assert(args@[k] == pkg_seq[k - 4]);
                    assert(pkg_deep[k - 4] == pkg_seq[k - 4]@);
                }
            }
            assert(args.deep_view() =~= base + pkg_deep);
        }
        out.push(PackagingInvocation { args, scratch_dir: None });
    }
    proof {
        assert(out@.map_values(|x: PackagingInvocation| x@) =~~= spec_packaging_invocations(
            builds@,
            *version,
            input_dir@,
            output_dir@,
        ));
    }
    out
}

} // verus!
