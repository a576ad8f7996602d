use crate::renconstruct::resolver::OutputEntry;
use crate::text::{spec_ends_with, str_ends_with};
use vstd::prelude::*;

verus! {

/// Why a notarization step could not be planned.
#[derive(Clone, Copy, PartialEq, Eq, Structural, Debug)]
pub enum NotarizeError {
    /// The input file name does not end in `.app`, so no volume name
    /// can be derived from it.
    NotAppBundle,
}

/// What the notarization wait loop does next, by the service's current
/// answer and the time already spent.
#[derive(Clone, Copy, PartialEq, Eq, Structural, Debug)]
pub enum PollAction {
    /// Sleep one interval and ask again.
    Wait,
    /// The service has finished processing the upload.
    Finished,
    /// The bounded wait is exhausted.
    TimedOut,
}

/// Decides one round of the notarization wait loop.
pub fn poll_decision(in_progress: bool, elapsed_secs: u64, wait_limit_secs: u64) -> (r: PollAction)
    ensures
        r == if !in_progress {
            PollAction::Finished
        } else if elapsed_secs >= wait_limit_secs {
            PollAction::TimedOut
        } else {
            PollAction::Wait
        },
{
    if !in_progress {
        PollAction::Finished
    } else if elapsed_secs >= wait_limit_secs {
        PollAction::TimedOut
    } else {
        PollAction::Wait
    }
}

/// One step of a full notarization run.
#[derive(Clone, Copy, PartialEq, Eq, Structural, Debug)]
pub enum NotarizeStep {
    UnpackApp,
    SignApp,
    NotarizeApp,
    PackZip,
    NotarizeZip,
    PackDmg,
    SignDmg,
    NotarizeDmg,
}

/// The steps of a full run: unpack a zipped app first, sign and
/// notarize the bundle, then the optional zip and disk-image stages;
/// disk images can only be made on the Mac host.
pub open spec fn spec_full_run_plan(
    is_zip: bool,
    create_zip: bool,
    create_dmg: bool,
    on_macos: bool,
) -> Seq<NotarizeStep> {
    (if is_zip {
        seq![NotarizeStep::UnpackApp]
    } else {
        Seq::<NotarizeStep>::empty()
    }) + seq![NotarizeStep::SignApp, NotarizeStep::NotarizeApp] + (if create_zip {
        seq![NotarizeStep::PackZip, NotarizeStep::NotarizeZip]
    } else {
        Seq::<NotarizeStep>::empty()
    }) + (if on_macos && create_dmg {
        seq![NotarizeStep::PackDmg, NotarizeStep::SignDmg, NotarizeStep::NotarizeDmg]
    } else {
        Seq::<NotarizeStep>::empty()
    })
}

pub fn full_run_plan(is_zip: bool, create_zip: bool, create_dmg: bool, on_macos: bool) -> (r: Vec<
    NotarizeStep,
>)
    ensures
        r@ == spec_full_run_plan(is_zip, create_zip, create_dmg, on_macos),
{
    let mut out: Vec<NotarizeStep> = Vec::new();
    if is_zip {
        out.push(NotarizeStep::UnpackApp);
    }
    out.push(NotarizeStep::SignApp);
    out.push(NotarizeStep::NotarizeApp);
    if create_zip {
        out.push(NotarizeStep::PackZip);
        out.push(NotarizeStep::NotarizeZip);
    }
    if on_macos && create_dmg {
        out.push(NotarizeStep::PackDmg);
        out.push(NotarizeStep::SignDmg);
        out.push(NotarizeStep::NotarizeDmg);
    }
    proof {
        assert(out@ =~= spec_full_run_plan(is_zip, create_zip, create_dmg, on_macos));
    }
    out
}

/// The volume name of a disk image: the given one, else the app
/// bundle's file name without its `.app` suffix.
pub fn dmg_volume_name(input_file_name: &str, volume_name: Option<String>) -> (r: Result<
    String,
    NotarizeError,
>)
    ensures
        volume_name is Some ==> r == Ok::<String, NotarizeError>(volume_name.unwrap()),
        volume_name is None ==> {
            &&& r is Ok <==> spec_ends_with(input_file_name@, ".app"@)
            &&& r is Ok ==> r.unwrap()@ == input_file_name@.take(input_file_name@.len() - 4)
            &&& r is Err ==> r.unwrap_err() == NotarizeError::NotAppBundle
        },
{
    match volume_name {
        Some(name) => Ok(name),
        None => {
            if str_ends_with(input_file_name, ".app") {
                proof {
                    reveal_strlit(".app");
                }
                let n = input_file_name.unicode_len();
                let stem = input_file_name.substring_char(0, n - 4).to_owned();
                proof {
                    assert(input_file_name@.subrange(0, input_file_name@.len() - 4)
                        =~= input_file_name@.take(input_file_name@.len() - 4));
                }
                Ok(stem)
            } else {
                Err(NotarizeError::NotAppBundle)
            }
        },
    }
}

/// The paths of the app bundles among the entries: the files or
/// directories whose name ends in `.app`, in the given order.
pub open spec fn spec_app_bundles(entries: Seq<OutputEntry>) -> Seq<Seq<char>>
    decreases entries.len(),
{
    if entries.len() == 0 {
        Seq::<Seq<char>>::empty()
    } else {
        spec_app_bundles(entries.drop_last()) + (if spec_ends_with(
            entries.last().file_name@,
            ".app"@,
        ) {
            seq![entries.last().path@]
        } else {
            Seq::<Seq<char>>::empty()
        })
    }
}

pub fn app_bundles(entries: &Vec<OutputEntry>) -> (r: Vec<String>)
    ensures
        r.deep_view() == spec_app_bundles(entries@),
{
    let n = entries.len();
    let mut out: Vec<String> = Vec::new();
    let mut i: usize = 0;
    proof {
        assert(entries@.take(0) =~= Seq::<OutputEntry>::empty());
    }
    while i < n
        invariant
            n == entries@.len(),
            i <= n,
            out.deep_view() == spec_app_bundles(entries@.take(i as int)),
        decreases n - i,
    {
        if str_ends_with(entries[i].file_name.as_str(), ".app") {
            let p = entries[i].path.clone();
            proof {
                assert(p@ == entries@[i as int].path@);
            }
            out.push(p);
        }
        proof {
            assert(entries@.take(i + 1 as int).drop_last() =~= entries@.take(i as int));
            assert(entries@.take(i + 1 as int).last() == entries@[i as int]);
            if spec_ends_with(entries@[i as int].file_name@, ".app"@) {
                assert(out.deep_view() =~= spec_app_bundles(entries@.take(i as int)) + seq![
                    entries@[i as int].path@,
                ]);
            }
        }
        i = i + 1;
    }
    proof {
        assert(entries@.take(n as int) =~= entries@);
    }
    out
}

} // verus!
