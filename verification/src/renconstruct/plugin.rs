use crate::renconstruct::config::{ConfigError, CustomOptions, HookSet, Task, TaskOptions};
use crate::renconstruct::scheduler::{spec_applicable, spec_plan_wf, BatchView, Phase};
use crate::text::str_eq_str;
use vstd::prelude::*;

verus! {

/// One task implementation the scripting runtime discovered: its
/// display name, the slug that configuration refers to it by, and which
/// lifecycle hooks its constructed instance exposes.
#[derive(Clone, Debug)]
pub struct DiscoveredTask {
    pub name: String,
    pub name_slug: String,
    pub has_pre: bool,
    pub has_post: bool,
}

/// The first discovered record from `i` on whose slug is `name`.
pub open spec fn spec_slug_match(discovered: Seq<DiscoveredTask>, name: Seq<char>, i: int) -> Option<
    int,
>
    decreases discovered.len() - i,
{
    if i < 0 || i >= discovered.len() {
        None
    } else if discovered[i].name_slug@ == name {
        Some(i)
    } else {
        spec_slug_match(discovered, name, i + 1)
    }
}

/// How one task looks after binding: a custom task keeps everything but
/// its hooks, which record exactly the callables of its matched class's
/// instance; any other task is untouched.
pub open spec fn spec_task_bound(t: Task, discovered: Seq<DiscoveredTask>, t2: Task) -> bool {
    match t.kind.options {
        TaskOptions::Custom(c) => {
            let m = spec_slug_match(discovered, t.name@, 0);
            &&& m is Some
            &&& t2.name == t.name
            &&& t2.kind.enabled == t.kind.enabled
            &&& t2.kind.on_builds == t.kind.on_builds
            &&& t2.kind.sandboxed == t.kind.sandboxed
            &&& t2.kind.priorities == t.kind.priorities
            &&& t2.kind.options matches TaskOptions::Custom(c2) && c2.options == c.options
                && c2.hooks.spec_has_pre() == discovered[m.unwrap()].has_pre
                && c2.hooks.spec_has_post() == discovered[m.unwrap()].has_post
        },
        _ => t2 == t,
    }
}

pub open spec fn spec_all_bound(
    pre: Seq<Task>,
    discovered: Seq<DiscoveredTask>,
    post: Seq<Task>,
) -> bool {
    &&& post.len() == pre.len()
    &&& forall|i: int|
        0 <= i < pre.len() ==> spec_task_bound(#[trigger] pre[i], discovered, #[trigger] post[i])
}

proof fn lemma_slug_match_from(discovered: Seq<DiscoveredTask>, name: Seq<char>, i: int, j: int)
    requires
        0 <= i <= j < discovered.len(),
        forall|k: int| i <= k < j ==> (#[trigger] discovered[k]).name_slug@ != name,
        discovered[j].name_slug@ == name,
    ensures
        spec_slug_match(discovered, name, i) == Some(j),
    decreases j - i,
{
    if i < j {
        lemma_slug_match_from(discovered, name, i + 1, j);
    }
}

proof fn lemma_slug_match_none(discovered: Seq<DiscoveredTask>, name: Seq<char>, i: int)
    requires
        0 <= i <= discovered.len(),
        forall|k: int| i <= k < discovered.len() ==> (#[trigger] discovered[k]).name_slug@ != name,
    ensures
        spec_slug_match(discovered, name, i) is None,
    decreases discovered.len() - i,
{
    if i < discovered.len() {
        lemma_slug_match_none(discovered, name, i + 1);
    }
}

/// The first discovered record whose slug is `name`.
fn find_slug(discovered: &Vec<DiscoveredTask>, name: &str) -> (r: Option<usize>)
    ensures
        match r {
            Some(j) => j < discovered@.len() && spec_slug_match(discovered@, name@, 0) == Some(
                j as int,
            ),
            None => spec_slug_match(discovered@, name@, 0) is None,
        },
{
    let n = discovered.len();
    let mut j: usize = 0;
    loop
        invariant
            n == discovered@.len(),
            j <= n,
            forall|k: int| 0 <= k < j ==> (#[trigger] discovered@[k]).name_slug@ != name@,
        ensures
            j <= n,
            forall|k: int| 0 <= k < j ==> (#[trigger] discovered@[k]).name_slug@ != name@,
            j < n ==> discovered@[j as int].name_slug@ == name@,
        decreases n - j,
    {
        if j == n {
            break ;
        }
        if str_eq_str(discovered[j].name_slug.as_str(), name) {
            break ;
        }
        j = j + 1;
    }
    if j < n {
        proof {
            lemma_slug_match_from(discovered@, name@, 0, j as int);
        }
        Some(j)
    } else {
        proof {
            lemma_slug_match_none(discovered@, name@, 0);
        }
        None
    }
}

/// Binds every configured custom task to the discovered class whose
/// slug matches its name, recording which lifecycle hooks the
/// constructed instance exposes; a custom task that matches no class is
/// a configuration error, reported before anything is changed.
pub fn bind_custom_tasks(tasks: &mut Vec<Task>, discovered: &Vec<DiscoveredTask>) -> (r: Result<
    (),
    ConfigError,
>)
    ensures
        match r {
            Ok(_) => spec_all_bound(old(tasks)@, discovered@, final(tasks)@),
            Err(e) => {
                &&& final(tasks)@ == old(tasks)@
                &&& e matches ConfigError::UnmatchedCustomTask { task_name } && exists|i: int|
                    0 <= i < old(tasks)@.len() && (#[trigger] old(tasks)@[i]).kind.options is Custom
                        && spec_slug_match(discovered@, old(tasks)@[i].name@, 0) is None
                        && old(tasks)@[i].name == task_name && (forall|k: int|
                        0 <= k < i ==> !((#[trigger] old(tasks)@[k]).kind.options is Custom
                            && spec_slug_match(discovered@, old(tasks)@[k].name@, 0) is None))
            },
        },
{
    let n = tasks.len();
    // First pass: every custom task must have a match.
    let mut i: usize = 0;
    while i < n
        invariant
            n == tasks@.len(),
            i <= n,
            forall|k: int|
                0 <= k < i && (#[trigger] tasks@[k]).kind.options is Custom ==> spec_slug_match(
                    discovered@,
                    tasks@[k].name@,
                    0,
                ) is Some,
        decreases n - i,
    {
        if matches!(tasks[i].kind.options, TaskOptions::Custom(_)) {
            if find_slug(discovered, tasks[i].name.as_str()).is_none() {
                let name = tasks[i].name.clone();
                return Err(ConfigError::UnmatchedCustomTask { task_name: name });
            }
        }
        i = i + 1;
    }
    // Second pass: record the hooks.
    let ghost orig = tasks@;
    let mut i: usize = 0;
    while i < n
        invariant
            n == tasks@.len(),
            n == orig.len(),
            i <= n,
            forall|k: int|
                0 <= k < n && (#[trigger] orig[k]).kind.options is Custom ==> spec_slug_match(
                    discovered@,
                    orig[k].name@,
                    0,
                ) is Some,
            forall|k: int| i <= k < n ==> #[trigger] tasks@[k] == orig[k],
            forall|k: int| 0 <= k < i ==> spec_task_bound(#[trigger] orig[k], discovered@, #[trigger] tasks@[k]),
        decreases n - i,
    {
        let is_custom = matches!(tasks[i].kind.options, TaskOptions::Custom(_));
        if is_custom {
            let m = match find_slug(discovered, tasks[i].name.as_str()) {
                Some(m) => m,
                None => {
                    proof {
                        assert(false);
                    }
                    0
                },
            };
            let hooks = HookSet::from_probes(discovered[m].has_pre, discovered[m].has_post);
            let ghost pre_iter = tasks@;
            let t = tasks.remove(i);
            let Task { name, kind } = t;
            let options = match kind.options {
                TaskOptions::Custom(c) => TaskOptions::Custom(
                    CustomOptions { hooks, options: c.options },
                ),
                other => other,
            };
            let bound = Task {
                name,
                kind: crate::renconstruct::config::GeneralTaskOptions {
                    enabled: kind.enabled,
                    on_builds: kind.on_builds,
                    sandboxed: kind.sandboxed,
                    priorities: kind.priorities,
                    options,
                },
            };
            tasks.insert(i, bound);
            proof {
                assert(tasks@ =~= pre_iter.update(i as int, tasks@[i as int]));
                assert(pre_iter[i as int] == orig[i as int]);
                assert(spec_task_bound(orig[i as int], discovered@, tasks@[i as int]));
            }
        }
        i = i + 1;
    }
    Ok(())
}

/// Plugin binding is honest about hooks: a custom task bound to a
/// discovered class whose instance exposes only a pre-build hook is
/// applicable to the pre-build phase and not to the post-build phase.
pub proof fn lemma_pre_only_hook_binds_pre_only(
    t: Task,
    discovered: Seq<DiscoveredTask>,
    bound: Task,
)
    requires
        t.kind.options is Custom,
        spec_task_bound(t, discovered, bound),
        ({
            let m = spec_slug_match(discovered, t.name@, 0);
            m is Some && discovered[m.unwrap()].has_pre && !discovered[m.unwrap()].has_post
        }),
    ensures
        spec_applicable(bound, Phase::PreBuild),
        !spec_applicable(bound, Phase::PostBuild),
{
}

/// A task that is not applicable to a phase stands in no batch of a
/// well-formed plan for that phase: a custom task without a post-build
/// hook is absent from post-build scheduling.
pub proof fn lemma_not_applicable_absent(
    tasks: Seq<Task>,
    active: Seq<String>,
    phase: Phase,
    plan: Seq<BatchView>,
    i: int,
)
    requires
        spec_plan_wf(tasks, active, phase, plan),
        0 <= i < tasks.len(),
        !spec_applicable(tasks[i], phase),
    ensures
        forall|b: int, k: int|
            0 <= b < plan.len() && 0 <= k < plan[b].tasks.len() ==> #[trigger] plan[b].tasks[k]
                != i,
{
    assert forall|b: int, k: int|
        0 <= b < plan.len() && 0 <= k < plan[b].tasks.len() implies #[trigger] plan[b].tasks[k]
        != i by {
        assert(crate::renconstruct::scheduler::spec_batch_wf(tasks, active, phase, plan[b]));
        assert(crate::renconstruct::scheduler::spec_scheduled(
            tasks,
            active,
            phase,
            plan[b].tasks[k] as int,
        ));
    }
}

} // verus!
