use crate::renconstruct::config::{Task, TaskOptions};
use crate::text::str_eq_str;
use vstd::prelude::*;

verus! {

/// The two phases a task can run in, separated by the external
/// packaging step.
#[derive(Clone, Copy, PartialEq, Eq, Structural, Debug)]
pub enum Phase {
    PreBuild,
    PostBuild,
}

/// The task's scheduling rank for one phase.
pub open spec fn spec_priority(t: Task, phase: Phase) -> usize {
    if phase == Phase::PreBuild {
        t.kind.priorities.pre_build
    } else {
        t.kind.priorities.post_build
    }
}

/// Whether a task kind takes part in a phase: lint and image conversion
/// run before packaging, notarization after, keystore work in both; a
/// custom task runs where the plugin loader bound it a hook.
pub open spec fn spec_applicable(t: Task, phase: Phase) -> bool {
    match t.kind.options {
        TaskOptions::Lint(_) => phase == Phase::PreBuild,
        TaskOptions::ConvertImages(_) => phase == Phase::PreBuild,
        TaskOptions::Keystore(_) => true,
        TaskOptions::Notarize(_) => phase == Phase::PostBuild,
        TaskOptions::Custom(c) => if phase == Phase::PreBuild {
            c.hooks.spec_has_pre()
        } else {
            c.hooks.spec_has_post()
        },
    }
}

/// True when the two name lists share an element.
pub open spec fn spec_intersects(a: Seq<String>, b: Seq<String>) -> bool {
    exists|i: int, j: int| 0 <= i < a.len() && 0 <= j < b.len() && a[i]@ == b[j]@
}

/// Whether a task is selected for the run at all: it is enabled, and
/// either names no target or names one that is active.
pub open spec fn spec_selected(t: Task, active: Seq<String>) -> bool {
    t.kind.enabled && (t.kind.on_builds@.len() == 0 || spec_intersects(t.kind.on_builds@, active))
}

/// Whether the task with this index runs in this phase.
pub open spec fn spec_scheduled(tasks: Seq<Task>, active: Seq<String>, phase: Phase, i: int) -> bool {
    0 <= i < tasks.len() && spec_selected(tasks[i], active) && spec_applicable(tasks[i], phase)
}

/// The indices of the tasks that run in this phase, ascending.
pub open spec fn spec_eligible(tasks: Seq<Task>, active: Seq<String>, phase: Phase) -> Seq<usize>
    decreases tasks.len(),
{
    if tasks.len() == 0 {
        Seq::<usize>::empty()
    } else {
        spec_eligible(tasks.drop_last(), active, phase) + (if spec_selected(tasks.last(), active)
            && spec_applicable(tasks.last(), phase) {
            seq![(tasks.len() - 1) as usize]
        } else {
            Seq::<usize>::empty()
        })
    }
}

/// Inserts a priority into an ascending list of distinct priorities.
pub open spec fn spec_insert_priority(sorted: Seq<usize>, p: usize) -> Seq<usize>
    decreases sorted.len(),
{
    if sorted.len() == 0 {
        seq![p]
    } else if p < sorted[0] {
        seq![p] + sorted
    } else if p == sorted[0] {
        sorted
    } else {
        seq![sorted[0]] + spec_insert_priority(sorted.skip(1), p)
    }
}

/// The distinct priorities of the given task indices, ascending.
pub open spec fn spec_priorities(
    tasks: Seq<Task>,
    idxs: Seq<usize>,
    phase: Phase,
) -> Seq<usize>
    decreases idxs.len(),
{
    if idxs.len() == 0 {
        Seq::<usize>::empty()
    } else {
        spec_insert_priority(
            spec_priorities(tasks, idxs.drop_last(), phase),
            spec_priority(tasks[idxs.last() as int], phase),
        )
    }
}

pub open spec fn spec_sandboxed(tasks: Seq<Task>, i: usize) -> bool {
    tasks[i as int].kind.sandboxed
}

/// The eligible indices that share priority `p`, in their filtered order.
pub open spec fn spec_group(tasks: Seq<Task>, idxs: Seq<usize>, phase: Phase, p: usize) -> Seq<
    usize,
>
    decreases idxs.len(),
{
    if idxs.len() == 0 {
        Seq::<usize>::empty()
    } else {
        spec_group(tasks, idxs.drop_last(), phase, p) + (if spec_priority(
            tasks[idxs.last() as int],
            phase,
        ) == p {
            seq![idxs.last()]
        } else {
            Seq::<usize>::empty()
        })
    }
}

/// A priority group split into its maximal contiguous runs of one
/// sandbox flag.
pub open spec fn spec_runs(tasks: Seq<Task>, g: Seq<usize>) -> Seq<Seq<usize>>
    decreases g.len(),
{
    if g.len() == 0 {
        Seq::<Seq<usize>>::empty()
    } else {
        let rest = spec_runs(tasks, g.skip(1));
        if rest.len() > 0 && rest[0].len() > 0 && spec_sandboxed(tasks, rest[0][0])
            == spec_sandboxed(tasks, g[0]) {
            seq![seq![g[0]] + rest[0]] + rest.skip(1)
        } else {
            seq![seq![g[0]]] + rest
        }
    }
}

/// What the planner says about one batch: the tasks the driver starts
/// together, all of one priority; started one thread each when
/// `parallel`, in order on the calling thread otherwise.
pub struct BatchView {
    pub priority: usize,
    pub parallel: bool,
    pub tasks: Seq<usize>,
}

/// One unit of execution: the driver finishes a batch completely before
/// it starts the next one.
#[derive(Clone, Debug)]
pub struct Batch {
    pub priority: usize,
    pub parallel: bool,
    /// Indices into the task list the plan was made from.
    pub tasks: Vec<usize>,
}

impl View for Batch {
    type V = BatchView;

    open spec fn view(&self) -> BatchView {
        BatchView { priority: self.priority, parallel: self.parallel, tasks: self.tasks@ }
    }
}

/// Each member of a sequential run becomes a batch of its own.
pub open spec fn spec_singleton_batches(run: Seq<usize>, p: usize) -> Seq<BatchView>
    decreases run.len(),
{
    if run.len() == 0 {
        Seq::<BatchView>::empty()
    } else {
        seq![BatchView { priority: p, parallel: false, tasks: seq![run[0]] }]
            + spec_singleton_batches(run.skip(1), p)
    }
}

/// A sandboxed run of more than one task becomes one parallel batch;
/// any other run is executed one task at a time.
pub open spec fn spec_run_batches(tasks: Seq<Task>, run: Seq<usize>, p: usize) -> Seq<BatchView> {
    if run.len() > 1 && spec_sandboxed(tasks, run[0]) {
        seq![BatchView { priority: p, parallel: true, tasks: run }]
    } else {
        spec_singleton_batches(run, p)
    }
}

pub open spec fn spec_group_batches(tasks: Seq<Task>, runs: Seq<Seq<usize>>, p: usize) -> Seq<
    BatchView,
>
    decreases runs.len(),
{
    if runs.len() == 0 {
        Seq::<BatchView>::empty()
    } else {
        spec_run_batches(tasks, runs[0], p) + spec_group_batches(tasks, runs.skip(1), p)
    }
}

pub open spec fn spec_phase_batches(
    tasks: Seq<Task>,
    idxs: Seq<usize>,
    prios: Seq<usize>,
    phase: Phase,
) -> Seq<BatchView>
    decreases prios.len(),
{
    if prios.len() == 0 {
        Seq::<BatchView>::empty()
    } else {
        spec_group_batches(
            tasks,
            spec_runs(tasks, spec_group(tasks, idxs, phase, prios[0])),
            prios[0],
        ) + spec_phase_batches(tasks, idxs, prios.skip(1), phase)
    }
}

/// The whole plan of one phase: the eligible tasks, grouped by ascending
/// priority, each group split into contiguous sandbox runs, each run
/// into batches.
pub open spec fn spec_plan(tasks: Seq<Task>, active: Seq<String>, phase: Phase) -> Seq<BatchView> {
    let idxs = spec_eligible(tasks, active, phase);
    spec_phase_batches(tasks, idxs, spec_priorities(tasks, idxs, phase), phase)
}

/// What holds of every batch of a well-formed plan: it is nonempty, its
/// members are scheduled tasks of this phase and all carry the batch's
/// priority; a parallel batch holds more than one task, all sandboxed; a
/// sequential batch holds exactly one.
pub open spec fn spec_batch_wf(
    tasks: Seq<Task>,
    active: Seq<String>,
    phase: Phase,
    b: BatchView,
) -> bool {
    &&& b.tasks.len() > 0
    &&& forall|k: int|
        0 <= k < b.tasks.len() ==> spec_scheduled(tasks, active, phase, (#[trigger] b.tasks[k]) as int)
    &&& forall|k: int|
        0 <= k < b.tasks.len() ==> spec_priority(tasks[(#[trigger] b.tasks[k]) as int], phase)
            == b.priority
    &&& b.parallel ==> b.tasks.len() > 1 && (forall|k: int|
        0 <= k < b.tasks.len() ==> spec_sandboxed(tasks, #[trigger] b.tasks[k]))
    &&& !b.parallel ==> b.tasks.len() == 1
}

/// What holds of a whole plan: every batch is well-formed, and batch
/// priorities never decrease along the plan. Together these say that a
/// task of a lower priority group stands in a strictly earlier batch
/// than any task of a higher group, and the driver finishes each batch
/// before starting the next.
pub open spec fn spec_plan_wf(
    tasks: Seq<Task>,
    active: Seq<String>,
    phase: Phase,
    plan: Seq<BatchView>,
) -> bool {
    &&& forall|b: int|
        0 <= b < plan.len() ==> spec_batch_wf(tasks, active, phase, #[trigger] plan[b])
    &&& forall|x: int, y: int|
        0 <= x <= y < plan.len() ==> (#[trigger] plan[x]).priority <= (#[trigger] plan[y]).priority
}

/// Tasks within a single priority group never begin before every task
/// in a strictly lower priority group of the same phase has completed:
/// in a well-formed plan, whose batches the driver finishes in order, a
/// task of strictly lower priority stands in a strictly earlier batch.
pub proof fn lemma_lower_priority_runs_earlier(
    tasks: Seq<Task>,
    active: Seq<String>,
    phase: Phase,
    plan: Seq<BatchView>,
    x: int,
    kx: int,
    y: int,
    ky: int,
)
    requires
        spec_plan_wf(tasks, active, phase, plan),
        0 <= x < plan.len(),
        0 <= kx < plan[x].tasks.len(),
        0 <= y < plan.len(),
        0 <= ky < plan[y].tasks.len(),
        spec_priority(tasks[plan[x].tasks[kx] as int], phase) < spec_priority(
            tasks[plan[y].tasks[ky] as int],
            phase,
        ),
    ensures
        x < y,
{
    assert(plan[x].priority == spec_priority(tasks[plan[x].tasks[kx] as int], phase));
    assert(plan[y].priority == spec_priority(tasks[plan[y].tasks[ky] as int], phase));
    if y <= x {
        assert(plan[y].priority <= plan[x].priority);
    }
}

/// True when the task with index `i` runs in `phase` against `active`.
fn task_scheduled(tasks: &Vec<Task>, active: &Vec<String>, phase: Phase, i: usize) -> (r: bool)
    requires
        i < tasks@.len(),
    ensures
        r == spec_scheduled(tasks@, active@, phase, i as int),
{
    let t = &tasks[i];
    if !t.kind.enabled {
        return false;
    }
    let selected = if t.kind.on_builds.len() == 0 {
        true
    } else {
        let mut found = false;
        let n = t.kind.on_builds.len();
        let m = active.len();
        let mut a: usize = 0;
        while a < n
            invariant
                n == t.kind.on_builds@.len(),
                m == active@.len(),
                a <= n,
                t == tasks@[i as int],
                found <==> exists|x: int, y: int|
                    0 <= x < a && 0 <= y < m && t.kind.on_builds@[x]@ == active@[y]@,
            decreases n - a,
        {
            let mut b: usize = 0;
            while b < m
                invariant
                    n == t.kind.on_builds@.len(),
                    m == active@.len(),
                    a < n,
                    b <= m,
                    t == tasks@[i as int],
                    found <==> (exists|x: int, y: int|
                        0 <= x < a && 0 <= y < m && t.kind.on_builds@[x]@ == active@[y]@) || (
                    exists|y: int| 0 <= y < b && t.kind.on_builds@[a as int]@ == active@[y]@),
                decreases m - b,
            {
                if str_eq_str(t.kind.on_builds[a].as_str(), active[b].as_str()) {
                    found = true;
                    proof {
                        assert(t.kind.on_builds@[a as int]@ == active@[b as int]@);
                    }
                }
                b = b + 1;
            }
            proof {
                assert(found <==> exists|x: int, y: int|
                    0 <= x < a + 1 && 0 <= y < m && t.kind.on_builds@[x]@ == active@[y]@) by {
                    if found {
                        if exists|x: int, y: int|
                            0 <= x < a && 0 <= y < m && t.kind.on_builds@[x]@ == active@[y]@ {
                            let (x, y) = choose|x: int, y: int|
                                0 <= x < a && 0 <= y < m && t.kind.on_builds@[x]@ == active@[y]@;
                            assert(0 <= x < a + 1 && 0 <= y < m && t.kind.on_builds@[x]@
                                == active@[y]@);
                        } else {
                            let y = choose|y: int|
                                0 <= y < m && t.kind.on_builds@[a as int]@ == active@[y]@;
                            assert(0 <= (a as int) && (a as int) < a + 1 && 0 <= y < m
                                && t.kind.on_builds@[a as int]@ == active@[y]@);
                        }
                    }
                }
            }
            a = a + 1;
        }
        proof {
            if found {
                assert(spec_intersects(t.kind.on_builds@, active@));
            }
        }
        found
    };
    if !selected {
        return false;
    }
    match &t.kind.options {
        TaskOptions::Lint(_) => matches!(phase, Phase::PreBuild),
        TaskOptions::ConvertImages(_) => matches!(phase, Phase::PreBuild),
        TaskOptions::Keystore(_) => true,
        TaskOptions::Notarize(_) => matches!(phase, Phase::PostBuild),
        TaskOptions::Custom(c) => match phase {
            Phase::PreBuild => c.hooks.has_pre(),
            Phase::PostBuild => c.hooks.has_post(),
        },
    }
}

proof fn lemma_insert_priority_at(sorted: Seq<usize>, p: usize, j: int)
    requires
        0 <= j <= sorted.len(),
        forall|k: int| 0 <= k < j ==> (#[trigger] sorted[k]) < p,
        j < sorted.len() ==> p <= sorted[j],
    ensures
        spec_insert_priority(sorted, p) == if j < sorted.len() && sorted[j] == p {
            sorted
        } else {
            sorted.take(j) + seq![p] + sorted.skip(j)
        },
    decreases j,
{
    if sorted.len() == 0 {
        assert(spec_insert_priority(sorted, p) =~= sorted.take(j) + seq![p] + sorted.skip(j));
    } else if j == 0 {
        if sorted[0] != p {
            assert(spec_insert_priority(sorted, p) =~= sorted.take(0) + seq![p] + sorted.skip(0));
        }
    } else {
        lemma_insert_priority_at(sorted.skip(1), p, j - 1);
        if j < sorted.len() && sorted[j] == p {
            assert(sorted.skip(1)[j - 1] == sorted[j]);
            assert(spec_insert_priority(sorted, p) =~= sorted);
        } else {
            assert(sorted.skip(1).take(j - 1) =~= sorted.take(j).skip(1));
            assert(sorted.skip(1).skip(j - 1) =~= sorted.skip(j));
            assert(spec_insert_priority(sorted, p) =~= sorted.take(j) + seq![p] + sorted.skip(j));
        }
    }
}

/// The runs of a nonempty group are nonempty and start with its head.
proof fn lemma_runs_first(tasks: Seq<Task>, g: Seq<usize>)
    requires
        g.len() > 0,
    ensures
        spec_runs(tasks, g).len() > 0,
        spec_runs(tasks, g)[0].len() > 0,
        spec_runs(tasks, g)[0][0] == g[0],
{
}

/// Splitting off the maximal same-flag prefix of a group yields its
/// first run.
proof fn lemma_runs_left_unfold(tasks: Seq<Task>, g: Seq<usize>, k: int)
    requires
        1 <= k <= g.len(),
        forall|x: int| 0 <= x < k ==> spec_sandboxed(tasks, #[trigger] g[x]) == spec_sandboxed(
            tasks,
            g[0],
        ),
        k < g.len() ==> spec_sandboxed(tasks, g[k]) != spec_sandboxed(tasks, g[0]),
    ensures
        spec_runs(tasks, g) == seq![g.take(k)] + spec_runs(tasks, g.skip(k)),
    decreases k,
{
    let rest = spec_runs(tasks, g.skip(1));
    if k == 1 {
        if g.len() > 1 {
            lemma_runs_first(tasks, g.skip(1));
            assert(rest[0][0] == g.skip(1)[0]);
            assert(g.skip(1)[0] == g[1]);
            assert(spec_sandboxed(tasks, g[1]) != spec_sandboxed(tasks, g[0]));
            assert(spec_runs(tasks, g) =~~= seq![g.take(1)] + spec_runs(tasks, g.skip(1)));
        } else {
            assert(g.skip(1) =~= Seq::<usize>::empty());
            assert(spec_runs(tasks, g) =~~= seq![g.take(1)] + spec_runs(tasks, g.skip(1)));
        }
    } else {
        assert(g.skip(1)[0] == g[1]);
        assert forall|x: int| 0 <= x < k - 1 implies spec_sandboxed(tasks, #[trigger] g.skip(1)[x])
            == spec_sandboxed(tasks, g.skip(1)[0]) by {
            assert(g.skip(1)[x] == g[x + 1]);
        }
        if k - 1 < g.skip(1).len() {
            assert(g.skip(1)[k - 1] == g[k]);
        }
        lemma_runs_left_unfold(tasks, g.skip(1), k - 1);
        lemma_runs_first(tasks, g.skip(1));
        assert(rest[0] == g.skip(1).take(k - 1));
        assert(g.skip(1).take(k - 1).len() == k - 1 >= 1);
        assert(rest[0][0] == g.skip(1)[0]);
        assert(spec_sandboxed(tasks, rest[0][0]) == spec_sandboxed(tasks, g[0]));
        assert(seq![g[0]] + rest[0] =~= g.take(k));
        assert(rest.skip(1) == spec_runs(tasks, g.skip(1).skip(k - 1)));
        assert(g.skip(1).skip(k - 1) =~= g.skip(k));
        assert(spec_runs(tasks, g) =~~= seq![g.take(k)] + spec_runs(tasks, g.skip(k)));
    }
}

/// The task's scheduling rank for one phase.
fn priority_of(t: &Task, phase: Phase) -> (r: usize)
    ensures
        r == spec_priority(*t, phase),
{
    match phase {
        Phase::PreBuild => t.kind.priorities.pre_build,
        Phase::PostBuild => t.kind.priorities.post_build,
    }
}

/// Plans one phase, per `spec_plan`: the eligible tasks in ascending
/// priority groups, each group split into contiguous sandbox runs, a
/// sandboxed run of more than one task forming one parallel batch and
/// everything else running one task per batch.
pub fn plan_phase(tasks: &Vec<Task>, active: &Vec<String>, phase: Phase) -> (plan: Vec<Batch>)
    ensures
        plan@.map_values(|b: Batch| b@) == spec_plan(tasks@, active@, phase),
        spec_plan_wf(tasks@, active@, phase, plan@.map_values(|b: Batch| b@)),
        forall|k: int|
            0 <= k < plan@.len() ==> forall|x: int|
                0 <= x < (#[trigger] plan@[k]).tasks@.len() ==> (#[trigger] plan@[k].tasks@[x])
                    < tasks@.len(),
{
    let n = tasks.len();
    // The indices of the tasks that run in this phase.
    let mut elig: Vec<usize> = Vec::new();
    let mut i: usize = 0;
    proof {
        assert(tasks@.take(0) =~= Seq::<Task>::empty());
    }
    while i < n
        invariant
            n == tasks@.len(),
            i <= n,
            elig@ == spec_eligible(tasks@.take(i as int), active@, phase),
            forall|k: int| 0 <= k < elig@.len() ==> (#[trigger] elig@[k]) < i,
            forall|k: int|
                0 <= k < elig@.len() ==> spec_scheduled(
                    tasks@,
                    active@,
                    phase,
                    (#[trigger] elig@[k]) as int,
                ),
        decreases n - i,
    {
        if task_scheduled(tasks, active, phase, i) {
            elig.push(i);
        }
        proof {
            assert(tasks@.take(i + 1 as int).drop_last() =~= tasks@.take(i as int));
            assert(tasks@.take(i + 1 as int).last() == tasks@[i as int]);
            if spec_scheduled(tasks@, active@, phase, i as int) {
                assert(elig@ =~= spec_eligible(tasks@.take(i as int), active@, phase) + seq![
                    i as usize,
                ]);
            } else {
                assert(elig@ =~= spec_eligible(tasks@.take(i as int), active@, phase));
            }
        }
        i = i + 1;
    }
    proof {
        assert(tasks@.take(n as int) =~= tasks@);
    }

    // Their distinct priorities, ascending.
    let mut prios: Vec<usize> = Vec::new();
    let en = elig.len();
    let mut t: usize = 0;
    proof {
        assert(elig@.take(0) =~= Seq::<usize>::empty());
    }
    while t < en
        invariant
            en == elig@.len(),
            n == tasks@.len(),
            t <= en,
            forall|k: int| 0 <= k < en ==> (#[trigger] elig@[k]) < n,
            prios@ == spec_priorities(tasks@, elig@.take(t as int), phase),
            forall|x: int, y: int| 0 <= x < y < prios@.len() ==> prios@[x] < prios@[y],
        decreases en - t,
    {
        let idx = elig[t];
        let p = priority_of(&tasks[idx], phase);
        let m = prios.len();
        let mut j: usize = 0;
        while j < m
            invariant
                m == prios@.len(),
                j <= m,
                forall|k: int| 0 <= k < j ==> (#[trigger] prios@[k]) < p,
            ensures
                j <= m,
                forall|k: int| 0 <= k < j ==> (#[trigger] prios@[k]) < p,
                j < m ==> p <= prios@[j as int],
            decreases m - j,
        {
            if prios[j] >= p {
                break ;
            }
            j = j + 1;
        }
        proof {
            lemma_insert_priority_at(prios@, p, j as int);
        }
        let ghost prev = prios@;
        if j < m && prios[j] == p {
        } else {
            prios.insert(j, p);
            proof {
                assert forall|x: int, y: int| 0 <= x < y < prios@.len() implies prios@[x]
                    < prios@[y] by {
                    assert(prios@ == prev.take(j as int) + seq![p] + prev.skip(j as int));
                    if x < j {
                        assert(prios@[x] == prev[x]);
                    } else if x == j {
                        assert(prios@[x] == p);
                    } else {
                        assert(prios@[x] == prev[x - 1]);
                    }
                    if y < j {
                        assert(prios@[y] == prev[y]);
                    } else if y == j {
                        assert(prios@[y] == p);
                    } else {
                        assert(prios@[y] == prev[y - 1]);
                    }
                }
            }
        }
        proof {
            assert(elig@.take(t + 1 as int).drop_last() =~= elig@.take(t as int));
            assert(elig@.take(t + 1 as int).last() == elig@[t as int]);
        }
        t = t + 1;
    }
    proof {
        assert(elig@.take(en as int) =~= elig@);
    }

    // One priority group after another, split into runs and batches.
    let pn = prios.len();
    let mut plan: Vec<Batch> = Vec::new();
    let mut t: usize = 0;
    proof {
        assert(plan@.map_values(|b: Batch| b@) =~= Seq::<BatchView>::empty());
        assert(prios@.skip(0) =~= prios@);
    }
    while t < pn
        invariant
            pn == prios@.len(),
            en == elig@.len(),
            n == tasks@.len(),
            t <= pn,
            forall|k: int| 0 <= k < en ==> (#[trigger] elig@[k]) < n,
            forall|k: int|
                0 <= k < en ==> spec_scheduled(tasks@, active@, phase, (#[trigger] elig@[k]) as int),
            forall|x: int, y: int| 0 <= x < y < pn ==> prios@[x] < prios@[y],
            spec_phase_batches(tasks@, elig@, prios@, phase) == plan@.map_values(|b: Batch| b@)
                + spec_phase_batches(tasks@, elig@, prios@.skip(t as int), phase),
            forall|k: int|
                0 <= k < plan@.len() ==> forall|x: int|
                    0 <= x < (#[trigger] plan@[k]).tasks@.len() ==> (#[trigger] plan@[k].tasks@[x])
                        < n,
            forall|b: int|
                0 <= b < plan@.len() ==> spec_batch_wf(tasks@, active@, phase, (#[trigger] plan@[b])@),
            forall|x: int, y: int|
                0 <= x <= y < plan@.len() ==> ((#[trigger] plan@[x])@).priority <= ((
                #[trigger] plan@[y])@).priority,
            t == 0 ==> plan@.len() == 0,
            t > 0 ==> forall|b: int|
                0 <= b < plan@.len() ==> ((#[trigger] plan@[b])@).priority <= prios@[t - 1],
        decreases pn - t,
    {
        let p = prios[t];

        // The group at this priority.
        let mut group: Vec<usize> = Vec::new();
        let mut g: usize = 0;
        proof {
            assert(elig@.take(0) =~= Seq::<usize>::empty());
        }
        while g < en
            invariant
                en == elig@.len(),
                n == tasks@.len(),
                g <= en,
                forall|k: int| 0 <= k < en ==> (#[trigger] elig@[k]) < n,
                forall|k: int|
                    0 <= k < en ==> spec_scheduled(
                        tasks@,
                        active@,
                        phase,
                        (#[trigger] elig@[k]) as int,
                    ),
                group@ == spec_group(tasks@, elig@.take(g as int), phase, p),
                forall|k: int| 0 <= k < group@.len() ==> (#[trigger] group@[k]) < n,
                forall|k: int|
                    0 <= k < group@.len() ==> spec_scheduled(
                        tasks@,
                        active@,
                        phase,
                        (#[trigger] group@[k]) as int,
                    ),
                forall|k: int|
                    0 <= k < group@.len() ==> spec_priority(
                        tasks@[(#[trigger] group@[k]) as int],
                        phase,
                    ) == p,
            decreases en - g,
        {
            let idx = elig[g];
            if priority_of(&tasks[idx], phase) == p {
                group.push(idx);
            }
            proof {
                assert(elig@.take(g + 1 as int).drop_last() =~= elig@.take(g as int));
                assert(elig@.take(g + 1 as int).last() == elig@[g as int]);
                if spec_priority(tasks@[elig@[g as int] as int], phase) == p {
                    assert(group@ =~= spec_group(tasks@, elig@.take(g as int), phase, p) + seq![
                        elig@[g as int],
                    ]);
                } else {
                    assert(group@ =~= spec_group(tasks@, elig@.take(g as int), phase, p));
                }
            }
            g = g + 1;
        }
        proof {
            assert(elig@.take(en as int) =~= elig@);
            assert(group@.skip(0) =~= group@);
            assert(prios@.skip(t as int)[0] == prios@[t as int]);
            assert(prios@.skip(t as int).skip(1) =~= prios@.skip(t + 1 as int));
            assert forall|b: int| 0 <= b < plan@.len() implies ((#[trigger] plan@[b])@).priority
                <= p by {
                assert(t > 0);
                assert(prios@[t - 1] < prios@[t as int]);
            }
        }

        // Contiguous sandbox runs, each made into batches.
        let gn = group.len();
        let mut pos: usize = 0;
        while pos < gn
            invariant
                gn == group@.len(),
                n == tasks@.len(),
                pos <= gn,
                forall|k: int| 0 <= k < group@.len() ==> (#[trigger] group@[k]) < n,
                forall|k: int|
                    0 <= k < group@.len() ==> spec_scheduled(
                        tasks@,
                        active@,
                        phase,
                        (#[trigger] group@[k]) as int,
                    ),
                forall|k: int|
                    0 <= k < group@.len() ==> spec_priority(
                        tasks@[(#[trigger] group@[k]) as int],
                        phase,
                    ) == p,
                spec_phase_batches(tasks@, elig@, prios@, phase) == plan@.map_values(
                    |b: Batch| b@,
                ) + spec_group_batches(tasks@, spec_runs(tasks@, group@.skip(pos as int)), p)
                    + spec_phase_batches(tasks@, elig@, prios@.skip(t + 1 as int), phase),
                forall|k: int|
                    0 <= k < plan@.len() ==> forall|x: int|
                        0 <= x < (#[trigger] plan@[k]).tasks@.len() ==> (
                        #[trigger] plan@[k].tasks@[x]) < n,
                forall|b: int|
                    0 <= b < plan@.len() ==> spec_batch_wf(
                        tasks@,
                        active@,
                        phase,
                        (#[trigger] plan@[b])@,
                    ),
                forall|x: int, y: int|
                    0 <= x <= y < plan@.len() ==> ((#[trigger] plan@[x])@).priority <= ((
                    #[trigger] plan@[y])@).priority,
                forall|b: int| 0 <= b < plan@.len() ==> ((#[trigger] plan@[b])@).priority <= p,
            decreases gn - pos,
        {
            let flag = tasks[group[pos]].kind.sandboxed;
            let mut j: usize = pos + 1;
            loop
                invariant
                    gn == group@.len(),
                    n == tasks@.len(),
                    pos < j <= gn,
                    forall|k: int| 0 <= k < group@.len() ==> (#[trigger] group@[k]) < n,
                    flag == spec_sandboxed(tasks@, group@[pos as int]),
                    forall|k: int|
                        pos <= k < j ==> spec_sandboxed(tasks@, #[trigger] group@[k]) == flag,
                ensures
                    pos < j <= gn,
                    forall|k: int|
                        pos <= k < j ==> spec_sandboxed(tasks@, #[trigger] group@[k]) == flag,
                    j < gn ==> spec_sandboxed(tasks@, group@[j as int]) != flag,
                decreases gn - j,
            {
                if j == gn {
                    break ;
                }
                if tasks[group[j]].kind.sandboxed != flag {
                    break ;
                }
                j = j + 1;
            }
            proof {
                let gs = group@.skip(pos as int);
                assert forall|x: int| 0 <= x < j - pos implies spec_sandboxed(
                    tasks@,
                    #[trigger] gs[x],
                ) == spec_sandboxed(tasks@, gs[0]) by {
                    assert(gs[x] == group@[pos + x]);
                    assert(gs[0] == group@[pos as int]);
                }
                if j - pos < gs.len() {
                    assert(gs[j - pos] == group@[j as int]);
                }
                lemma_runs_left_unfold(tasks@, gs, j - pos as int);
                assert(gs.take(j - pos as int) =~= group@.subrange(pos as int, j as int));
                assert(gs.skip(j - pos as int) =~= group@.skip(j as int));
                let runs = spec_runs(tasks@, gs);
                assert(runs[0] == group@.subrange(pos as int, j as int));
                assert(runs.skip(1) =~= spec_runs(tasks@, group@.skip(j as int)));
            }

            // The run itself.
            let mut run: Vec<usize> = Vec::new();
            let mut k: usize = pos;
            while k < j
                invariant
                    gn == group@.len(),
                    pos <= k <= j <= gn,
                    run@ == group@.subrange(pos as int, k as int),
                decreases j - k,
            {
                run.push(group[k]);
                proof {
                    assert(run@ =~= group@.subrange(pos as int, k + 1 as int));
                }
                k = k + 1;
            }

            if flag && j - pos > 1 {
                let ghost pv = plan@.map_values(|b: Batch| b@);
                let ghost prev_plan = plan@;
                let ghost runseq = run@;
                let ghost bv = BatchView { priority: p, parallel: true, tasks: runseq };
                proof {
                    assert(runseq[0] == group@[pos as int]);
                    assert(spec_batch_wf(tasks@, active@, phase, bv)) by {
                        assert forall|k: int| 0 <= k < runseq.len() implies spec_scheduled(
                            tasks@,
                            active@,
                            phase,
                            (#[trigger] runseq[k]) as int,
                        ) && spec_priority(tasks@[(#[trigger] runseq[k]) as int], phase) == p
                            && spec_sandboxed(tasks@, runseq[k]) by {
                            assert(runseq[k] == group@[pos + k]);
                        }
                    }
                }
                let b = Batch { priority: p, parallel: true, tasks: run };
                plan.push(b);
                proof {
                    assert(plan@.map_values(|b: Batch| b@) =~= pv + seq![bv]);
                    assert(spec_run_batches(tasks@, runseq, p) == seq![bv]);
                    assert(spec_phase_batches(tasks@, elig@, prios@, phase) =~= plan@.map_values(
                        |b: Batch| b@,
                    ) + spec_group_batches(tasks@, spec_runs(tasks@, group@.skip(j as int)), p)
                        + spec_phase_batches(tasks@, elig@, prios@.skip(t + 1 as int), phase));
                    assert forall|bb: int| 0 <= bb < plan@.len() implies spec_batch_wf(
                        tasks@,
                        active@,
                        phase,
                        (#[trigger] plan@[bb])@,
                    ) by {
                        if bb < plan@.len() - 1 {
                            assert(plan@[bb] == prev_plan[bb]);
                        } else {
                            assert(plan@[bb]@ == bv);
                        }
                    }
                    assert forall|x: int, y: int| 0 <= x <= y < plan@.len() implies ((
                    #[trigger] plan@[x])@).priority <= ((#[trigger] plan@[y])@).priority by {
                        if y < plan@.len() - 1 {
                            assert(plan@[x] == prev_plan[x]);
                            assert(plan@[y] == prev_plan[y]);
                        } else if x < plan@.len() - 1 {
                            assert(plan@[x] == prev_plan[x]);
                            assert((plan@[x]@).priority <= p);
                        }
                    }
                }
            } else {
                // One batch per task.
                let mut k: usize = pos;
                proof {
                    let runs = spec_runs(tasks@, group@.skip(pos as int));
                    assert(spec_run_batches(tasks@, group@.subrange(pos as int, j as int), p)
                        == spec_singleton_batches(group@.subrange(pos as int, j as int), p));
                }
                while k < j
                    invariant
                        gn == group@.len(),
                        n == tasks@.len(),
                        pos <= k <= j <= gn,
                        forall|x: int| 0 <= x < group@.len() ==> (#[trigger] group@[x]) < n,
                        forall|x: int|
                            0 <= x < group@.len() ==> spec_scheduled(
                                tasks@,
                                active@,
                                phase,
                                (#[trigger] group@[x]) as int,
                            ),
                        forall|x: int|
                            0 <= x < group@.len() ==> spec_priority(
                                tasks@[(#[trigger] group@[x]) as int],
                                phase,
                            ) == p,
                        spec_phase_batches(tasks@, elig@, prios@, phase) == plan@.map_values(
                            |b: Batch| b@,
                        ) + spec_singleton_batches(group@.subrange(k as int, j as int), p)
                            + spec_group_batches(
                            tasks@,
                            spec_runs(tasks@, group@.skip(j as int)),
                            p,
                        ) + spec_phase_batches(tasks@, elig@, prios@.skip(t + 1 as int), phase),
                        forall|x: int|
                            0 <= x < plan@.len() ==> forall|y: int|
                                0 <= y < (#[trigger] plan@[x]).tasks@.len() ==> (
                                #[trigger] plan@[x].tasks@[y]) < n,
                        forall|b: int|
                            0 <= b < plan@.len() ==> spec_batch_wf(
                                tasks@,
                                active@,
                                phase,
                                (#[trigger] plan@[b])@,
                            ),
                        forall|x: int, y: int|
                            0 <= x <= y < plan@.len() ==> ((#[trigger] plan@[x])@).priority <= ((
                            #[trigger] plan@[y])@).priority,
                        forall|b: int|
                            0 <= b < plan@.len() ==> ((#[trigger] plan@[b])@).priority <= p,
                    decreases j - k,
                {
                    let ghost pv = plan@.map_values(|b: Batch| b@);
                    let ghost prev_plan = plan@;
                    let ghost bv = BatchView {
                        priority: p,
                        parallel: false,
                        tasks: seq![group@[k as int]],
                    };
                    let mut tv: Vec<usize> = Vec::new();
                    tv.push(group[k]);
                    proof {
                        assert(tv@ =~= seq![group@[k as int]]);
                        assert(spec_batch_wf(tasks@, active@, phase, bv));
                    }
                    let b = Batch { priority: p, parallel: false, tasks: tv };
                    plan.push(b);
                    proof {
                        assert forall|bb: int| 0 <= bb < plan@.len() implies spec_batch_wf(
                            tasks@,
                            active@,
                            phase,
                            (#[trigger] plan@[bb])@,
                        ) by {
                            if bb < plan@.len() - 1 {
                                assert(plan@[bb] == prev_plan[bb]);
                            } else {
                                assert(plan@[bb]@ == bv);
                            }
                        }
                        assert forall|x: int, y: int| 0 <= x <= y < plan@.len() implies ((
                        #[trigger] plan@[x])@).priority <= ((#[trigger] plan@[y])@).priority by {
                            if y < plan@.len() - 1 {
                                assert(plan@[x] == prev_plan[x]);
                                assert(plan@[y] == prev_plan[y]);
                            } else if x < plan@.len() - 1 {
                                assert(plan@[x] == prev_plan[x]);
                                assert((plan@[x]@).priority <= p);
                            }
                        }
                        assert(plan@.map_values(|b: Batch| b@) =~= pv + seq![
                            BatchView { priority: p, parallel: false, tasks: seq![group@[k as int]] },
                        ]);
                        let rem = group@.subrange(k as int, j as int);
                        assert(rem[0] == group@[k as int]);
                        assert(rem.skip(1) =~= group@.subrange(k + 1 as int, j as int));
                        assert(spec_singleton_batches(rem, p) == seq![
                            BatchView { priority: p, parallel: false, tasks: seq![group@[k as int]] },
                        ] + spec_singleton_batches(group@.subrange(k + 1 as int, j as int), p));
                        assert(spec_phase_batches(tasks@, elig@, prios@, phase)
                            =~= plan@.map_values(|b: Batch| b@) + spec_singleton_batches(
                            group@.subrange(k + 1 as int, j as int),
                            p,
                        ) + spec_group_batches(tasks@, spec_runs(tasks@, group@.skip(j as int)), p)
                            + spec_phase_batches(tasks@, elig@, prios@.skip(t + 1 as int), phase));
                    }
                    k = k + 1;
                }
                proof {
                    assert(group@.subrange(j as int, j as int) =~= Seq::<usize>::empty());
                    assert(spec_singleton_batches(Seq::<usize>::empty(), p)
                        =~= Seq::<BatchView>::empty());
                    assert(spec_phase_batches(tasks@, elig@, prios@, phase) =~= plan@.map_values(
                        |b: Batch| b@,
                    ) + spec_group_batches(tasks@, spec_runs(tasks@, group@.skip(j as int)), p)
                        + spec_phase_batches(tasks@, elig@, prios@.skip(t + 1 as int), phase));
                }
            }
            pos = j;
        }
        proof {
            assert(group@.skip(gn as int) =~= Seq::<usize>::empty());
            assert(spec_group_batches(tasks@, spec_runs(tasks@, Seq::<usize>::empty()), p)
                =~= Seq::<BatchView>::empty());
            assert(spec_phase_batches(tasks@, elig@, prios@, phase) =~= plan@.map_values(
                |b: Batch| b@,
            ) + spec_phase_batches(tasks@, elig@, prios@.skip(t + 1 as int), phase));
        }
        t = t + 1;
    }
    proof {
        assert(prios@.skip(pn as int) =~= Seq::<usize>::empty());
        assert(plan@.map_values(|b: Batch| b@) =~= spec_phase_batches(
            tasks@,
            elig@,
            prios@,
            phase,
        ));
        let pv = plan@.map_values(|b: Batch| b@);
        assert forall|b: int| 0 <= b < pv.len() implies spec_batch_wf(
            tasks@,
            active@,
            phase,
            #[trigger] pv[b],
        ) by {
            assert(pv[b] == plan@[b]@);
        }
        assert forall|x: int, y: int| 0 <= x <= y < pv.len() implies (#[trigger] pv[x]).priority
            <= (#[trigger] pv[y]).priority by {
            assert(pv[x] == plan@[x]@);
            assert(pv[y] == plan@[y]@);
        }
    }
    plan
}

/// The members of a plan's batches, in batch order.
pub open spec fn spec_plan_members(plan: Seq<BatchView>) -> Seq<usize>
    decreases plan.len(),
{
    if plan.len() == 0 {
        Seq::<usize>::empty()
    } else {
        plan[0].tasks + spec_plan_members(plan.skip(1))
    }
}

pub open spec fn spec_runs_concat(runs: Seq<Seq<usize>>) -> Seq<usize>
    decreases runs.len(),
{
    if runs.len() == 0 {
        Seq::<usize>::empty()
    } else {
        runs[0] + spec_runs_concat(runs.skip(1))
    }
}

pub open spec fn spec_groups_concat(
    tasks: Seq<Task>,
    idxs: Seq<usize>,
    prios: Seq<usize>,
    phase: Phase,
) -> Seq<usize>
    decreases prios.len(),
{
    if prios.len() == 0 {
        Seq::<usize>::empty()
    } else {
        spec_group(tasks, idxs, phase, prios[0]) + spec_groups_concat(
            tasks,
            idxs,
            prios.skip(1),
            phase,
        )
    }
}

proof fn lemma_members_concat(a: Seq<BatchView>, b: Seq<BatchView>)
    ensures
        spec_plan_members(a + b) == spec_plan_members(a) + spec_plan_members(b),
    decreases a.len(),
{
    if a.len() == 0 {
        assert(a + b =~= b);
        assert(spec_plan_members(a + b) =~= spec_plan_members(a) + spec_plan_members(b));
    } else {
        lemma_members_concat(a.skip(1), b);
        assert((a + b).skip(1) =~= a.skip(1) + b);
        assert((a + b)[0] == a[0]);
        assert(spec_plan_members(a + b) =~= spec_plan_members(a) + spec_plan_members(b));
    }
}

proof fn lemma_singleton_members(run: Seq<usize>, p: usize)
    ensures
        spec_plan_members(spec_singleton_batches(run, p)) == run,
    decreases run.len(),
{
    if run.len() > 0 {
        lemma_singleton_members(run.skip(1), p);
        let r = spec_singleton_batches(run, p);
        assert(r.skip(1) =~= spec_singleton_batches(run.skip(1), p));
        assert(spec_plan_members(r) =~= run);
    } else {
        assert(spec_plan_members(spec_singleton_batches(run, p)) =~= run);
    }
}

proof fn lemma_run_batches_members(tasks: Seq<Task>, run: Seq<usize>, p: usize)
    ensures
        spec_plan_members(spec_run_batches(tasks, run, p)) == run,
{
    if run.len() > 1 && spec_sandboxed(tasks, run[0]) {
        let r = spec_run_batches(tasks, run, p);
        assert(r.skip(1) =~= Seq::<BatchView>::empty());
        assert(spec_plan_members(r) == r[0].tasks + spec_plan_members(r.skip(1)));
        assert(spec_plan_members(Seq::<BatchView>::empty()) =~= Seq::<usize>::empty());
        assert(spec_plan_members(r) =~= run);
    } else {
        lemma_singleton_members(run, p);
    }
}

proof fn lemma_group_batches_members(tasks: Seq<Task>, runs: Seq<Seq<usize>>, p: usize)
    ensures
        spec_plan_members(spec_group_batches(tasks, runs, p)) == spec_runs_concat(runs),
    decreases runs.len(),
{
    if runs.len() > 0 {
        lemma_group_batches_members(tasks, runs.skip(1), p);
        lemma_run_batches_members(tasks, runs[0], p);
        lemma_members_concat(
            spec_run_batches(tasks, runs[0], p),
            spec_group_batches(tasks, runs.skip(1), p),
        );
    }
}

proof fn lemma_runs_concat_id(tasks: Seq<Task>, g: Seq<usize>)
    ensures
        spec_runs_concat(spec_runs(tasks, g)) == g,
    decreases g.len(),
{
    if g.len() > 0 {
        lemma_runs_concat_id(tasks, g.skip(1));
        let rest = spec_runs(tasks, g.skip(1));
        if rest.len() > 0 && rest[0].len() > 0 && spec_sandboxed(tasks, rest[0][0])
            == spec_sandboxed(tasks, g[0]) {
            let r = spec_runs(tasks, g);
            assert(r[0] == seq![g[0]] + rest[0]);
            assert(r.skip(1) =~= rest.skip(1));
            assert(spec_runs_concat(rest) == rest[0] + spec_runs_concat(rest.skip(1)));
            assert(g.skip(1) == rest[0] + spec_runs_concat(rest.skip(1)));
            assert(spec_runs_concat(r) == r[0] + spec_runs_concat(r.skip(1)));
            let z = spec_runs_concat(rest.skip(1));
            assert(spec_runs_concat(r) == (seq![g[0]] + rest[0]) + z);
            assert((seq![g[0]] + rest[0]) + z =~= seq![g[0]] + (rest[0] + z));
            assert(seq![g[0]] + g.skip(1) =~= g);
            assert(spec_runs_concat(r) == g);
        } else {
            let r = spec_runs(tasks, g);
            assert(r[0] == seq![g[0]]);
            assert(r.skip(1) =~= rest);
            assert(spec_runs_concat(r) == r[0] + spec_runs_concat(r.skip(1)));
            assert(spec_runs_concat(r) =~= g);
        }
    }
}

proof fn lemma_phase_members(tasks: Seq<Task>, idxs: Seq<usize>, prios: Seq<usize>, phase: Phase)
    ensures
        spec_plan_members(spec_phase_batches(tasks, idxs, prios, phase)) == spec_groups_concat(
            tasks,
            idxs,
            prios,
            phase,
        ),
    decreases prios.len(),
{
    if prios.len() > 0 {
        lemma_phase_members(tasks, idxs, prios.skip(1), phase);
        let g = spec_group(tasks, idxs, phase, prios[0]);
        lemma_group_batches_members(tasks, spec_runs(tasks, g), prios[0]);
        lemma_runs_concat_id(tasks, g);
        lemma_members_concat(
            spec_group_batches(tasks, spec_runs(tasks, g), prios[0]),
            spec_phase_batches(tasks, idxs, prios.skip(1), phase),
        );
    }
}

proof fn lemma_insert_priority_props(sorted: Seq<usize>, p: usize)
    requires
        forall|x: int, y: int| 0 <= x < y < sorted.len() ==> sorted[x] < sorted[y],
    ensures
        ({
            let r = spec_insert_priority(sorted, p);
            &&& forall|x: int, y: int| 0 <= x < y < r.len() ==> r[x] < r[y]
            &&& forall|q: usize| r.contains(q) <==> sorted.contains(q) || q == p
        }),
    decreases sorted.len(),
{
    let r = spec_insert_priority(sorted, p);
    if sorted.len() == 0 {
        assert forall|q: usize| r.contains(q) implies sorted.contains(q) || q == p by {}
        assert forall|q: usize| sorted.contains(q) || q == p implies r.contains(q) by {
            assert(r[0] == p);
        }
    } else if p < sorted[0] {
        assert forall|q: usize| r.contains(q) implies sorted.contains(q) || q == p by {
            let i = choose|i: int| 0 <= i < r.len() && r[i] == q;
            if i > 0 {
                assert(sorted[i - 1] == q);
            }
        }
        assert forall|q: usize| sorted.contains(q) || q == p implies r.contains(q) by {
            if q == p {
                assert(r[0] == q);
            } else {
                let i = choose|i: int| 0 <= i < sorted.len() && sorted[i] == q;
                assert(r[i + 1] == q);
            }
        }
    } else if p == sorted[0] {
        assert forall|q: usize| sorted.contains(q) || q == p implies r.contains(q) by {
            if q == p {
                assert(r[0] == q);
            }
        }
    } else {
        assert forall|x: int, y: int| 0 <= x < y < sorted.skip(1).len() implies sorted.skip(
            1,
        )[x] < sorted.skip(1)[y] by {
            assert(sorted.skip(1)[x] == sorted[x + 1]);
            assert(sorted.skip(1)[y] == sorted[y + 1]);
        }
        lemma_insert_priority_props(sorted.skip(1), p);
        let rr = spec_insert_priority(sorted.skip(1), p);
        assert forall|x: int, y: int| 0 <= x < y < r.len() implies r[x] < r[y] by {
            if x == 0 {
                assert(r[0] == sorted[0]);
                assert(r[y] == rr[y - 1]);
                if rr[y - 1] != p {
                    assert(rr.contains(rr[y - 1]));
                    assert(sorted.skip(1).contains(rr[y - 1]) || rr[y - 1] == p);
                    let k = choose|k: int|
                        0 <= k < sorted.skip(1).len() && sorted.skip(1)[k] == rr[y - 1];
                    assert(sorted[k + 1] == rr[y - 1]);
                    assert(sorted[0] < sorted[k + 1]);
                } else {
                    assert(sorted[0] < p);
                }
            } else {
                assert(r[x] == rr[x - 1]);
                assert(r[y] == rr[y - 1]);
            }
        }
        assert forall|q: usize| r.contains(q) implies sorted.contains(q) || q == p by {
            let i = choose|i: int| 0 <= i < r.len() && r[i] == q;
            if i == 0 {
                assert(sorted[0] == q);
            } else {
                assert(rr[i - 1] == q);
                assert(rr.contains(q));
                if sorted.skip(1).contains(q) {
                    let k = choose|k: int|
                        0 <= k < sorted.skip(1).len() && sorted.skip(1)[k] == q;
                    assert(sorted[k + 1] == q);
                }
            }
        }
        assert forall|q: usize| sorted.contains(q) || q == p implies r.contains(q) by {
            if q == p || !sorted.contains(q) {
                assert(rr.contains(q));
                let k = choose|k: int| 0 <= k < rr.len() && rr[k] == q;
                assert(r[k + 1] == q);
            } else {
                let i = choose|i: int| 0 <= i < sorted.len() && sorted[i] == q;
                if i == 0 {
                    assert(r[0] == q);
                } else {
                    assert(sorted.skip(1)[i - 1] == q);
                    assert(rr.contains(q));
                    let k = choose|k: int| 0 <= k < rr.len() && rr[k] == q;
                    assert(r[k + 1] == q);
                }
            }
        }
    }
}

proof fn lemma_priorities_props(tasks: Seq<Task>, idxs: Seq<usize>, phase: Phase)
    ensures
        ({
            let prios = spec_priorities(tasks, idxs, phase);
            &&& forall|x: int, y: int| 0 <= x < y < prios.len() ==> prios[x] < prios[y]
            &&& forall|q: usize|
                prios.contains(q) <==> exists|k: int|
                    0 <= k < idxs.len() && spec_priority(tasks[(#[trigger] idxs[k]) as int], phase)
                        == q
        }),
    decreases idxs.len(),
{
    let prios = spec_priorities(tasks, idxs, phase);
    if idxs.len() == 0 {
        assert forall|q: usize| !prios.contains(q) by {}
    } else {
        lemma_priorities_props(tasks, idxs.drop_last(), phase);
        let prev = spec_priorities(tasks, idxs.drop_last(), phase);
        let pe = spec_priority(tasks[idxs.last() as int], phase);
        lemma_insert_priority_props(prev, pe);
        assert forall|q: usize| prios.contains(q) implies exists|k: int|
            0 <= k < idxs.len() && spec_priority(tasks[(#[trigger] idxs[k]) as int], phase)
                == q by {
            if q == pe {
                assert(spec_priority(tasks[(idxs[idxs.len() - 1]) as int], phase) == q);
            } else {
                assert(prev.contains(q));
                let k = choose|k: int|
                    0 <= k < idxs.drop_last().len() && spec_priority(
                        tasks[(#[trigger] idxs.drop_last()[k]) as int],
                        phase,
                    ) == q;
                assert(idxs[k] == idxs.drop_last()[k]);
                assert(spec_priority(tasks[(idxs[k]) as int], phase) == q);
            }
        }
        assert forall|q: usize|
            (exists|k: int|
                0 <= k < idxs.len() && spec_priority(tasks[(#[trigger] idxs[k]) as int], phase)
                    == q) implies prios.contains(q) by {
            let k = choose|k: int|
                0 <= k < idxs.len() && spec_priority(tasks[(#[trigger] idxs[k]) as int], phase)
                    == q;
            if k < idxs.len() - 1 {
                assert(idxs.drop_last()[k] == idxs[k]);
                assert(prev.contains(q));
            }
        }
    }
}

/// Appending one index to the filtered list appends it to its own
/// priority group and leaves every other group alone.
proof fn lemma_group_push(tasks: Seq<Task>, idxs: Seq<usize>, e: usize, phase: Phase, p: usize)
    ensures
        spec_group(tasks, idxs.push(e), phase, p) == spec_group(tasks, idxs, phase, p) + (
        if spec_priority(tasks[e as int], phase) == p {
            seq![e]
        } else {
            Seq::<usize>::empty()
        }),
{
    assert(idxs.push(e).drop_last() =~= idxs);
    assert(idxs.push(e).last() == e);
}

proof fn lemma_groups_concat_push(
    tasks: Seq<Task>,
    idxs: Seq<usize>,
    e: usize,
    prios: Seq<usize>,
    phase: Phase,
)
    requires
        forall|x: int, y: int| 0 <= x < y < prios.len() ==> prios[x] < prios[y],
        prios.contains(spec_priority(tasks[e as int], phase)),
    ensures
        spec_groups_concat(tasks, idxs.push(e), prios, phase).to_multiset() == spec_groups_concat(
            tasks,
            idxs,
            prios,
            phase,
        ).to_multiset().insert(e),
    decreases prios.len(),
{
    broadcast use vstd::seq_lib::group_to_multiset_ensures;
    broadcast use vstd::seq_lib::lemma_multiset_commutative;
    broadcast use vstd::multiset::group_multiset_axioms;

    let pe = spec_priority(tasks[e as int], phase);
    let i = choose|i: int| 0 <= i < prios.len() && prios[i] == pe;
    lemma_group_push(tasks, idxs, e, phase, prios[0]);
    if prios[0] == pe {
        assert(spec_group(tasks, idxs.push(e), phase, prios[0]) == spec_group(
            tasks,
            idxs,
            phase,
            prios[0],
        ) + seq![e]);
        lemma_groups_concat_same(tasks, idxs, e, prios.skip(1), phase);
        assert(seq![e] =~= Seq::<usize>::empty().push(e));
        assert(spec_groups_concat(tasks, idxs.push(e), prios, phase).to_multiset()
            =~= spec_groups_concat(tasks, idxs, prios, phase).to_multiset().insert(e));
    } else {
        assert(i > 0);
        assert(prios.skip(1)[i - 1] == pe);
        assert(prios.skip(1).contains(pe));
        assert forall|x: int, y: int| 0 <= x < y < prios.skip(1).len() implies prios.skip(
            1,
        )[x] < prios.skip(1)[y] by {
            assert(prios.skip(1)[x] == prios[x + 1]);
            assert(prios.skip(1)[y] == prios[y + 1]);
        }
        lemma_groups_concat_push(tasks, idxs, e, prios.skip(1), phase);
        assert(spec_group(tasks, idxs.push(e), phase, prios[0]) == spec_group(
            tasks,
            idxs,
            phase,
            prios[0],
        ));
        assert(spec_groups_concat(tasks, idxs.push(e), prios, phase).to_multiset()
            =~= spec_groups_concat(tasks, idxs, prios, phase).to_multiset().insert(e));
    }
}

/// Groups for priorities other than the appended index's keep their
/// members.
proof fn lemma_groups_concat_same(
    tasks: Seq<Task>,
    idxs: Seq<usize>,
    e: usize,
    prios: Seq<usize>,
    phase: Phase,
)
    requires
        !prios.contains(spec_priority(tasks[e as int], phase)),
    ensures
        spec_groups_concat(tasks, idxs.push(e), prios, phase) == spec_groups_concat(
            tasks,
            idxs,
            prios,
            phase,
        ),
    decreases prios.len(),
{
    if prios.len() > 0 {
        assert(prios[0] != spec_priority(tasks[e as int], phase)) by {
            if prios[0] == spec_priority(tasks[e as int], phase) {
                assert(prios.contains(prios[0]));
            }
        }
        lemma_group_push(tasks, idxs, e, phase, prios[0]);
        assert forall|q: usize| prios.skip(1).contains(q) implies prios.contains(q) by {
            let k = choose|k: int| 0 <= k < prios.skip(1).len() && prios.skip(1)[k] == q;
            assert(prios[k + 1] == q);
        }
        lemma_groups_concat_same(tasks, idxs, e, prios.skip(1), phase);
        assert(spec_group(tasks, idxs.push(e), phase, prios[0]) =~= spec_group(
            tasks,
            idxs,
            phase,
            prios[0],
        ) + Seq::<usize>::empty());
        assert(spec_group(tasks, idxs.push(e), phase, prios[0]) =~= spec_group(
            tasks,
            idxs,
            phase,
            prios[0],
        ));
        assert(spec_groups_concat(tasks, idxs.push(e), prios, phase) =~= spec_groups_concat(
            tasks,
            idxs,
            prios,
            phase,
        ));
    } else {
        assert(spec_groups_concat(tasks, idxs.push(e), prios, phase) =~= spec_groups_concat(
            tasks,
            idxs,
            prios,
            phase,
        ));
    }
}

/// A group for a priority no index carries is empty.
proof fn lemma_group_empty(tasks: Seq<Task>, idxs: Seq<usize>, phase: Phase, p: usize)
    requires
        forall|k: int|
            0 <= k < idxs.len() ==> spec_priority(tasks[(#[trigger] idxs[k]) as int], phase) != p,
    ensures
        spec_group(tasks, idxs, phase, p) == Seq::<usize>::empty(),
    decreases idxs.len(),
{
    if idxs.len() > 0 {
        assert forall|k: int| 0 <= k < idxs.drop_last().len() implies spec_priority(
            tasks[(#[trigger] idxs.drop_last()[k]) as int],
            phase,
        ) != p by {
            assert(idxs.drop_last()[k] == idxs[k]);
        }
        lemma_group_empty(tasks, idxs.drop_last(), phase, p);
        assert(spec_priority(tasks[(idxs[idxs.len() - 1]) as int], phase) != p);
        assert(spec_group(tasks, idxs, phase, p) =~= Seq::<usize>::empty());
    }
}

/// Inserting a priority whose group is empty, or one already present,
/// leaves the concatenation of groups unchanged as a multiset.
proof fn lemma_groups_concat_insert(
    tasks: Seq<Task>,
    idxs: Seq<usize>,
    prios: Seq<usize>,
    p: usize,
    phase: Phase,
)
    requires
        forall|x: int, y: int| 0 <= x < y < prios.len() ==> prios[x] < prios[y],
        prios.contains(p) || spec_group(tasks, idxs, phase, p) == Seq::<usize>::empty(),
    ensures
        spec_groups_concat(tasks, idxs, spec_insert_priority(prios, p), phase).to_multiset()
            == spec_groups_concat(tasks, idxs, prios, phase).to_multiset(),
    decreases prios.len(),
{
    broadcast use vstd::seq_lib::lemma_multiset_commutative;
    broadcast use vstd::multiset::group_multiset_axioms;

    let r = spec_insert_priority(prios, p);
    if prios.len() == 0 {
        assert(!prios.contains(p));
        assert(r =~= seq![p]);
        assert(r[0] == p);
        assert(r.skip(1) =~= Seq::<usize>::empty());
        assert(spec_groups_concat(tasks, idxs, r, phase) == spec_group(tasks, idxs, phase, r[0])
            + spec_groups_concat(tasks, idxs, r.skip(1), phase));
        assert(spec_groups_concat(tasks, idxs, Seq::<usize>::empty(), phase)
            =~= Seq::<usize>::empty());
        assert(spec_groups_concat(tasks, idxs, r, phase) =~= spec_group(tasks, idxs, phase, p));
        assert(spec_groups_concat(tasks, idxs, r, phase).to_multiset() =~= spec_groups_concat(
            tasks,
            idxs,
            prios,
            phase,
        ).to_multiset());
    } else if p < prios[0] {
        assert(!prios.contains(p)) by {
            if prios.contains(p) {
                let k = choose|k: int| 0 <= k < prios.len() && prios[k] == p;
                if k > 0 {
                    assert(prios[0] < prios[k]);
                }
            }
        }
        assert(r == seq![p] + prios);
        assert(r[0] == p);
        assert(r.skip(1) =~= prios);
        assert(spec_groups_concat(tasks, idxs, r, phase) == spec_group(tasks, idxs, phase, r[0])
            + spec_groups_concat(tasks, idxs, r.skip(1), phase));
        assert(spec_groups_concat(tasks, idxs, r, phase) =~= spec_groups_concat(
            tasks,
            idxs,
            prios,
            phase,
        ));
    } else if p == prios[0] {
    } else {
        assert forall|x: int, y: int| 0 <= x < y < prios.skip(1).len() implies prios.skip(
            1,
        )[x] < prios.skip(1)[y] by {
            assert(prios.skip(1)[x] == prios[x + 1]);
            assert(prios.skip(1)[y] == prios[y + 1]);
        }
        if prios.contains(p) {
            let k = choose|k: int| 0 <= k < prios.len() && prios[k] == p;
            assert(k > 0);
            assert(prios.skip(1)[k - 1] == p);
            assert(prios.skip(1).contains(p));
        }
        lemma_groups_concat_insert(tasks, idxs, prios.skip(1), p, phase);
        assert(r == seq![prios[0]] + spec_insert_priority(prios.skip(1), p));
        assert(r[0] == prios[0]);
        assert(r.skip(1) =~= spec_insert_priority(prios.skip(1), p));
        assert(spec_groups_concat(tasks, idxs, r, phase).to_multiset() =~= spec_groups_concat(
            tasks,
            idxs,
            prios,
            phase,
        ).to_multiset());
    }
}

/// The groups of the distinct priorities partition the filtered
/// indices: together they hold each exactly once.
proof fn lemma_groups_partition(tasks: Seq<Task>, idxs: Seq<usize>, phase: Phase)
    ensures
        spec_groups_concat(
            tasks,
            idxs,
            spec_priorities(tasks, idxs, phase),
            phase,
        ).to_multiset() == idxs.to_multiset(),
    decreases idxs.len(),
{
    broadcast use vstd::seq_lib::group_to_multiset_ensures;

    let prios = spec_priorities(tasks, idxs, phase);
    if idxs.len() == 0 {
        assert(spec_groups_concat(tasks, idxs, prios, phase) =~= Seq::<usize>::empty());
        assert(spec_groups_concat(tasks, idxs, prios, phase).to_multiset()
            =~= idxs.to_multiset());
    } else {
        let rest = idxs.drop_last();
        let e = idxs.last();
        let pe = spec_priority(tasks[e as int], phase);
        let prev = spec_priorities(tasks, rest, phase);
        lemma_priorities_props(tasks, rest, phase);
        lemma_insert_priority_props(prev, pe);
        lemma_priorities_props(tasks, idxs, phase);
        assert(prios == spec_insert_priority(prev, pe));
        assert(prios.contains(pe));
        lemma_groups_concat_push(tasks, rest, e, prios, phase);
        assert(rest.push(e) =~= idxs);
        if !prev.contains(pe) {
            assert forall|k: int| 0 <= k < rest.len() implies spec_priority(
                tasks[(#[trigger] rest[k]) as int],
                phase,
            ) != pe by {
                if spec_priority(tasks[(rest[k]) as int], phase) == pe {
                    assert(prev.contains(pe));
                }
            }
            lemma_group_empty(tasks, rest, phase, pe);
        }
        lemma_groups_concat_insert(tasks, rest, prev, pe, phase);
        lemma_groups_partition(tasks, rest, phase);
        assert(idxs.to_multiset() =~= rest.to_multiset().insert(e));
    }
}

/// Every task scheduled for a phase stands in the plan's batches
/// exactly once: taken together, the batches hold exactly the eligible
/// task indices.
pub proof fn lemma_plan_members_exactly_eligible(
    tasks: Seq<Task>,
    active: Seq<String>,
    phase: Phase,
)
    ensures
        spec_plan_members(spec_plan(tasks, active, phase)).to_multiset() == spec_eligible(
            tasks,
            active,
            phase,
        ).to_multiset(),
{
    let idxs = spec_eligible(tasks, active, phase);
    lemma_phase_members(tasks, idxs, spec_priorities(tasks, idxs, phase), phase);
    lemma_groups_partition(tasks, idxs, phase);
}

/// The eligible indices are strictly ascending, so none repeats and
/// each names a scheduled task; an index is among them exactly when
/// its task is scheduled.
pub proof fn lemma_eligible_exactly_scheduled(tasks: Seq<Task>, active: Seq<String>, phase: Phase)
    requires
        tasks.len() <= usize::MAX,
    ensures
        ({
            let idxs = spec_eligible(tasks, active, phase);
            &&& forall|x: int, y: int| 0 <= x < y < idxs.len() ==> idxs[x] < idxs[y]
            &&& forall|k: int|
                0 <= k < idxs.len() ==> spec_scheduled(
                    tasks,
                    active,
                    phase,
                    (#[trigger] idxs[k]) as int,
                )
            &&& forall|i: int|
                spec_scheduled(tasks, active, phase, i) ==> idxs.contains(i as usize)
        }),
    decreases tasks.len(),
{
    let idxs = spec_eligible(tasks, active, phase);
    if tasks.len() > 0 {
        lemma_eligible_exactly_scheduled(tasks.drop_last(), active, phase);
        let prev = spec_eligible(tasks.drop_last(), active, phase);
        let e = (tasks.len() - 1) as usize;
        let tail: Seq<usize> = if spec_selected(tasks.last(), active) && spec_applicable(
            tasks.last(),
            phase,
        ) {
            seq![e]
        } else {
            Seq::<usize>::empty()
        };
        assert(idxs == prev + tail);
        assert forall|k: int| 0 <= k < prev.len() implies (#[trigger] prev[k]) < tasks.len()
            - 1 by {
            assert(spec_scheduled(tasks.drop_last(), active, phase, prev[k] as int));
        }
        assert forall|x: int, y: int| 0 <= x < y < idxs.len() implies idxs[x] < idxs[y] by {
            if y < prev.len() {
                assert(idxs[x] == prev[x]);
                assert(idxs[y] == prev[y]);
            } else {
                assert(tail.len() == 1);
                assert(idxs[y] == e);
                assert(x < prev.len());
                assert(idxs[x] == prev[x]);
                assert(prev[x] < tasks.len() - 1);
            }
        }
        assert forall|k: int| 0 <= k < idxs.len() implies spec_scheduled(
            tasks,
            active,
            phase,
            (#[trigger] idxs[k]) as int,
        ) by {
            if k < prev.len() {
                assert(idxs[k] == prev[k]);
                assert(spec_scheduled(tasks.drop_last(), active, phase, prev[k] as int));
                assert(tasks.drop_last()[prev[k] as int] == tasks[prev[k] as int]);
            } else {
                assert(idxs[k] == e);
                assert(tasks[e as int] == tasks.last());
            }
        }
        assert forall|i: int| spec_scheduled(tasks, active, phase, i) implies idxs.contains(
            i as usize,
        ) by {
            if i < tasks.len() - 1 {
                assert(tasks.drop_last()[i] == tasks[i]);
                assert(spec_scheduled(tasks.drop_last(), active, phase, i));
                assert(prev.contains(i as usize));
                let k = choose|k: int| 0 <= k < prev.len() && prev[k] == i as usize;
                assert(idxs[k] == i as usize);
            } else {
                assert(i == tasks.len() - 1);
                assert(tasks[i] == tasks.last());
                assert(tail.len() == 1);
                assert(idxs[idxs.len() - 1] == e);
            }
        }
    }
}

/// Drives one phase's plan. Batches are handed out strictly in plan
/// order, one at a time: the caller must finish a batch completely —
/// joining every thread of a parallel batch — and report its outcome
/// before asking for the next, so a batch's side effects are visible
/// before any task of the next batch begins. After a reported failure
/// no further batch is handed out.
pub struct PhaseRunner {
    plan: Vec<Batch>,
    next: usize,
    failed: bool,
}

impl PhaseRunner {
    pub closed spec fn spec_plan_of(self) -> Seq<BatchView> {
        self.plan@.map_values(|b: Batch| b@)
    }

    /// How many batches have been handed out.
    pub closed spec fn spec_next(self) -> int {
        self.next as int
    }

    pub closed spec fn spec_failed(self) -> bool {
        self.failed
    }

    pub closed spec fn wf(self) -> bool {
        self.next <= self.plan@.len()
    }

    pub fn new(plan: Vec<Batch>) -> (r: Self)
        ensures
            r.wf(),
            r.spec_plan_of() == plan@.map_values(|b: Batch| b@),
            r.spec_next() == 0,
            !r.spec_failed(),
    {
        PhaseRunner { plan, next: 0, failed: false }
    }

    /// The next batch to execute, or nothing once the plan is exhausted
    /// or a failure was reported: a failing task abandons every
    /// remaining batch of its phase.
    pub fn next_batch(&mut self) -> (r: Option<Batch>)
        requires
            old(self).wf(),
        ensures
            final(self).wf(),
            final(self).spec_plan_of() == old(self).spec_plan_of(),
            final(self).spec_failed() == old(self).spec_failed(),
            old(self).spec_failed() || old(self).spec_next() == old(self).spec_plan_of().len()
                ==> r is None && final(self).spec_next() == old(self).spec_next(),
            !old(self).spec_failed() && old(self).spec_next() < old(self).spec_plan_of().len()
                ==> r is Some && r.unwrap()@ == old(self).spec_plan_of()[old(self).spec_next()]
                && final(self).spec_next() == old(self).spec_next() + 1,
    {
        if self.failed || self.next == self.plan.len() {
            return None;
        }
        let b = &self.plan[self.next];
        let m = b.tasks.len();
        let mut tasks: Vec<usize> = Vec::new();
        let mut k: usize = 0;
        while k < m
            invariant
                m == b.tasks@.len(),
                k <= m,
                tasks@ == b.tasks@.take(k as int),
            decreases m - k,
        {
            tasks.push(b.tasks[k]);
            proof {
                assert(tasks@ =~= b.tasks@.take(k + 1 as int));
            }
            k = k + 1;
        }
        proof {
            assert(b.tasks@.take(m as int) =~= b.tasks@);
            assert(self.spec_plan_of()[self.next as int] == self.plan@[self.next as int]@);
        }
        let out = Batch { priority: b.priority, parallel: b.parallel, tasks };
        self.next = self.next + 1;
        Some(out)
    }

    /// Records the outcome of the batch just executed.
    pub fn report(&mut self, ok: bool)
        ensures
            final(self).spec_plan_of() == old(self).spec_plan_of(),
            final(self).spec_next() == old(self).spec_next(),
            final(self).spec_failed() == (old(self).spec_failed() || !ok),
            final(self).wf() == old(self).wf(),
    {
        if !ok {
            self.failed = true;
        }
    }

    pub fn has_failed(&self) -> (r: bool)
        ensures
            r == self.spec_failed(),
    {
        self.failed
    }
}

/// Where a run stands. The stages are strictly ordered: pre-build
/// tasks, the external packaging step, post-build tasks.
#[derive(Clone, Copy, PartialEq, Eq, Structural, Debug)]
pub enum PipelineStage {
    PreBuild,
    Packaging,
    PostBuild,
    Done,
    Aborted,
}

/// The stage after one step's outcome: a failure anywhere abandons the
/// run, so a failed pre-build phase keeps the packaging step and every
/// post-build task from running.
pub open spec fn spec_advance_pipeline(stage: PipelineStage, succeeded: bool) -> PipelineStage {
    match stage {
        PipelineStage::PreBuild => if succeeded {
            PipelineStage::Packaging
        } else {
            PipelineStage::Aborted
        },
        PipelineStage::Packaging => if succeeded {
            PipelineStage::PostBuild
        } else {
            PipelineStage::Aborted
        },
        PipelineStage::PostBuild => if succeeded {
            PipelineStage::Done
        } else {
            PipelineStage::Aborted
        },
        PipelineStage::Done => PipelineStage::Done,
        PipelineStage::Aborted => PipelineStage::Aborted,
    }
}

pub fn advance_pipeline(stage: PipelineStage, succeeded: bool) -> (r: PipelineStage)
    ensures
        r == spec_advance_pipeline(stage, succeeded),
{
    match stage {
        PipelineStage::PreBuild => if succeeded {
            PipelineStage::Packaging
        } else {
            PipelineStage::Aborted
        },
        PipelineStage::Packaging => if succeeded {
            PipelineStage::PostBuild
        } else {
            PipelineStage::Aborted
        },
        PipelineStage::PostBuild => if succeeded {
            PipelineStage::Done
        } else {
            PipelineStage::Aborted
        },
        PipelineStage::Done => PipelineStage::Done,
        PipelineStage::Aborted => PipelineStage::Aborted,
    }
}

} // verus!
