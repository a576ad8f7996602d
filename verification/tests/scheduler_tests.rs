use renkit::renconstruct::config::{
    ConvertImagesOptions, CustomOptions, GeneralTaskOptions, HookSet, ImageFormat,
    KeystoreOptions, LintOptions, NotarizeOptions, PriorityOptions, Task, TaskOptions,
};
use renkit::renconstruct::scheduler::{
    advance_pipeline, plan_phase, Phase, PhaseRunner, PipelineStage,
};

fn lint() -> TaskOptions {
    TaskOptions::Lint(LintOptions {})
}

fn keystore() -> TaskOptions {
    TaskOptions::Keystore(KeystoreOptions {
        keystore_apk: "QQ==".to_string(),
        keystore_aab: "QQ==".to_string(),
        alias: None,
        password: None,
    })
}

fn convert() -> TaskOptions {
    TaskOptions::ConvertImages(ConvertImagesOptions {
        format: ImageFormat::WebP,
        avif_quality: 85,
        webp_quality: 90,
        paths: vec![],
    })
}

fn notarize() -> TaskOptions {
    TaskOptions::Notarize(NotarizeOptions {
        bundle_id: "com.example.game".to_string(),
        key_file: "key.pem".to_string(),
        cert_file: "cert.der".to_string(),
        app_store_key_file: "key.json".to_string(),
    })
}

fn custom(hooks: HookSet) -> TaskOptions {
    TaskOptions::Custom(CustomOptions { hooks, options: vec![] })
}

fn task(name: &str, sandboxed: bool, pre: usize, post: usize, options: TaskOptions) -> Task {
    Task {
        name: name.to_string(),
        kind: GeneralTaskOptions {
            enabled: true,
            on_builds: vec![],
            sandboxed,
            priorities: PriorityOptions { pre_build: pre, post_build: post },
            options,
        },
    }
}

fn active() -> Vec<String> {
    vec!["pc".to_string(), "mac".to_string()]
}

#[test]
fn lower_priority_group_runs_in_earlier_batches() {
    let tasks = vec![
        task("late", false, 2, 0, convert()),
        task("early", false, 1, 0, convert()),
    ];
    let plan = plan_phase(&tasks, &active(), Phase::PreBuild);
    assert_eq!(plan.len(), 2);
    assert_eq!(plan[0].priority, 1);
    assert_eq!(plan[0].tasks, vec![1]);
    assert_eq!(plan[1].priority, 2);
    assert_eq!(plan[1].tasks, vec![0]);
}

#[test]
fn sandboxed_siblings_share_one_parallel_batch() {
    let tasks = vec![
        task("a", true, 0, 0, convert()),
        task("b", true, 0, 0, convert()),
    ];
    let plan = plan_phase(&tasks, &active(), Phase::PreBuild);
    assert_eq!(plan.len(), 1);
    assert!(plan[0].parallel);
    assert_eq!(plan[0].tasks, vec![0, 1]);
}

#[test]
fn lone_sandboxed_task_runs_sequentially() {
    let tasks = vec![task("a", true, 0, 0, convert())];
    let plan = plan_phase(&tasks, &active(), Phase::PreBuild);
    assert_eq!(plan.len(), 1);
    assert!(!plan[0].parallel);
    assert_eq!(plan[0].tasks, vec![0]);
}

#[test]
fn interleaved_flag_splits_sandbox_runs() {
    // A non-sandboxed task between two sandboxed ones at the same
    // priority splits them into separate runs: nothing runs in parallel.
    let tasks = vec![
        task("a", true, 0, 0, convert()),
        task("b", false, 0, 0, convert()),
        task("c", true, 0, 0, convert()),
    ];
    let plan = plan_phase(&tasks, &active(), Phase::PreBuild);
    assert_eq!(plan.len(), 3);
    assert!(plan.iter().all(|b| !b.parallel));
    assert_eq!(plan[0].tasks, vec![0]);
    assert_eq!(plan[1].tasks, vec![1]);
    assert_eq!(plan[2].tasks, vec![2]);
}

#[test]
fn equal_priority_keeps_configured_order() {
    let tasks = vec![
        task("first", false, 3, 0, convert()),
        task("second", false, 3, 0, keystore()),
        task("third", false, 3, 0, lint()),
    ];
    let plan = plan_phase(&tasks, &active(), Phase::PreBuild);
    assert_eq!(plan.len(), 3);
    assert_eq!(plan[0].tasks, vec![0]);
    assert_eq!(plan[1].tasks, vec![1]);
    assert_eq!(plan[2].tasks, vec![2]);
}

#[test]
fn phase_applicability_by_kind() {
    let tasks = vec![
        task("lint", false, 0, 0, lint()),
        task("keys", false, 0, 0, keystore()),
        task("images", false, 0, 0, convert()),
        task("staple", false, 0, 0, notarize()),
    ];
    let pre = plan_phase(&tasks, &active(), Phase::PreBuild);
    let pre_members: Vec<usize> = pre.iter().flat_map(|b| b.tasks.clone()).collect();
    assert_eq!(pre_members, vec![0, 1, 2]);
    let post = plan_phase(&tasks, &active(), Phase::PostBuild);
    let post_members: Vec<usize> = post.iter().flat_map(|b| b.tasks.clone()).collect();
    assert_eq!(post_members, vec![1, 3]);
}

#[test]
fn custom_tasks_follow_their_hooks() {
    let tasks = vec![
        task("pre-only", false, 0, 0, custom(HookSet::HasPre)),
        task("post-only", false, 0, 0, custom(HookSet::HasPost)),
        task("both", false, 0, 0, custom(HookSet::HasBoth)),
        task("neither", false, 0, 0, custom(HookSet::HasNeither)),
    ];
    let pre = plan_phase(&tasks, &active(), Phase::PreBuild);
    let pre_members: Vec<usize> = pre.iter().flat_map(|b| b.tasks.clone()).collect();
    assert_eq!(pre_members, vec![0, 2]);
    let post = plan_phase(&tasks, &active(), Phase::PostBuild);
    let post_members: Vec<usize> = post.iter().flat_map(|b| b.tasks.clone()).collect();
    assert_eq!(post_members, vec![1, 2]);
}

#[test]
fn disabled_or_foreign_tasks_are_not_scheduled() {
    let mut disabled = task("off", false, 0, 0, convert());
    disabled.kind.enabled = false;
    let mut foreign = task("foreign", false, 0, 0, convert());
    foreign.kind.on_builds = vec!["web".to_string()];
    let mut matching = task("matching", false, 0, 0, convert());
    matching.kind.on_builds = vec!["web".to_string(), "pc".to_string()];
    let tasks = vec![disabled, foreign, matching];
    let plan = plan_phase(&tasks, &active(), Phase::PreBuild);
    assert_eq!(plan.len(), 1);
    assert_eq!(plan[0].tasks, vec![2]);
}

#[test]
fn runner_hands_out_batches_in_order() {
    let tasks = vec![
        task("a", false, 1, 0, convert()),
        task("b", false, 2, 0, convert()),
    ];
    let plan = plan_phase(&tasks, &active(), Phase::PreBuild);
    let mut runner = PhaseRunner::new(plan);
    let first = runner.next_batch().unwrap();
    assert_eq!(first.tasks, vec![0]);
    runner.report(true);
    let second = runner.next_batch().unwrap();
    assert_eq!(second.tasks, vec![1]);
    runner.report(true);
    assert!(runner.next_batch().is_none());
    assert!(!runner.has_failed());
}

#[test]
fn failure_abandons_remaining_batches() {
    // A task error in an early batch keeps every later batch of the
    // phase from starting.
    let tasks = vec![
        task("a", false, 1, 0, convert()),
        task("b", false, 2, 0, convert()),
    ];
    let plan = plan_phase(&tasks, &active(), Phase::PreBuild);
    let mut runner = PhaseRunner::new(plan);
    let first = runner.next_batch().unwrap();
    assert_eq!(first.tasks, vec![0]);
    runner.report(false);
    assert!(runner.next_batch().is_none());
    assert!(runner.has_failed());
}

#[test]
fn failed_pre_build_blocks_packaging() {
    assert_eq!(
        advance_pipeline(PipelineStage::PreBuild, false),
        PipelineStage::Aborted
    );
    assert_eq!(
        advance_pipeline(PipelineStage::Aborted, true),
        PipelineStage::Aborted
    );
}

#[test]
fn clean_run_walks_all_stages() {
    let s = advance_pipeline(PipelineStage::PreBuild, true);
    assert_eq!(s, PipelineStage::Packaging);
    let s = advance_pipeline(s, true);
    assert_eq!(s, PipelineStage::PostBuild);
    let s = advance_pipeline(s, true);
    assert_eq!(s, PipelineStage::Done);
    let s = advance_pipeline(s, true);
    assert_eq!(s, PipelineStage::Done);
}
