use renkit::renconstruct::config::{
    ConfigError, CustomOptions, GeneralTaskOptions, HookSet, PriorityOptions, Task, TaskOptions,
};
use renkit::renconstruct::plugin::{bind_custom_tasks, DiscoveredTask};
use renkit::renconstruct::scheduler::{plan_phase, Phase};

fn custom_task(name: &str) -> Task {
    Task {
        name: name.to_string(),
        kind: GeneralTaskOptions {
            enabled: true,
            on_builds: vec![],
            sandboxed: false,
            priorities: PriorityOptions { pre_build: 0, post_build: 0 },
            options: TaskOptions::Custom(CustomOptions {
                hooks: HookSet::HasNeither,
                options: vec![],
            }),
        },
    }
}

fn discovered(slug: &str, has_pre: bool, has_post: bool) -> DiscoveredTask {
    DiscoveredTask {
        name: slug.to_string(),
        name_slug: slug.to_string(),
        has_pre,
        has_post,
    }
}

#[test]
fn pre_only_class_runs_pre_and_is_absent_from_post() {
    let mut tasks = vec![custom_task("watermark")];
    let classes = vec![discovered("watermark", true, false)];
    bind_custom_tasks(&mut tasks, &classes).unwrap();
    match &tasks[0].kind.options {
        TaskOptions::Custom(c) => assert_eq!(c.hooks, HookSet::HasPre),
        _ => panic!("task kind changed"),
    }
    let active = vec!["pc".to_string()];
    let pre = plan_phase(&tasks, &active, Phase::PreBuild);
    assert_eq!(pre.len(), 1);
    assert_eq!(pre[0].tasks, vec![0]);
    let post = plan_phase(&tasks, &active, Phase::PostBuild);
    assert!(post.is_empty());
}

#[test]
fn hooks_record_what_the_instance_exposes() {
    let mut tasks = vec![
        custom_task("a"),
        custom_task("b"),
        custom_task("c"),
        custom_task("d"),
    ];
    let classes = vec![
        discovered("a", false, false),
        discovered("b", true, false),
        discovered("c", false, true),
        discovered("d", true, true),
    ];
    bind_custom_tasks(&mut tasks, &classes).unwrap();
    let hooks: Vec<HookSet> = tasks
        .iter()
        .map(|t| match &t.kind.options {
            TaskOptions::Custom(c) => c.hooks,
            _ => panic!("task kind changed"),
        })
        .collect();
    assert_eq!(
        hooks,
        vec![HookSet::HasNeither, HookSet::HasPre, HookSet::HasPost, HookSet::HasBoth]
    );
}

#[test]
fn unmatched_custom_task_is_a_configuration_error() {
    let mut tasks = vec![custom_task("missing")];
    let classes = vec![discovered("other", true, true)];
    assert_eq!(
        bind_custom_tasks(&mut tasks, &classes),
        Err(ConfigError::UnmatchedCustomTask { task_name: "missing".to_string() })
    );
    // Nothing was bound.
    match &tasks[0].kind.options {
        TaskOptions::Custom(c) => assert_eq!(c.hooks, HookSet::HasNeither),
        _ => panic!("task kind changed"),
    }
}

#[test]
fn binding_leaves_other_tasks_alone() {
    let mut tasks = vec![
        Task {
            name: "lint".to_string(),
            kind: GeneralTaskOptions {
                enabled: true,
                on_builds: vec![],
                sandboxed: false,
                priorities: PriorityOptions { pre_build: 0, post_build: 0 },
                options: TaskOptions::Lint(renkit::renconstruct::config::LintOptions {}),
            },
        },
        custom_task("hook"),
    ];
    let classes = vec![discovered("hook", true, false)];
    bind_custom_tasks(&mut tasks, &classes).unwrap();
    assert!(matches!(tasks[0].kind.options, TaskOptions::Lint(_)));
    assert_eq!(tasks[1].name, "hook");
}
