use renkit::renconstruct::resolver::OutputEntry;
use renkit::renotize::{
    app_bundles, dmg_volume_name, full_run_plan, poll_decision, NotarizeError, NotarizeStep,
    PollAction,
};

#[test]
fn poll_waits_until_the_service_finishes() {
    assert_eq!(poll_decision(true, 0, 1800), PollAction::Wait);
    assert_eq!(poll_decision(true, 1799, 1800), PollAction::Wait);
    assert_eq!(poll_decision(true, 1800, 1800), PollAction::TimedOut);
    assert_eq!(poll_decision(false, 0, 1800), PollAction::Finished);
    assert_eq!(poll_decision(false, 5000, 1800), PollAction::Finished);
}

#[test]
fn full_run_steps_for_a_zipped_app() {
    let plan = full_run_plan(true, true, true, true);
    assert_eq!(plan, vec![
        NotarizeStep::UnpackApp,
        NotarizeStep::SignApp,
        NotarizeStep::NotarizeApp,
        NotarizeStep::PackZip,
        NotarizeStep::NotarizeZip,
        NotarizeStep::PackDmg,
        NotarizeStep::SignDmg,
        NotarizeStep::NotarizeDmg,
    ]);
}

#[test]
fn full_run_skips_what_was_not_asked_for() {
    let plan = full_run_plan(false, false, false, true);
    assert_eq!(plan, vec![NotarizeStep::SignApp, NotarizeStep::NotarizeApp]);
}

#[test]
fn disk_images_need_the_mac_host() {
    let plan = full_run_plan(false, false, true, false);
    assert_eq!(plan, vec![NotarizeStep::SignApp, NotarizeStep::NotarizeApp]);
    let plan = full_run_plan(false, false, true, true);
    assert_eq!(plan, vec![
        NotarizeStep::SignApp,
        NotarizeStep::NotarizeApp,
        NotarizeStep::PackDmg,
        NotarizeStep::SignDmg,
        NotarizeStep::NotarizeDmg,
    ]);
}

#[test]
fn volume_name_comes_from_the_bundle() {
    assert_eq!(
        dmg_volume_name("MyGame.app", None).unwrap(),
        "MyGame"
    );
    assert_eq!(
        dmg_volume_name("MyGame.app", Some("Custom".to_string())).unwrap(),
        "Custom"
    );
    assert_eq!(
        dmg_volume_name("MyGame.zip", None),
        Err(NotarizeError::NotAppBundle)
    );
}

#[test]
fn app_bundles_among_entries() {
    let entries = vec![
        OutputEntry {
            file_name: "MyGame.app".to_string(),
            path: "/out/MyGame.app".to_string(),
            is_file: false,
        },
        OutputEntry {
            file_name: "readme.txt".to_string(),
            path: "/out/readme.txt".to_string(),
            is_file: true,
        },
    ];
    assert_eq!(app_bundles(&entries), vec!["/out/MyGame.app"]);
}
