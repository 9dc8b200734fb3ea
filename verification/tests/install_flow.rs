use bonelab_mod_manager::install::{
    outcome_of, plan_install, record_install, require_content_length, InstallPlan, InstallTask,
    ModError, ModState, StateClass, Subscription,
};
use bonelab_mod_manager::manifest::{InstalledMod, Manifest};
use bonelab_mod_manager::platform::{HostOs, Platform};

fn record(mod_id: u32, date_updated: u64, folder: &[u8]) -> InstalledMod {
    InstalledMod {
        mod_id,
        date_updated,
        folder: folder.to_vec(),
    }
}

fn sub(mod_id: u32, date_updated: u64) -> Subscription {
    Subscription {
        mod_id,
        date_updated,
        platform_files: vec![(Platform::Windows, 900), (Platform::Quest, 901)],
    }
}

fn manifest(records: Vec<InstalledMod>) -> Manifest {
    Manifest {
        secret_chunk_count: 0,
        records,
    }
}

#[test]
fn up_to_date_mod_is_already_installed() {
    let m = manifest(vec![record(42, 100, b"ModA")]);
    match plan_install(&m, &sub(42, 90), Platform::Quest) {
        Ok(InstallPlan::AlreadyInstalled) => {}
        _ => panic!("expected AlreadyInstalled"),
    }
}

#[test]
fn equal_timestamps_count_as_up_to_date() {
    // The tie-break: an exactly equal timestamp yields AlreadyInstalled,
    // never an update.
    let m = manifest(vec![record(42, 100, b"ModA")]);
    match plan_install(&m, &sub(42, 100), Platform::Quest) {
        Ok(InstallPlan::AlreadyInstalled) => {}
        _ => panic!("expected AlreadyInstalled on equal timestamps"),
    }
}

#[test]
fn older_record_is_updated() {
    let m = manifest(vec![record(42, 100, b"ModA")]);
    match plan_install(&m, &sub(42, 200), Platform::Quest) {
        Ok(InstallPlan::Fetch { file_id, updating }) => {
            assert_eq!(file_id, 901);
            assert!(updating);
        }
        _ => panic!("expected Fetch"),
    }
}

#[test]
fn unknown_mod_is_installed_fresh() {
    let m = manifest(vec![]);
    match plan_install(&m, &sub(42, 100), Platform::Windows) {
        Ok(InstallPlan::Fetch { file_id, updating }) => {
            assert_eq!(file_id, 900);
            assert!(!updating);
        }
        _ => panic!("expected Fetch"),
    }
}

#[test]
fn missing_platform_file_fails() {
    let m = manifest(vec![]);
    let s = Subscription {
        mod_id: 1,
        date_updated: 5,
        platform_files: vec![(Platform::Windows, 900)],
    };
    match plan_install(&m, &s, Platform::Quest) {
        Err(ModError::NoPlatformFile) => {}
        _ => panic!("expected NoPlatformFile"),
    }
}

#[test]
fn first_matching_platform_file_wins() {
    let m = manifest(vec![]);
    let s = Subscription {
        mod_id: 1,
        date_updated: 5,
        platform_files: vec![
            (Platform::Windows, 900),
            (Platform::Quest, 901),
            (Platform::Quest, 902),
        ],
    };
    match plan_install(&m, &s, Platform::Quest) {
        Ok(InstallPlan::Fetch { file_id, .. }) => assert_eq!(file_id, 901),
        _ => panic!("expected Fetch"),
    }
}

#[test]
fn content_length_is_required() {
    assert_eq!(require_content_length(Some(1024)).unwrap(), 1024);
    match require_content_length(None) {
        Err(ModError::MissingContentLength) => {}
        _ => panic!("expected MissingContentLength"),
    }
}

#[test]
fn record_install_inserts_and_reports_state() {
    let mut m = manifest(vec![record(42, 100, b"ModA")]);
    let s = sub(43, 70);
    let st = record_install(&mut m, &s, false, b"ModB".to_vec());
    assert!(matches!(st, ModState::Installed));
    assert_eq!(m.records.len(), 2);
    let i = m.find(43).unwrap();
    assert_eq!(m.records[i].date_updated, 70);
    assert_eq!(m.records[i].folder, b"ModB".to_vec());
}

#[test]
fn record_install_overwrites_and_reports_updated() {
    let mut m = manifest(vec![record(42, 100, b"ModA")]);
    let s = sub(42, 200);
    let st = record_install(&mut m, &s, true, b"ModA2".to_vec());
    assert!(matches!(st, ModState::Updated));
    assert_eq!(m.records.len(), 1);
    let i = m.find(42).unwrap();
    assert_eq!(m.records[i].date_updated, 200);
    assert_eq!(m.records[i].folder, b"ModA2".to_vec());
}

#[test]
fn install_is_idempotent_after_success() {
    // Running again with an unchanged subscription finds the freshly
    // recorded timestamp and plans no work.
    let mut m = manifest(vec![]);
    let s = sub(42, 100);
    match plan_install(&m, &s, Platform::Quest) {
        Ok(InstallPlan::Fetch { updating, .. }) => {
            let st = record_install(&mut m, &s, updating, b"ModA".to_vec());
            assert!(matches!(st, ModState::Installed));
        }
        _ => panic!("expected Fetch on first run"),
    }
    match plan_install(&m, &s, Platform::Quest) {
        Ok(InstallPlan::AlreadyInstalled) => {}
        _ => panic!("expected AlreadyInstalled on second run"),
    }
}

#[test]
fn outcome_folds_errors_to_failed() {
    assert!(matches!(
        outcome_of(&Ok(ModState::Updated)),
        ModState::Updated
    ));
    assert!(matches!(
        outcome_of(&Err(ModError::BadArchive)),
        ModState::Failed
    ));
    assert!(matches!(
        outcome_of(&Err(ModError::Transport(String::from("connection reset")))),
        ModState::Failed
    ));
}

#[test]
fn task_tracks_progress_and_state() {
    let mut t = InstallTask::new(42);
    assert!(matches!(t.state, ModState::Checking));
    assert_eq!(t.bytes_received, 0);
    t.set_state(ModState::Downloading);
    t.set_total_bytes(1000);
    t.add_bytes(400);
    t.add_bytes(600);
    assert_eq!(t.bytes_received, 1000);
    assert_eq!(t.bytes_total, 1000);
    t.fail();
    assert!(matches!(t.state, ModState::Failed));
}

#[test]
fn state_labels_match_display_names() {
    assert_eq!(ModState::Checking.label(), "Checking");
    assert_eq!(ModState::Downloading.label(), "Downloading");
    assert_eq!(ModState::Installing.label(), "Installing");
    assert_eq!(ModState::Updating.label(), "Updating");
    assert_eq!(ModState::Installed.label(), "Installed");
    assert_eq!(ModState::Updated.label(), "Updated");
    assert_eq!(ModState::AlreadyInstalled.label(), "Already installed");
    assert_eq!(ModState::Failed.label(), "Failed");
}

#[test]
fn terminal_states_and_classes() {
    assert!(!ModState::Checking.is_terminal());
    assert!(!ModState::Downloading.is_terminal());
    assert!(!ModState::Installing.is_terminal());
    assert!(!ModState::Updating.is_terminal());
    assert!(ModState::Installed.is_terminal());
    assert!(ModState::Updated.is_terminal());
    assert!(ModState::AlreadyInstalled.is_terminal());
    assert!(ModState::Failed.is_terminal());
    assert!(matches!(ModState::Downloading.class(), StateClass::Active));
    assert!(matches!(ModState::Updated.class(), StateClass::Done));
    assert!(matches!(ModState::Failed.class(), StateClass::Failed));
}

#[test]
fn platform_codes_and_labels() {
    assert!(matches!(Platform::from_code(0), Some(Platform::Windows)));
    assert!(matches!(Platform::from_code(1), Some(Platform::Quest)));
    assert!(Platform::from_code(2).is_none());
    assert_eq!(Platform::Windows.label(), "Windows");
    assert_eq!(Platform::Quest.label(), "Quest");
}

#[test]
fn host_strategy_targets_and_limits() {
    assert!(matches!(
        HostOs::Linux.target_platform(None),
        Some(Platform::Quest)
    ));
    assert!(matches!(
        HostOs::MacOs.target_platform(Some(Platform::Windows)),
        Some(Platform::Quest)
    ));
    assert!(matches!(
        HostOs::Windows.target_platform(Some(Platform::Windows)),
        Some(Platform::Windows)
    ));
    assert!(HostOs::Windows.target_platform(None).is_none());
    assert!(HostOs::Windows.secret_chunk_limit() >= 1);
    assert!(HostOs::MacOs.secret_chunk_limit() > HostOs::Windows.secret_chunk_limit());
    assert!(HostOs::Linux.secret_chunk_limit() > HostOs::MacOs.secret_chunk_limit());
}

#[test]
fn mod_error_messages() {
    assert_eq!(
        ModError::NoPlatformFile.message(),
        "mod has no file for the target platform"
    );
    assert_eq!(
        ModError::Transport(String::from("timed out")).message(),
        "timed out"
    );
}
