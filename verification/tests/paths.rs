use command_runner::paths::{
    app_dir, begin_provisioning, config_path, create_error, factory_marker_path, files_dir,
    key_path, provision_factory_config, FactoryFile, InDir, ProvisionAction, ProvisionEvent,
    ProvisionStage,
};

const INCOMPLETE: &str =
    "encrypted factory configuration is missing or incomplete; reinstall the application";

fn pair<D>(path: Result<InDir<D>, String>) -> Result<(D, String), String> {
    path.map(|p| (p.dir, p.name))
}

#[test]
fn the_program_folder_is_that_of_the_executable() {
    assert_eq!(app_dir(Ok(Some("dir"))), Ok("dir"));
    assert_eq!(
        app_dir::<&str>(Ok(None)),
        Err("cannot resolve executable directory".to_string())
    );
    assert_eq!(app_dir::<&str>(Err("gone".to_string())), Err("gone".to_string()));
}

#[test]
fn the_files_are_in_the_program_folder() {
    let ok = |name: &str| Ok(("dir", name.to_string()));
    assert_eq!(pair(config_path(Ok("dir"))), ok("command-runner.config.enc"));
    assert_eq!(pair(key_path(Ok("dir"))), ok(".command-runner.key"));
    assert_eq!(pair(factory_marker_path(Ok("dir"))), ok(".command-runner.factory-provisioned"));
    assert_eq!(pair(files_dir(Ok(Some("dir")))), ok("files"));
}

#[test]
fn without_a_folder_there_are_no_files() {
    let none = || -> Result<&str, String> { Err("gone".to_string()) };
    let gone = || -> Result<(&str, String), String> { Err("gone".to_string()) };
    assert_eq!(pair(config_path(none())), gone());
    assert_eq!(pair(key_path(none())), gone());
    assert_eq!(pair(factory_marker_path(none())), gone());
    assert_eq!(pair(files_dir(Err::<Option<&str>, String>("gone".to_string()))), gone());
    assert_eq!(
        pair(files_dir::<&str>(Ok(None))),
        Err("cannot resolve executable directory".to_string())
    );
}

#[test]
fn a_folder_that_cannot_be_created_is_named() {
    assert_eq!(create_error("C:\\x\\files", "denied"), "cannot create C:\\x\\files: denied");
}

/// The files of an installation, and what copying and writing come to.
struct Disk {
    config: bool,
    key: bool,
    marker: bool,
    can_copy_config: bool,
    can_copy_key: bool,
    can_mark: bool,
    written: Vec<String>,
}

fn disk(config: bool, key: bool, marker: bool) -> Disk {
    Disk {
        config,
        key,
        marker,
        can_copy_config: true,
        can_copy_key: true,
        can_mark: true,
        written: Vec::new(),
    }
}

fn done(can: bool) -> Result<(), String> {
    if can {
        Ok(())
    } else {
        Err("denied".to_string())
    }
}

fn provision(disk: &mut Disk) -> Result<(), String> {
    let (mut stage, mut action) = begin_provisioning();
    loop {
        let event = match action {
            ProvisionAction::Look(FactoryFile::Config) => ProvisionEvent::Seen(disk.config),
            ProvisionAction::Look(FactoryFile::Key) => ProvisionEvent::Seen(disk.key),
            ProvisionAction::Look(FactoryFile::Marker) => ProvisionEvent::Seen(disk.marker),
            ProvisionAction::Copy(FactoryFile::Config) => {
                if disk.can_copy_config {
                    disk.written.push("config".to_string());
                }
                ProvisionEvent::Written(done(disk.can_copy_config))
            }
            ProvisionAction::Copy(FactoryFile::Key) => {
                if disk.can_copy_key {
                    disk.written.push("key".to_string());
                }
                ProvisionEvent::Written(done(disk.can_copy_key))
            }
            ProvisionAction::Copy(FactoryFile::Marker) => unreachable!(),
            ProvisionAction::Mark(text) => {
                if disk.can_mark {
                    disk.written.push(format!("marker {}", text));
                }
                ProvisionEvent::Written(done(disk.can_mark))
            }
            ProvisionAction::Finish(outcome) => {
                assert_eq!(stage, ProvisionStage::Finished);
                return outcome;
            }
        };
        let (next_stage, next_action) = provision_factory_config(stage, event);
        stage = next_stage;
        action = next_action;
    }
}

#[test]
fn a_complete_installation_is_left_alone() {
    for marker in [false, true] {
        let mut complete = disk(true, true, marker);
        assert_eq!(provision(&mut complete), Ok(()));
        assert!(complete.written.is_empty());
    }
}

#[test]
fn an_installation_that_lost_files_is_refused() {
    for (config, key, marker) in [
        (true, false, false),
        (true, false, true),
        (false, true, false),
        (false, true, true),
        (false, false, true),
    ] {
        let mut lost = disk(config, key, marker);
        assert_eq!(provision(&mut lost), Err(INCOMPLETE.to_string()));
        assert!(lost.written.is_empty());
    }
}

#[test]
fn a_fresh_installation_gets_its_files() {
    let mut fresh = disk(false, false, false);
    assert_eq!(provision(&mut fresh), Ok(()));
    assert_eq!(fresh.written, vec!["config", "key", "marker provisioned"]);
}

#[test]
fn provisioning_stops_at_the_first_file_that_fails() {
    let mut no_config = disk(false, false, false);
    no_config.can_copy_config = false;
    assert_eq!(
        provision(&mut no_config),
        Err("factory encrypted configuration is missing".to_string())
    );
    assert!(no_config.written.is_empty());

    let mut no_key = disk(false, false, false);
    no_key.can_copy_key = false;
    assert_eq!(
        provision(&mut no_key),
        Err("factory configuration key is missing".to_string())
    );
    assert_eq!(no_key.written, vec!["config"]);

    let mut no_marker = disk(false, false, false);
    no_marker.can_mark = false;
    assert_eq!(provision(&mut no_marker), Err("denied".to_string()));
    assert_eq!(no_marker.written, vec!["config", "key"]);
}

#[test]
fn provisioning_without_a_path_fails_for_that_reason() {
    for stage in [
        ProvisionStage::LookForConfig,
        ProvisionStage::LookForMarker,
        ProvisionStage::WriteMarker,
    ] {
        let (next, action) =
            provision_factory_config(stage, ProvisionEvent::NoPath("gone".to_string()));
        assert_eq!(next, ProvisionStage::Finished);
        match action {
            ProvisionAction::Finish(outcome) => assert_eq!(outcome, Err("gone".to_string())),
            _ => panic!("provisioning went on"),
        }
    }
}
