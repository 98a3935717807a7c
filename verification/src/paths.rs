//! Where the runner keeps its files, and how a fresh installation gets its configuration.
//!
//! A folder is a value of whatever type the caller names folders by; it is only carried along.
use vstd::prelude::*;

use crate::text::failed;

verus! {

/// A file or folder by its folder and its name in it.
#[derive(Debug)]
pub struct InDir<D> {
    pub dir: D,
    pub name: String,
}

/// Whether a path is the one of this name in a folder, or the folder's own error.
pub open spec fn named_in<D>(
    dir: Result<D, String>,
    name: Seq<char>,
    r: Result<InDir<D>, String>,
) -> bool {
    match dir {
        Ok(d) => r matches Ok(path) && path.dir == d && path.name@ == name,
        Err(e) => failed(r, e@),
    }
}

/// Whether a result is the folder of the program, or why there is none.
pub open spec fn program_folder<D>(
    parent: Result<Option<D>, String>,
    r: Result<D, String>,
) -> bool {
    match parent {
        Ok(Some(d)) => r matches Ok(dir) && dir == d,
        Ok(None) => failed(r, "cannot resolve executable directory"@),
        Err(e) => failed(r, e@),
    }
}

/// The folder of the program, from what the system says of the folder that its executable is in.
pub fn app_dir<D>(exe_parent: Result<Option<D>, String>) -> (r: Result<D, String>)
    ensures
        program_folder(exe_parent, r),
{
    match exe_parent {
        Ok(Some(dir)) => Ok(dir),
        Ok(None) => Err("cannot resolve executable directory".to_string()),
        Err(e) => Err(e),
    }
}

fn in_dir<D>(dir: Result<D, String>, name: &str) -> (r: Result<InDir<D>, String>)
    ensures
        named_in(dir, name@, r),
{
    match dir {
        Ok(dir) => Ok(InDir { dir, name: name.to_string() }),
        Err(e) => Err(e),
    }
}

/// The encrypted configuration, in the program's folder.
pub fn config_path<D>(app_dir: Result<D, String>) -> (r: Result<InDir<D>, String>)
    ensures
        named_in(app_dir, "command-runner.config.enc"@, r),
{
    in_dir(app_dir, "command-runner.config.enc")
}

/// The key of the configuration, in the program's folder.
pub fn key_path<D>(app_dir: Result<D, String>) -> (r: Result<InDir<D>, String>)
    ensures
        named_in(app_dir, ".command-runner.key"@, r),
{
    in_dir(app_dir, ".command-runner.key")
}

/// The file that marks an installation as provisioned, in the program's folder.
pub fn factory_marker_path<D>(app_dir: Result<D, String>) -> (r: Result<InDir<D>, String>)
    ensures
        named_in(app_dir, ".command-runner.factory-provisioned"@, r),
{
    in_dir(app_dir, ".command-runner.factory-provisioned")
}

/// The user's working folder, `files` in the folder of the program.
pub fn files_dir<D>(exe_parent: Result<Option<D>, String>) -> (r: Result<InDir<D>, String>)
    ensures
        match exe_parent {
            Ok(Some(d)) => r matches Ok(path) && path.dir == d && path.name@ == "files"@,
            Ok(None) => failed(r, "cannot resolve executable directory"@),
            Err(e) => failed(r, e@),
        },
{
    in_dir(app_dir(exe_parent), "files")
}

/// Why the working folder could not be created.
pub fn create_error(folder: &str, e: &str) -> (r: String)
    ensures
        r@ == "cannot create "@ + folder@ + ": "@ + e@,
{
    "cannot create ".to_string().concat(folder).concat(": ").concat(e)
}

/// The files that provisioning deals with.
#[derive(Clone, Copy, Debug, PartialEq, Eq, Structural)]
pub enum FactoryFile {
    Config,
    Key,
    Marker,
}

/// How far provisioning has come.
#[derive(Clone, Copy, Debug, PartialEq, Eq, Structural)]
pub enum ProvisionStage {
    /// Is there a configuration?
    LookForConfig,
    /// There is a configuration: is there a key as well?
    LookForBoth,
    /// One of the two is missing: is it the key alone?
    LookForConfigAlone,
    /// Is it the configuration alone?
    LookForKeyAlone,
    /// Both are missing: has this installation been provisioned before?
    LookForMarker,
    CopyConfig,
    CopyKey,
    WriteMarker,
    Finished,
}

/// What is to be done next.
pub enum ProvisionAction {
    /// Look whether the file is there.
    Look(FactoryFile),
    /// Copy the file from the factory folder.
    Copy(FactoryFile),
    /// Write the marker, with this text.
    Mark(String),
    Finish(Result<(), String>),
}

/// What came of it.
pub enum ProvisionEvent {
    /// Whether the file is there.
    Seen(bool),
    /// Whether the file has been copied or written, or why not.
    Written(Result<(), String>),
    /// The file has no path.
    NoPath(String),
}

/// Whether an event can come at a stage.
pub open spec fn provision_event_fits(stage: ProvisionStage, event: ProvisionEvent) -> bool {
    match event {
        ProvisionEvent::Seen(_) => {
            ||| stage == ProvisionStage::LookForConfig
            ||| stage == ProvisionStage::LookForBoth
            ||| stage == ProvisionStage::LookForConfigAlone
            ||| stage == ProvisionStage::LookForKeyAlone
            ||| stage == ProvisionStage::LookForMarker
        },
        ProvisionEvent::Written(_) => {
            ||| stage == ProvisionStage::CopyConfig
            ||| stage == ProvisionStage::CopyKey
            ||| stage == ProvisionStage::WriteMarker
        },
        ProvisionEvent::NoPath(_) => stage != ProvisionStage::Finished,
    }
}

/// The action that a stage waits for.
pub open spec fn awaits(stage: ProvisionStage, action: ProvisionAction) -> bool {
    match stage {
        ProvisionStage::LookForConfig => action == ProvisionAction::Look(FactoryFile::Config),
        ProvisionStage::LookForBoth => action == ProvisionAction::Look(FactoryFile::Key),
        ProvisionStage::LookForConfigAlone => action == ProvisionAction::Look(FactoryFile::Config),
        ProvisionStage::LookForKeyAlone => action == ProvisionAction::Look(FactoryFile::Key),
        ProvisionStage::LookForMarker => action == ProvisionAction::Look(FactoryFile::Marker),
        ProvisionStage::CopyConfig => action == ProvisionAction::Copy(FactoryFile::Config),
        ProvisionStage::CopyKey => action == ProvisionAction::Copy(FactoryFile::Key),
        ProvisionStage::WriteMarker => action matches ProvisionAction::Mark(text) && text@
            == "provisioned"@,
        ProvisionStage::Finished => action is Finish,
    }
}

/// Whether provisioning is over, well done.
pub open spec fn provisioned(r: (ProvisionStage, ProvisionAction)) -> bool {
    &&& r.0 == ProvisionStage::Finished
    &&& r.1 matches ProvisionAction::Finish(outcome)
    &&& outcome is Ok
}

/// Whether provisioning is over, with an error.
pub open spec fn refused(r: (ProvisionStage, ProvisionAction), message: Seq<char>) -> bool {
    &&& r.0 == ProvisionStage::Finished
    &&& r.1 matches ProvisionAction::Finish(outcome)
    &&& failed(outcome, message)
}

/// Whether provisioning goes on at a stage.
pub open spec fn goes_on(r: (ProvisionStage, ProvisionAction), stage: ProvisionStage) -> bool {
    r.0 == stage && awaits(stage, r.1)
}

/// What is said of an installation that is neither complete nor fresh.
pub open spec fn incomplete() -> Seq<char> {
    "encrypted factory configuration is missing or incomplete; reinstall the application"@
}

/// What an event leads to: a complete installation is left alone, one that is neither complete nor
/// fresh is refused, and a fresh one gets the configuration, the key and the marker, in this order.
pub open spec fn provision_follows(
    stage: ProvisionStage,
    event: ProvisionEvent,
    r: (ProvisionStage, ProvisionAction),
) -> bool {
    match (stage, event) {
        (_, ProvisionEvent::NoPath(e)) => refused(r, e@),
        (ProvisionStage::LookForConfig, ProvisionEvent::Seen(there)) => if there {
            goes_on(r, ProvisionStage::LookForBoth)
        } else {
            goes_on(r, ProvisionStage::LookForConfigAlone)
        },
        (ProvisionStage::LookForBoth, ProvisionEvent::Seen(there)) => if there {
            provisioned(r)
        } else {
            goes_on(r, ProvisionStage::LookForConfigAlone)
        },
        (ProvisionStage::LookForConfigAlone, ProvisionEvent::Seen(there)) => if there {
            refused(r, incomplete())
        } else {
            goes_on(r, ProvisionStage::LookForKeyAlone)
        },
        (ProvisionStage::LookForKeyAlone, ProvisionEvent::Seen(there)) => if there {
            refused(r, incomplete())
        } else {
            goes_on(r, ProvisionStage::LookForMarker)
        },
        (ProvisionStage::LookForMarker, ProvisionEvent::Seen(there)) => if there {
            refused(r, incomplete())
        } else {
            goes_on(r, ProvisionStage::CopyConfig)
        },
        (ProvisionStage::CopyConfig, ProvisionEvent::Written(done)) => if done is Ok {
            goes_on(r, ProvisionStage::CopyKey)
        } else {
            refused(r, "factory encrypted configuration is missing"@)
        },
        (ProvisionStage::CopyKey, ProvisionEvent::Written(done)) => if done is Ok {
            goes_on(r, ProvisionStage::WriteMarker)
        } else {
            refused(r, "factory configuration key is missing"@)
        },
        (ProvisionStage::WriteMarker, ProvisionEvent::Written(Ok(_))) => provisioned(r),
        (ProvisionStage::WriteMarker, ProvisionEvent::Written(Err(e))) => refused(r, e@),
        _ => false,
    }
}

fn refuse(message: String) -> (r: (ProvisionStage, ProvisionAction))
    ensures
        refused(r, message@),
{
    (ProvisionStage::Finished, ProvisionAction::Finish(Err(message)))
}

fn refuse_incomplete() -> (r: (ProvisionStage, ProvisionAction))
    ensures
        refused(r, incomplete()),
{
    refuse(
        "encrypted factory configuration is missing or incomplete; reinstall the application".to_string(),
    )
}

/// Takes provisioning one event further.
pub fn provision_factory_config(stage: ProvisionStage, event: ProvisionEvent) -> (r: (
    ProvisionStage,
    ProvisionAction,
))
    requires
        provision_event_fits(stage, event),
    ensures
        provision_follows(stage, event, r),
{
    match event {
        ProvisionEvent::NoPath(e) => refuse(e),
        ProvisionEvent::Seen(there) => match (stage, there) {
            (ProvisionStage::LookForConfig, true) => (
                ProvisionStage::LookForBoth,
                ProvisionAction::Look(FactoryFile::Key),
            ),
            (ProvisionStage::LookForBoth, true) => (
                ProvisionStage::Finished,
                ProvisionAction::Finish(Ok(())),
            ),
            (ProvisionStage::LookForConfig, false) | (ProvisionStage::LookForBoth, false) => (
                ProvisionStage::LookForConfigAlone,
                ProvisionAction::Look(FactoryFile::Config),
            ),
            (ProvisionStage::LookForConfigAlone, false) => (
                ProvisionStage::LookForKeyAlone,
                ProvisionAction::Look(FactoryFile::Key),
            ),
            (ProvisionStage::LookForKeyAlone, false) => (
                ProvisionStage::LookForMarker,
                ProvisionAction::Look(FactoryFile::Marker),
            ),
            (ProvisionStage::LookForMarker, false) => (
                ProvisionStage::CopyConfig,
                ProvisionAction::Copy(FactoryFile::Config),
            ),
            _ => refuse_incomplete(),
        },
        ProvisionEvent::Written(done) => match done {
            Ok(()) => match stage {
                ProvisionStage::CopyConfig => (
                    ProvisionStage::CopyKey,
                    ProvisionAction::Copy(FactoryFile::Key),
                ),
                ProvisionStage::CopyKey => (
                    ProvisionStage::WriteMarker,
                    ProvisionAction::Mark("provisioned".to_string()),
                ),
                _ => (ProvisionStage::Finished, ProvisionAction::Finish(Ok(()))),
            },
            Err(e) => match stage {
                ProvisionStage::CopyConfig => refuse(
                    "factory encrypted configuration is missing".to_string(),
                ),
                ProvisionStage::CopyKey => refuse("factory configuration key is missing".to_string()),
                _ => refuse(e),
            },
        },
    }
}

/// The first stage and action of provisioning.
pub fn begin_provisioning() -> (r: (ProvisionStage, ProvisionAction))
    ensures
        goes_on(r, ProvisionStage::LookForConfig),
{
    (ProvisionStage::LookForConfig, ProvisionAction::Look(FactoryFile::Config))
}

/// What is known at a stage of an installation with or without the three files, if every look
/// has shown what is there.
pub open spec fn found_out(stage: ProvisionStage, config: bool, key: bool, marker: bool) -> bool {
    match stage {
        ProvisionStage::LookForConfig => true,
        ProvisionStage::LookForBoth => config,
        ProvisionStage::LookForConfigAlone => !(config && key),
        ProvisionStage::LookForKeyAlone => !config,
        ProvisionStage::LookForMarker => !config && !key,
        ProvisionStage::CopyConfig => !config && !key && !marker,
        ProvisionStage::CopyKey => !config && !key && !marker,
        ProvisionStage::WriteMarker => !config && !key && !marker,
        ProvisionStage::Finished => true,
    }
}

/// Whether a look, if the event is one, has shown what is there.
pub open spec fn shows(
    stage: ProvisionStage,
    event: ProvisionEvent,
    config: bool,
    key: bool,
    marker: bool,
) -> bool {
    event matches ProvisionEvent::Seen(there) ==> match stage {
        ProvisionStage::LookForConfig | ProvisionStage::LookForConfigAlone => there == config,
        ProvisionStage::LookForBoth | ProvisionStage::LookForKeyAlone => there == key,
        _ => there == marker,
    }
}

/// Provisioning goes by what is there: a look ends it well just where both the configuration and
/// the key are there, a look ends it in refusal just where some but not both are there or the
/// marker is, and files are copied and written only where none of the three is.
pub proof fn law_provisioning_goes_by_what_is_there(
    stage: ProvisionStage,
    event: ProvisionEvent,
    r: (ProvisionStage, ProvisionAction),
    config: bool,
    key: bool,
    marker: bool,
)
    requires
        provision_event_fits(stage, event),
        provision_follows(stage, event, r),
        found_out(stage, config, key, marker),
        shows(stage, event, config, key, marker),
    ensures
        found_out(r.0, config, key, marker),
        event is Seen && provisioned(r) ==> config && key,
        event is Seen && r.0 == ProvisionStage::Finished && !provisioned(r) ==> {
            &&& refused(r, incomplete())
            &&& !(config && key)
            &&& config || key || marker
        },
        r.1 is Copy || r.1 is Mark ==> !config && !key && !marker,
{
}

/// How many stages can come before a stage.
pub open spec fn provision_rank(stage: ProvisionStage) -> int {
    match stage {
        ProvisionStage::LookForConfig => 0,
        ProvisionStage::LookForBoth => 1,
        ProvisionStage::LookForConfigAlone => 2,
        ProvisionStage::LookForKeyAlone => 3,
        ProvisionStage::LookForMarker => 4,
        ProvisionStage::CopyConfig => 5,
        ProvisionStage::CopyKey => 6,
        ProvisionStage::WriteMarker => 7,
        ProvisionStage::Finished => 8,
    }
}

/// Provisioning comes to an end, and it takes its steps in order: the key is copied only once the
/// configuration has been, and the marker is written only once the key has been.
pub proof fn law_provisioning_steps_in_order(
    stage: ProvisionStage,
    event: ProvisionEvent,
    r: (ProvisionStage, ProvisionAction),
)
    requires
        provision_event_fits(stage, event),
        provision_follows(stage, event, r),
    ensures
        provision_rank(stage) < provision_rank(r.0) <= 8,
        awaits(r.0, r.1),
        r.0 == ProvisionStage::CopyKey ==> stage == ProvisionStage::CopyConfig && (
        event matches ProvisionEvent::Written(Ok(_))),
        r.0 == ProvisionStage::WriteMarker ==> stage == ProvisionStage::CopyKey && (
        event matches ProvisionEvent::Written(Ok(_))),
        event is Written && provisioned(r) ==> stage == ProvisionStage::WriteMarker && (
        event matches ProvisionEvent::Written(Ok(_))),
{
}

/// A path is the name in just the folder that was given, and without a folder there is the reason in
/// its place.
pub proof fn law_path_is_in_its_folder<D>(
    dir: Result<D, String>,
    parent: Result<Option<D>, String>,
    name: Seq<char>,
    r: Result<InDir<D>, String>,
    folder: Result<D, String>,
)
    requires
        named_in(dir, name, r),
        program_folder(parent, folder),
    ensures
        dir matches Ok(d) ==> (r matches Ok(path) && path.dir == d && path.name@ == name),
        dir matches Err(e) ==> (r matches Err(m) && m@ == e@),
        parent matches Ok(Some(d)) ==> folder == Ok::<D, String>(d),
        parent matches Ok(None) ==> (folder matches Err(m) && m@
            == "cannot resolve executable directory"@),
        parent matches Err(e) ==> (folder matches Err(m) && m@ == e@),
{
}

/// Whether provisioning has been through these stages and actions, event by event, from its beginning
/// to its end.
pub open spec fn provisioning(
    steps: Seq<(ProvisionStage, ProvisionAction)>,
    events: Seq<ProvisionEvent>,
) -> bool {
    &&& steps.len() == events.len() + 1
    &&& goes_on(steps[0], ProvisionStage::LookForConfig)
    &&& forall|i: int|
        0 <= i < events.len() ==> provision_event_fits(steps[i].0, #[trigger] events[i])
            && provision_follows(steps[i].0, events[i], steps[i + 1])
    &&& steps.last().1 is Finish
}

/// Whether each event tells what its action came to on a disk with or without the three files, on
/// which the copies and the marker turn out as given.
pub open spec fn comes_of(
    action: ProvisionAction,
    event: ProvisionEvent,
    there: (bool, bool, bool),
    config_copied: Result<(), String>,
    key_copied: Result<(), String>,
    marked: Result<(), String>,
) -> bool {
    match action {
        ProvisionAction::Look(FactoryFile::Config) => event == ProvisionEvent::Seen(there.0),
        ProvisionAction::Look(FactoryFile::Key) => event == ProvisionEvent::Seen(there.1),
        ProvisionAction::Look(FactoryFile::Marker) => event == ProvisionEvent::Seen(there.2),
        ProvisionAction::Copy(FactoryFile::Config) => event == ProvisionEvent::Written(
            config_copied,
        ),
        ProvisionAction::Copy(FactoryFile::Key) => event == ProvisionEvent::Written(key_copied),
        ProvisionAction::Copy(FactoryFile::Marker) => false,
        ProvisionAction::Mark(_) => event == ProvisionEvent::Written(marked),
        ProvisionAction::Finish(_) => false,
    }
}

/// What provisioning comes to, from beginning to end:
/// - with the configuration and the key there, it is done, and nothing is copied or written;
/// - with one of them or the marker alone there, it is refused, and nothing is copied or written;
/// - with none of the three there, the configuration is copied, then the key, and then the marker is
///   written, until one of these fails, and that is what is said.
pub proof fn law_provisioning_from_beginning_to_end(
    steps: Seq<(ProvisionStage, ProvisionAction)>,
    events: Seq<ProvisionEvent>,
    there: (bool, bool, bool),
    config_copied: Result<(), String>,
    key_copied: Result<(), String>,
    marked: Result<(), String>,
)
    requires
        provisioning(steps, events),
        forall|i: int|
            0 <= i < events.len() ==> comes_of(
                steps[i].1,
                #[trigger] events[i],
                there,
                config_copied,
                key_copied,
                marked,
            ),
    ensures
        ({
            let (config, key, marker) = there;
            let fresh = !config && !key && !marker;
            let n = events.len() as int;
            &&& config && key ==> (steps[n].1 matches ProvisionAction::Finish(Ok(_)))
            &&& !(config && key) && !fresh ==> (steps[n].1 matches ProvisionAction::Finish(Err(m))
                && m@
                == "encrypted factory configuration is missing or incomplete; reinstall the application"@)
            &&& fresh ==> n >= 5 && steps[4].1 == ProvisionAction::Copy(FactoryFile::Config)
            &&& fresh && config_copied is Err ==> n == 5 && (
            steps[n].1 matches ProvisionAction::Finish(Err(m)) && m@
                == "factory encrypted configuration is missing"@)
            &&& fresh && config_copied is Ok ==> n >= 6 && steps[5].1 == ProvisionAction::Copy(
                FactoryFile::Key,
            )
            &&& fresh && config_copied is Ok && key_copied is Err ==> n == 6 && (
            steps[n].1 matches ProvisionAction::Finish(Err(m)) && m@
                == "factory configuration key is missing"@)
            &&& fresh && config_copied is Ok && key_copied is Ok ==> n == 7 && (
            steps[6].1 matches ProvisionAction::Mark(text) && text@ == "provisioned"@)
            &&& fresh && config_copied is Ok && key_copied is Ok && marked is Ok ==> (
            steps[n].1 matches ProvisionAction::Finish(Ok(_)))
            &&& fresh && config_copied is Ok && key_copied is Ok ==> (
            marked matches Err(e) ==> (steps[n].1 matches ProvisionAction::Finish(Err(m)) && m@
                == e@))
        }),
        forall|i: int|
            0 <= i < steps.len() && ((#[trigger] steps[i]).1 is Copy || steps[i].1 is Mark) ==> (
            !there.0 && !there.1 && !there.2),
{
    let n = events.len() as int;
    assert(n >= 1);
    assert(provision_follows(steps[0].0, events[0], steps[1]));
    if n > 1 {
        assert(provision_follows(steps[1].0, events[1], steps[2]));
    }
    if n > 2 {
        assert(provision_follows(steps[2].0, events[2], steps[3]));
    }
    if n > 3 {
        assert(provision_follows(steps[3].0, events[3], steps[4]));
    }
    if n > 4 {
        assert(provision_follows(steps[4].0, events[4], steps[5]));
    }
    if n > 5 {
        assert(provision_follows(steps[5].0, events[5], steps[6]));
    }
    if n > 6 {
        assert(provision_follows(steps[6].0, events[6], steps[7]));
    }
    if n > 7 {
        assert(provision_event_fits(steps[7].0, events[7]));
    }
    assert(n <= 7);
    assert(steps.last() == steps[n]);
}

} // verus!
