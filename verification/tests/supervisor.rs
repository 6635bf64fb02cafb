use dtop::action::ContainerAction;
use dtop::model::ConnectionState;
use dtop::runtime::{RuntimeCommand, RuntimeEvent};
use dtop::supervisor::{SupervisorAction, SupervisorCore, SupervisorInput};

fn command(c: RuntimeCommand) -> SupervisorInput {
    SupervisorInput::Command(Some(c))
}

fn connected_core() -> SupervisorCore {
    let mut core = SupervisorCore::new(true);
    core.step(command(RuntimeCommand::Connect("/var/run/docker.sock".into())));
    core.step(SupervisorInput::ConnectResult(Ok(())));
    core
}

#[test]
fn greeting_waits_for_the_socket() {
    match SupervisorCore::greeting() {
        RuntimeEvent::Connection { state, message } => {
            assert_eq!(state, ConnectionState::Connecting);
            assert_eq!(message, "waiting for Docker socket");
        }
        other => panic!("unexpected {other:?}"),
    }
}

#[test]
fn no_connection_attempt_without_a_socket() {
    let mut core = SupervisorCore::new(true);
    assert!(core.step(SupervisorInput::ConnectTick).is_empty());
    assert!(core.step(command(RuntimeCommand::Refresh)).is_empty());
}

#[test]
fn connecting_starts_workers_and_inventory() {
    let mut core = SupervisorCore::new(false);
    let acts = core.step(command(RuntimeCommand::Connect("/s".into())));
    assert!(matches!(acts.as_slice(), [SupervisorAction::Connect(s)] if s == "/s"));
    let acts = core.step(SupervisorInput::ConnectResult(Ok(())));
    assert!(matches!(
        acts.as_slice(),
        [SupervisorAction::StartEventWorker, SupervisorAction::CollectInventory { show_stopped: false }]
    ));
    assert!(core.connected && core.inventory_running && !core.stats_running);
    // Connected: the reconnect timer does nothing, a second inventory waits.
    assert!(core.step(SupervisorInput::ConnectTick).is_empty());
    assert!(core.step(SupervisorInput::InventoryTick).is_empty());
}

#[test]
fn failed_connection_is_classified() {
    let mut core = SupervisorCore::new(true);
    core.step(command(RuntimeCommand::Connect("/s".into())));
    let acts = core.step(SupervisorInput::ConnectResult(Err("permission denied".into())));
    match acts.as_slice() {
        [SupervisorAction::Report(RuntimeEvent::Connection { state, message })] => {
            assert_eq!(*state, ConnectionState::PermissionDenied);
            assert_eq!(message, "permission denied");
        }
        other => panic!("unexpected {other:?}"),
    }
    assert!(!core.connected);
    assert!(matches!(core.step(SupervisorInput::ConnectTick).as_slice(), [SupervisorAction::Connect(_)]));
}

#[test]
fn inventory_result_resets_rotation_and_reports() {
    let mut core = connected_core();
    let entries: Vec<(Option<String>, Option<String>)> = (0..40)
        .map(|i| (Some(format!("c{i}")), Some(if i % 2 == 0 { "RUNNING" } else { "EXITED" }.to_string())))
        .collect();
    let acts = core.step(SupervisorInput::InventoryCollected(Ok(entries)));
    assert!(matches!(
        acts.as_slice(),
        [
            SupervisorAction::ForgetStoppedStats,
            SupervisorAction::Report(RuntimeEvent::Connection { state: ConnectionState::Connected, .. }),
            SupervisorAction::ReportSnapshot,
            SupervisorAction::ReportInventory,
        ]
    ));
    assert_eq!(core.rotation.running_ids.len(), 20);
    assert_eq!(core.rotation.cursor, 0);
    assert!(!core.inventory_running);
    let acts = core.step(SupervisorInput::RefreshTick);
    match acts.as_slice() {
        [SupervisorAction::CollectStats(ids)] => {
            assert_eq!(ids.len(), 20);
            assert_eq!(ids[0], "c0");
            assert_eq!(ids[19], "c38");
        }
        other => panic!("unexpected {other:?}"),
    }
    assert!(core.stats_running);
    // While a round is in flight the timer starts no other.
    assert!(core.step(SupervisorInput::RefreshTick).is_empty());
    let acts = core.step(SupervisorInput::StatsCollected(Ok(())));
    assert!(matches!(
        acts.as_slice(),
        [SupervisorAction::Report(RuntimeEvent::Connection { .. }), SupervisorAction::ReportSnapshot]
    ));
    assert!(!core.stats_running);
}

#[test]
fn task_failures_are_reported_as_errors() {
    let mut core = connected_core();
    match core.step(SupervisorInput::InventoryTaskFailed("panicked".into())).as_slice() {
        [SupervisorAction::Report(RuntimeEvent::Error(m))] => {
            assert_eq!(m, "inventory task failed: panicked")
        }
        other => panic!("unexpected {other:?}"),
    }
    match core.step(SupervisorInput::StatsTaskFailed("gone".into())).as_slice() {
        [SupervisorAction::Report(RuntimeEvent::Error(m))] => assert_eq!(m, "stats task failed: gone"),
        other => panic!("unexpected {other:?}"),
    }
    match core.step(SupervisorInput::StatsCollected(Err("connection refused".into()))).as_slice() {
        [SupervisorAction::Report(RuntimeEvent::Connection { state, .. })] => {
            assert_eq!(*state, ConnectionState::Unavailable)
        }
        other => panic!("unexpected {other:?}"),
    }
}

#[test]
fn commands_after_connecting() {
    let mut core = connected_core();
    core.step(SupervisorInput::InventoryCollected(Ok(vec![])));
    let acts = core.step(command(RuntimeCommand::Action { id: "web".into(), action: ContainerAction::Stop }));
    assert!(matches!(
        acts.as_slice(),
        [
            SupervisorAction::RunAction { action: ContainerAction::Stop, .. },
            SupervisorAction::CollectInventory { show_stopped: true }
        ]
    ));
    core.step(SupervisorInput::InventoryCollected(Ok(vec![])));
    let acts = core.step(command(RuntimeCommand::UpdateSettings { show_stopped: false }));
    assert!(matches!(acts.as_slice(), [SupervisorAction::CollectInventory { show_stopped: false }]));
    assert!(matches!(
        core.step(command(RuntimeCommand::Inspect("web".into()))).as_slice(),
        [SupervisorAction::Inspect(id)] if id == "web"
    ));
    let acts = core.step(command(RuntimeCommand::SubscribeLogs { id: "web".into(), follow: true }));
    assert!(matches!(acts.as_slice(), [SupervisorAction::StartLogWorker { follow: true, .. }]));
    let acts = core.step(command(RuntimeCommand::SubscribeLogs { id: "db".into(), follow: false }));
    assert!(matches!(
        acts.as_slice(),
        [SupervisorAction::StopLogWorker, SupervisorAction::StartLogWorker { follow: false, .. }]
    ));
    let acts = core.step(SupervisorInput::Command(None));
    assert!(matches!(
        acts.as_slice(),
        [
            SupervisorAction::StopLogWorker,
            SupervisorAction::StopEventWorker,
            SupervisorAction::AbortCollections,
            SupervisorAction::Stop
        ]
    ));
}

#[test]
fn refresh_lists_first_then_samples() {
    let mut core = connected_core();
    core.step(SupervisorInput::InventoryCollected(Ok(vec![])));
    // An empty listing: refresh asks for the listing again.
    assert!(matches!(
        core.step(command(RuntimeCommand::Refresh)).as_slice(),
        [SupervisorAction::CollectInventory { .. }]
    ));
    core.step(SupervisorInput::InventoryCollected(Ok(vec![(
        Some("a".to_string()),
        Some("running".to_string()),
    )])));
    assert!(matches!(
        core.step(command(RuntimeCommand::Refresh)).as_slice(),
        [SupervisorAction::CollectStats(ids)] if ids.len() == 1
    ));
}
