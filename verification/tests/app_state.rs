use dtop::action::ContainerAction;
use dtop::app::{App, Effect};
use dtop::config::{Config, SortOrder};
use dtop::docker::{GpuDevice, GpuInfo, HostMemory};
use dtop::input::{Key, KeyCode};
use dtop::model::{BoundedLines, ConnectionState, ContainerRow, Metrics, Screen};
use dtop::runtime::{RuntimeCommand, RuntimeEvent};

fn app() -> App {
    App::new(Config::default(), "/tmp/dtop-test.toml".to_string())
}

fn container(name: &str, state: &str, cpu: f64) -> ContainerRow {
    ContainerRow {
        id: name.to_owned(),
        name: name.to_owned(),
        state: state.to_owned(),
        metrics: Metrics { cpu_percent_bits: cpu.to_bits(), ..Default::default() },
        ..Default::default()
    }
}

fn key(code: KeyCode) -> Key {
    Key { code, control: false, other_modifiers: false }
}

#[test]
fn visible_indices_filter_and_sort() {
    let mut app = App::new(Config::default(), "/tmp/dtop-test.toml".to_string());
    app.data.containers = vec![
        ContainerRow { name: "zeta".into(), state: "running".into(), ..Default::default() },
        ContainerRow { name: "alpha".into(), state: "exited".into(), ..Default::default() },
    ];
    app.config.sort = SortOrder::Name;
    assert_eq!(app.visible_indices(), vec![1, 0]);
    app.filter = "z".into();
    assert_eq!(app.visible_indices(), vec![0]);
}

#[test]
fn bounded_buffer_evicts_oldest_items() {
    let mut buffer = BoundedLines::new(100);
    for i in 0..1_000 {
        buffer.push(i);
    }
    assert_eq!(buffer.items.len(), 100);
    assert_eq!(*buffer.items.front().unwrap(), 900);
    assert_eq!(*buffer.items.back().unwrap(), 999);
}

#[test]
fn bounded_buffer_of_zero_capacity_stays_empty() {
    let mut buffer = BoundedLines::new(0);
    buffer.push(1);
    buffer.push(2);
    assert!(buffer.items.is_empty());
    let mut small = BoundedLines::new(2);
    small.push(1);
    small.push(2);
    small.push(3);
    assert_eq!(small.items.iter().copied().collect::<Vec<i32>>(), vec![2, 3]);
    small.clear();
    assert!(small.items.is_empty());
    assert_eq!(small.capacity, 2);
}

#[test]
fn sampler_wraps_around_large_container_sets() {
    let mut app = app();
    app.data.containers =
        (0..500).map(|i| container(&format!("c{i:03}"), "running", 0.0)).collect();
    app.config.sort = SortOrder::Name;
    let visible = app.visible_indices();
    assert_eq!(visible.len(), 500);
    assert_eq!(visible[0], 0);
    assert_eq!(visible[499], 499);
}

#[test]
fn sorting_and_filtering_work_at_scale() {
    let mut app = app();
    let mut rows = (0..1_000)
        .map(|i| {
            container(
                &format!("svc-{i:03}"),
                if i % 2 == 0 { "running" } else { "exited" },
                i as f64,
            )
        })
        .collect::<Vec<_>>();
    rows.push(container("alpha", "running", 500.0));
    app.data.containers = rows;
    app.config.sort = SortOrder::Cpu;
    let visible = app.visible_indices();
    assert_eq!(visible.len(), 1_001);
    let first = &app.data.containers[visible[0]];
    assert_eq!(first.name, "svc-999");
    app.filter = "alpha".into();
    assert_eq!(app.visible_indices().len(), 1);
}

#[test]
fn stopped_container_toggle_filters_large_sets() {
    let mut app = app();
    app.data.containers = (0..300)
        .map(|i| container(&format!("c{i}"), if i % 3 == 0 { "running" } else { "exited" }, 0.0))
        .collect();
    app.config.show_stopped = true;
    assert_eq!(app.visible_indices().len(), 300);
    app.config.show_stopped = false;
    assert_eq!(app.visible_indices().len(), 100);
}

#[test]
fn cpu_sort_is_stable_and_handles_negative_values() {
    let mut app = app();
    app.data.containers = vec![
        container("a", "running", 1.0),
        container("b", "running", -2.0),
        container("c", "running", 3.0),
        container("d", "running", 1.0),
        container("e", "paused", 0.0),
    ];
    app.config.sort = SortOrder::Cpu;
    assert_eq!(app.visible_indices(), vec![2, 0, 3, 4, 1]);
    app.config.sort = SortOrder::Status;
    assert_eq!(app.visible_indices(), vec![4, 0, 1, 2, 3]);
}

#[test]
fn name_sort_ignores_ascii_case() {
    let mut app = app();
    app.data.containers = vec![
        container("Beta", "running", 0.0),
        container("alpha", "running", 0.0),
        container("GAMMA", "running", 0.0),
    ];
    app.config.sort = SortOrder::Name;
    assert_eq!(app.visible_indices(), vec![1, 0, 2]);
}

#[test]
fn tab_cycles_all_primary_sections() {
    let mut app = app();
    app.screen = Screen::Home;
    let mut seen = Vec::new();
    let primary = Screen::primary(app.config.mode);
    for _ in 0..primary.len() {
        app.screen = app.screen.next_primary(app.config.mode);
        seen.push(app.screen);
    }
    assert_eq!(
        seen,
        vec![
            Screen::Containers,
            Screen::Events,
            Screen::Images,
            Screen::Volumes,
            Screen::Networks,
            Screen::Settings,
            Screen::Overview,
        ]
    );
}

#[test]
fn home_enter_opens_each_section_and_settings() {
    let mut app = app();
    for (selection, expected) in [
        (0, Screen::Overview),
        (1, Screen::Containers),
        (2, Screen::Events),
        (3, Screen::Images),
        (4, Screen::Volumes),
        (5, Screen::Networks),
        (6, Screen::Settings),
    ] {
        app.home_selection = selection;
        app.screen = Screen::Home;
        let effect = app.enter();
        assert!(effect.is_none());
        assert_eq!(app.screen, expected);
    }
}

#[test]
fn action_availability_matches_container_state() {
    let running = container("web", "running", 0.0);
    let stopped = container("old", "exited", 0.0);
    assert!(ContainerAction::Stop.available_for(&running));
    assert!(!ContainerAction::Start.available_for(&running));
    assert!(ContainerAction::Start.available_for(&stopped));
    assert!(!ContainerAction::Unpause.available_for(&running));
}

#[test]
fn runtime_error_clears_pending_action() {
    let mut app = app();
    app.pending_action = true;
    app.apply_runtime_event(RuntimeEvent::Error("boom".into()));
    assert!(!app.pending_action);
    assert!(app.notice.as_deref() == Some("boom"));
}

#[test]
fn stop_waits_for_confirmation_then_runs() {
    let mut app = app();
    app.data.containers = vec![container("web", "running", 0.0)];
    app.screen = Screen::Containers;
    app.selected_container = 0;
    let effect = app.handle_key(key(KeyCode::Char('x')));
    assert!(effect.is_none());
    assert_eq!(app.confirm.as_ref().map(|(a, n)| (*a, n.clone())), Some((ContainerAction::Stop, "web".to_string())));
    // Any other key leaves the confirmation pending.
    assert!(app.handle_key(key(KeyCode::Char('s'))).is_none());
    assert!(app.confirm.is_some());
    let effect = app.handle_key(key(KeyCode::Enter));
    assert!(app.confirm.is_none());
    assert!(app.pending_action);
    match effect {
        Some(Effect::Send(RuntimeCommand::Action { id, action })) => {
            assert_eq!(id, "web");
            assert_eq!(action, ContainerAction::Stop);
        }
        other => panic!("unexpected effect {other:?}"),
    }
    app.apply_runtime_event(RuntimeEvent::ActionFinished {
        action: ContainerAction::Stop,
        name: "web".into(),
    });
    assert!(!app.pending_action);
    assert_eq!(app.notice.as_deref(), Some("stop completed for web"));
}

#[test]
fn escape_cancels_a_confirmation() {
    let mut app = app();
    app.data.containers = vec![container("web", "running", 0.0)];
    app.screen = Screen::Containers;
    assert!(app.handle_key(key(KeyCode::Char('r'))).is_none());
    assert!(app.confirm.is_some());
    assert!(app.handle_key(key(KeyCode::Esc)).is_none());
    assert!(app.confirm.is_none());
    assert!(!app.pending_action);
}

#[test]
fn start_runs_at_once_and_refuses_wrong_state() {
    let mut app = app();
    app.data.containers = vec![container("old", "exited", 0.0)];
    app.screen = Screen::Containers;
    let effect = app.handle_key(key(KeyCode::Char('s')));
    assert!(matches!(
        effect,
        Some(Effect::Send(RuntimeCommand::Action { action: ContainerAction::Start, .. }))
    ));
    assert!(app.pending_action);
    // While an action is pending further requests are ignored.
    assert!(app.handle_key(key(KeyCode::Char('s'))).is_none());
    app.pending_action = false;
    assert!(app.handle_key(key(KeyCode::Char('x'))).is_none());
    assert!(app.confirm.is_none());
    assert_eq!(app.notice.as_deref(), Some("stop is not available for old"));
}

#[test]
fn actions_without_a_selection_ask_for_one() {
    let mut app = app();
    app.screen = Screen::Containers;
    assert!(app.handle_key(key(KeyCode::Char('d'))).is_none());
    assert_eq!(app.notice.as_deref(), Some("select a container first"));
    assert_eq!(app.screen, Screen::Containers);
}

#[test]
fn filter_editing_and_quit_keys() {
    let mut app = app();
    app.screen = Screen::Containers;
    app.handle_key(key(KeyCode::Char('/')));
    assert!(app.filter_mode);
    app.handle_key(key(KeyCode::Char('w')));
    app.handle_key(key(KeyCode::Char('q')));
    assert_eq!(app.filter, "wq");
    assert!(!app.should_quit);
    app.handle_key(key(KeyCode::Backspace));
    assert_eq!(app.filter, "w");
    app.handle_key(key(KeyCode::Enter));
    assert!(!app.filter_mode);
    app.handle_key(key(KeyCode::Char('q')));
    assert!(app.should_quit);
}

#[test]
fn escape_goes_home_and_drops_log_subscription() {
    let mut app = app();
    app.screen = Screen::Logs;
    let effect = app.handle_key(key(KeyCode::Esc));
    assert_eq!(app.screen, Screen::Home);
    assert!(matches!(effect, Some(Effect::SendQuietly(RuntimeCommand::UnsubscribeLogs))));
}

#[test]
fn home_and_settings_cursors_stop_at_the_ends() {
    let mut app = app();
    app.screen = Screen::Home;
    app.handle_key(key(KeyCode::Up));
    assert_eq!(app.home_selection, 0);
    for _ in 0..10 {
        app.handle_key(key(KeyCode::Down));
    }
    assert_eq!(app.home_selection, 6);
    app.screen = Screen::Settings;
    for _ in 0..20 {
        app.handle_key(key(KeyCode::Down));
    }
    assert_eq!(app.settings_selection, 9);
}

#[test]
fn container_cursor_moves_through_the_listing() {
    let mut app = app();
    app.data.containers = vec![
        container("b", "running", 0.0),
        container("a", "running", 0.0),
        container("c", "exited", 0.0),
    ];
    app.config.sort = SortOrder::Name;
    app.screen = Screen::Containers;
    app.selected_container = 7;
    app.handle_key(key(KeyCode::Down));
    assert_eq!(app.selected_container, 1);
    app.handle_key(key(KeyCode::Down));
    assert_eq!(app.selected_container, 0);
    app.handle_key(key(KeyCode::Down));
    assert_eq!(app.selected_container, 2);
    app.handle_key(key(KeyCode::Down));
    assert_eq!(app.selected_container, 2);
    app.handle_key(key(KeyCode::Up));
    assert_eq!(app.selected_container, 0);
}

#[test]
fn settings_change_save_and_reset() {
    let mut app = app();
    app.screen = Screen::Settings;
    app.settings_selection = 2;
    app.handle_key(key(KeyCode::Right));
    assert_eq!(app.config.sort, SortOrder::Memory);
    app.handle_key(key(KeyCode::Left));
    assert_eq!(app.config.sort, SortOrder::Cpu);
    app.handle_key(key(KeyCode::Left));
    assert_eq!(app.config.sort, SortOrder::Status);
    app.settings_selection = 3;
    app.handle_key(key(KeyCode::Right));
    assert!(!app.config.show_stopped);
    app.settings_selection = 8;
    assert!(matches!(app.handle_key(key(KeyCode::Enter)), Some(Effect::SaveConfig)));
    app.settings_saved();
    assert_eq!(app.notice.as_deref(), Some("saved /tmp/dtop-test.toml"));
    app.settings_selection = 9;
    let effect = app.handle_key(key(KeyCode::Enter));
    assert!(matches!(
        effect,
        Some(Effect::SendQuietly(RuntimeCommand::UpdateSettings { show_stopped: true }))
    ));
    assert_eq!(app.config.sort, SortOrder::Cpu);
    assert_eq!(app.notice.as_deref(), Some("settings reset to defaults"));
}

#[test]
fn snapshot_keeps_the_cursor_on_the_list() {
    let mut app = app();
    app.selected_container = 5;
    app.apply_runtime_event(RuntimeEvent::Snapshot {
        containers: vec![container("a", "running", 0.0), container("b", "running", 0.0)],
    });
    assert_eq!(app.selected_container, 1);
    app.apply_runtime_event(RuntimeEvent::Snapshot { containers: vec![] });
    assert_eq!(app.selected_container, 0);
}

#[test]
fn connection_report_sets_state_and_notice() {
    let mut app = app();
    app.apply_runtime_event(RuntimeEvent::Connection {
        state: ConnectionState::Connected,
        message: "connected".into(),
    });
    assert_eq!(app.connection, ConnectionState::Connected);
    assert_eq!(app.notice.as_deref(), Some("connected"));
}

#[test]
fn counts_and_memory_summary() {
    let mut app = app();
    let mut a = container("a", "running", 0.0);
    a.metrics.memory_bytes = 100;
    a.metrics.memory_limit = 1000;
    let mut b = container("b", "paused", 0.0);
    b.metrics.memory_bytes = 50;
    b.metrics.memory_limit = 4000;
    let c = container("c", "exited", 0.0);
    app.data.containers = vec![a, b, c];
    assert_eq!(app.counts(), (1, 1, 1));
    assert_eq!(app.memory_summary(), (150, 4000));
}

#[test]
fn inventory_stores_the_detected_gpu() {
    let mut app = app();
    assert!(!app.data.gpu.is_present());
    let gpu = GpuInfo {
        present: true,
        vendor: "NVIDIA".into(),
        gpus: vec![GpuDevice {
            index: 0,
            name: "A".into(),
            utilization: 1,
            memory_used_mb: 2,
            memory_total_mb: 3,
        }],
    };
    app.apply_runtime_event(RuntimeEvent::Inventory {
        images: vec![],
        volumes: vec![],
        networks: vec![],
        host_memory: HostMemory::new(),
        gpu,
    });
    assert!(app.data.gpu.is_present());
    assert_eq!(app.data.gpu.vendor, "NVIDIA");
    assert_eq!(app.data.gpu.gpus.len(), 1);
}

#[test]
fn down_stops_at_the_last_menu_row() {
    let mut app = app();
    for _ in 0..50 {
        app.handle_key(key(KeyCode::Down));
    }
    let last_home = app.home_selection;
    app.handle_key(key(KeyCode::Down));
    assert_eq!(app.home_selection, last_home);
    app.home_selection = usize::MAX;
    app.handle_key(key(KeyCode::Down));
    assert_eq!(app.home_selection, last_home);
}
