use dtop::cli::{parse_cli, CliAction, CliError};
use dtop::config::{
    config_path, default_true, previous_sort, previous_theme, Config, Density, Mode, PathError,
    SortOrder, ThemeName, DEFAULT_SOCKET,
};
use dtop::error::DtopError;
use dtop::theme::{palette, Colour};
use dtop::input::{is_quit, Key, KeyCode};
use dtop::model::host::{process_listing, process_matches, ProcessEntry};
use dtop::model::{format_duration, ConnectionState, ContainerRow, DockerEvent};
use dtop::runtime::{classify_error, running_ids, StatsRotation};
use dtop::app::scroll_window;
use dtop::ui::{
    busiest_first, fit_rows, largest_first, memory_ranking, plural, short_device, yes_no,
};

fn args(list: &[&str]) -> Vec<String> {
    list.iter().map(|s| s.to_string()).collect()
}

#[test]
fn format_duration_units() {
    assert_eq!(format_duration(0), "0s");
    assert_eq!(format_duration(59), "59s");
    assert_eq!(format_duration(60), "1m");
    assert_eq!(format_duration(3599), "59m");
    assert_eq!(format_duration(3600 * 3 + 7 * 60), "3h 07m");
    assert_eq!(format_duration(86_400 * 2 + 3600 * 4 + 59), "2d 04h");
    assert_eq!(format_duration(86_400 * 12 + 3600 * 13), "12d 13h");
}

#[test]
fn uptime_at_running_and_stopped() {
    let running = ContainerRow {
        state: "running".into(),
        started: 1_000,
        ..Default::default()
    };
    assert_eq!(running.uptime_at(1_000 + 125), "2m");
    let stopped = ContainerRow { state: "exited".into(), started: 1_000, ..Default::default() };
    assert_eq!(stopped.uptime_at(5_000), "—");
    let never = ContainerRow { state: "running".into(), started: 0, ..Default::default() };
    assert_eq!(never.uptime_at(5_000), "—");
}

#[test]
fn event_age_text() {
    let event = DockerEvent { timestamp: 1_000, ..Default::default() };
    assert_eq!(event.time_at(1_030), "30s ago");
    assert_eq!(event.time_at(1_000 + 150), "2m ago");
    assert_eq!(event.time_at(1_000 + 7_300), "2h ago");
    assert_eq!(event.time_at(10), "0s ago");
}

#[test]
fn row_filter_matches_name_image_state_status() {
    let row = ContainerRow {
        name: "Web-Frontend".into(),
        image: "nginx:latest".into(),
        state: "running".into(),
        status: "Up 5 minutes".into(),
        ..Default::default()
    };
    assert!(row.matches("web"));
    assert!(row.matches("NGINX"));
    assert!(row.matches("runn"));
    assert!(row.matches("minutes"));
    assert!(row.matches(""));
    assert!(!row.matches("postgres"));
}

#[test]
fn process_filter_matches_name_pid_and_state() {
    assert!(process_matches("postgres", 4321, 'S', "POST"));
    assert!(process_matches("postgres", 4321, 'S', "32"));
    assert!(process_matches("postgres", 4321, 'S', "s"));
    assert!(!process_matches("postgres", 4321, 'S', "x"));
    assert!(!process_matches("postgres", 4321, 'S', "nginx"));
    assert!(process_matches("init", -1, 'R', "-1"));
}

#[test]
fn default_config_values() {
    let c = Config::default();
    assert_eq!(c.docker_socket, DEFAULT_SOCKET);
    assert_eq!(c.mode, Mode::Docker);
    assert_eq!(c.theme, ThemeName::Default);
    assert_eq!(c.sort, SortOrder::Cpu);
    assert!(c.show_stopped && c.follow_logs && c.show_hints && c.show_gpu);
    assert_eq!(c.density, Density::Comfortable);
    assert!(default_true());
}

#[test]
fn validate_requires_absolute_socket() {
    assert!(Config::default().validate().is_ok());
    let mut c = Config::default();
    c.docker_socket = "docker.sock".into();
    match c.validate() {
        Err(DtopError::InvalidSocket(s)) => assert_eq!(s, "docker.sock"),
        other => panic!("unexpected {other:?}"),
    }
}

#[test]
fn theme_and_sort_cycles() {
    assert_eq!(ThemeName::Default.next(), ThemeName::Midnight);
    assert_eq!(ThemeName::Mono.next(), ThemeName::Default);
    assert_eq!(previous_theme(ThemeName::Default), ThemeName::Mono);
    assert_eq!(previous_theme(ThemeName::Midnight.next()), ThemeName::Midnight);
    assert_eq!(SortOrder::Cpu.next(), SortOrder::Memory);
    assert_eq!(SortOrder::Status.next(), SortOrder::Cpu);
    assert_eq!(previous_sort(SortOrder::Cpu), SortOrder::Status);
    assert_eq!(previous_sort(SortOrder::Name.next()), SortOrder::Name);
    assert_eq!(ThemeName::Amber.label(), "amber");
    assert_eq!(SortOrder::Uptime.label(), "uptime");
    assert_eq!(Mode::Docker.toggle().toggle(), Mode::Docker);
    assert_eq!(Density::Compact.toggle(), Density::Comfortable);
}

#[test]
fn config_path_precedence() {
    assert_eq!(
        config_path(Some("/etc/dtop.toml".into()), Some("/x".into()), Some("/h".into())),
        Ok("/etc/dtop.toml".to_string())
    );
    assert_eq!(
        config_path(None, Some("/home/u/.config".into()), Some("/h".into())),
        Ok("/home/u/.config/dtop/config.toml".to_string())
    );
    assert_eq!(
        config_path(None, Some("/cfg/".into()), None),
        Ok("/cfg/dtop/config.toml".to_string())
    );
    assert_eq!(
        config_path(None, None, Some("/home/u".into())),
        Ok("/home/u/.config/dtop/config.toml".to_string())
    );
    assert_eq!(config_path(None, None, None), Err(PathError::HomeNotSet));
}

#[test]
fn error_messages() {
    assert_eq!(
        DtopError::InvalidSocket("x".into()).message(),
        "Docker socket path is invalid: x"
    );
    assert_eq!(
        DtopError::DaemonUnavailable("/var/run/docker.sock".into()).message(),
        "Docker daemon is unavailable at /var/run/docker.sock"
    );
    assert_eq!(DtopError::DockerApi("boom".into()).message(), "Docker API error: boom");
    assert_eq!(
        DtopError::PermissionDenied("/s".into()).message(),
        "Docker permission denied for /s"
    );
    assert_eq!(
        DtopError::InvalidConfig("bad".into()).message(),
        "configuration file is invalid: bad"
    );
}

#[test]
fn classify_error_by_message() {
    assert_eq!(classify_error("Permission Denied on socket"), ConnectionState::PermissionDenied);
    assert_eq!(classify_error("ACCESS DENIED"), ConnectionState::PermissionDenied);
    assert_eq!(classify_error("failed to connect"), ConnectionState::Unavailable);
    assert_eq!(classify_error("No such file or directory"), ConnectionState::Unavailable);
    assert_eq!(classify_error("boom"), ConnectionState::Error);
}

#[test]
fn stats_rotation_wraps_in_batches() {
    let mut rotation = StatsRotation::new();
    assert!(rotation.next_stats_ids().is_empty());
    let ids: Vec<String> = (0..40).map(|i| format!("c{i}")).collect();
    rotation.reset(ids);
    let first = rotation.next_stats_ids();
    assert_eq!(first.len(), 32);
    assert_eq!(first[0], "c0");
    assert_eq!(first[31], "c31");
    assert_eq!(rotation.cursor, 32);
    let second = rotation.next_stats_ids();
    assert_eq!(second.len(), 32);
    assert_eq!(second[0], "c32");
    assert_eq!(second[7], "c39");
    assert_eq!(second[8], "c0");
    assert_eq!(rotation.cursor, 24);
    // Two batches of 32 read every one of the 40 containers.
    let mut seen: Vec<String> = first.iter().chain(second.iter()).cloned().collect();
    seen.sort();
    seen.dedup();
    assert_eq!(seen.len(), 40);
    rotation.reset(vec!["a".into(), "b".into()]);
    assert_eq!(rotation.next_stats_ids(), vec!["a".to_string(), "b".to_string()]);
    assert_eq!(rotation.cursor, 0);
}

#[test]
fn running_ids_keep_running_in_order() {
    let entries = vec![
        (Some("a".to_string()), Some("running".to_string())),
        (Some("b".to_string()), Some("exited".to_string())),
        (None, Some("running".to_string())),
        (Some("c".to_string()), Some("Running".to_string())),
        (Some("d".to_string()), None),
    ];
    assert_eq!(running_ids(&entries), vec!["a".to_string(), "c".to_string()]);
}

#[test]
fn cli_flags_and_errors() {
    match parse_cli(&args(&[])) {
        Ok(CliAction::Run(cli)) => {
            assert!(cli.config.is_none());
            assert!(cli.socket.is_none());
        }
        other => panic!("unexpected {other:?}"),
    }
    match parse_cli(&args(&["--config", "/a.toml", "-s", "/s.sock", "-c", "/b.toml"])) {
        Ok(CliAction::Run(cli)) => {
            assert_eq!(cli.config.as_deref(), Some("/b.toml"));
            assert_eq!(cli.socket.as_deref(), Some("/s.sock"));
        }
        other => panic!("unexpected {other:?}"),
    }
    assert!(matches!(parse_cli(&args(&["-h", "--bogus"])), Ok(CliAction::Help)));
    assert!(matches!(parse_cli(&args(&["--config"])), Err(CliError::MissingConfigPath)));
    assert!(matches!(parse_cli(&args(&["--socket"])), Err(CliError::MissingSocketPath)));
    match parse_cli(&args(&["--bogus"])) {
        Err(CliError::UnknownArgument(a)) => assert_eq!(a, "--bogus"),
        other => panic!("unexpected {other:?}"),
    }
}

#[test]
fn quit_keys() {
    assert!(is_quit(Key { code: KeyCode::Char('q'), control: false, other_modifiers: false }));
    assert!(is_quit(Key { code: KeyCode::Char('c'), control: true, other_modifiers: false }));
    assert!(!is_quit(Key { code: KeyCode::Char('c'), control: false, other_modifiers: false }));
}

#[test]
fn small_text_helpers() {
    assert_eq!(short_device("/dev/sda3"), "sda3");
    assert_eq!(short_device("tmpfs"), "tmpfs");
    assert_eq!(plural(1), "");
    assert_eq!(plural(0), "s");
    assert_eq!(plural(2), "s");
    assert_eq!(yes_no(true), "yes");
    assert_eq!(yes_no(false), "no");
}

fn entry(pid: i32, name: &str, cpu: f64, rss: u64) -> ProcessEntry {
    ProcessEntry { pid, name: name.into(), state: 'S', cpu_bits: cpu.to_bits(), rss_bytes: rss }
}

#[test]
fn process_listing_sorts_and_filters() {
    let ps = vec![entry(1, "init", 0.5, 100), entry(2, "Bash", 9.0, 50), entry(3, "cron", 9.0, 900)];
    assert_eq!(process_listing(&ps, SortOrder::Cpu, ""), vec![1, 2, 0]);
    assert_eq!(process_listing(&ps, SortOrder::Memory, ""), vec![2, 0, 1]);
    assert_eq!(process_listing(&ps, SortOrder::Name, ""), vec![1, 2, 0]);
    assert_eq!(process_listing(&ps, SortOrder::Status, ""), vec![0, 1, 2]);
    assert_eq!(process_listing(&ps, SortOrder::Cpu, "BASH"), vec![1]);
    assert_eq!(process_listing(&ps, SortOrder::Name, "3"), vec![2]);
}

#[test]
fn palettes_hold_each_themes_colours() {
    let default = palette(ThemeName::Default);
    assert!(matches!(default.background, Colour::Rgb(10, 14, 20)));
    assert!(matches!(default.accent, Colour::Rgb(86, 210, 194)));
    let midnight = palette(ThemeName::Midnight);
    assert!(matches!(midnight.selected, Colour::Rgb(52, 50, 98)));
    let amber = palette(ThemeName::Amber);
    assert!(matches!(amber.accent, Colour::Rgb(255, 184, 77)));
    assert!(matches!(amber.warn, Colour::Rgb(255, 138, 61)));
    assert!(matches!(amber.bad, Colour::Rgb(244, 88, 59)));
    let mono = palette(ThemeName::Mono);
    assert!(matches!(mono.background, Colour::Black));
    assert!(matches!(mono.text, Colour::White));
    assert!(matches!(mono.border, Colour::Rgb(112, 112, 112)));
}

#[test]
fn fit_rows_counts_what_is_left_out() {
    assert_eq!(fit_rows(10, 4), (4, 6));
    assert_eq!(fit_rows(3, 4), (3, 0));
    assert_eq!(fit_rows(0, 0), (0, 0));
    assert_eq!(fit_rows(5, 0), (0, 5));
}

#[test]
fn memory_ranking_lists_users_largest_first() {
    // Containers 1 and 3 use nothing; 0 and 4 tie and keep their order.
    assert_eq!(memory_ranking(&vec![200, 0, 500, 0, 200]), vec![2, 0, 4]);
    assert!(memory_ranking(&vec![0, 0]).is_empty());
}

#[test]
fn largest_first_keeps_zero_values_last() {
    assert_eq!(largest_first(&vec![0, 4096, 0, 8192]), vec![3, 1, 0, 2]);
}

#[test]
fn busiest_first_orders_by_cpu_share() {
    let shares = vec![1.5_f64.to_bits(), 0.0_f64.to_bits(), 12.25_f64.to_bits(), 1.5_f64.to_bits()];
    assert_eq!(busiest_first(&shares), vec![2, 0, 3, 1]);
    let negative = vec![(-1.0_f64).to_bits(), 0.5_f64.to_bits()];
    assert_eq!(busiest_first(&negative), vec![1, 0]);
}

#[test]
fn scroll_window_keeps_the_selection_in_view() {
    let visible: Vec<usize> = (0..20).map(|i| 100 + i).collect();
    // The selection on the first screen: the window starts at the top.
    assert_eq!(scroll_window(&visible, 103, 5), (0, 5));
    // Further down, the window ends at the selected row.
    assert_eq!(scroll_window(&visible, 110, 5), (6, 11));
    assert_eq!(scroll_window(&visible, 119, 5), (15, 20));
    // A selection that is not listed counts as the first row.
    assert_eq!(scroll_window(&visible, 7, 5), (0, 5));
    // A short listing is shown whole.
    assert_eq!(scroll_window(&vec![4, 2], 2, 10), (0, 2));
    assert_eq!(scroll_window(&Vec::new(), 0, 3), (0, 0));
}
