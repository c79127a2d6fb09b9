use dbdqueue::api::RegionQueueData;
use dbdqueue::app::{normalize_key_char, App, AppAction, Direction, Key, Notice, NoticeKind, UpdateHostsResult};
use dbdqueue::config::{GameMode, Language, SortOrder, TimeFormat};
use dbdqueue::ping::PingMap;

fn make_test_app() -> App {
    App::new(SortOrder::Default, GameMode::Standard, TimeFormat::Exact, vec![], Language::En, None)
}

fn row(flag: &str, name: &str, mode: &str, survivor: &str, killer: &str) -> RegionQueueData {
    RegionQueueData::new(flag, name, mode, survivor, killer)
}

#[test]
fn test_normalize_key_char() {
    assert_eq!(normalize_key_char('д'), 'l');
    assert_eq!(normalize_key_char('Д'), 'l');
    assert_eq!(normalize_key_char('ы'), 's');
    assert_eq!(normalize_key_char('Ы'), 's');
    assert_eq!(normalize_key_char('л'), 'k');
    assert_eq!(normalize_key_char('Л'), 'k');
    assert_eq!(normalize_key_char('з'), 'p');
    assert_eq!(normalize_key_char('З'), 'p');
    assert_eq!(normalize_key_char('ь'), 'm');
    assert_eq!(normalize_key_char('Ь'), 'm');
    assert_eq!(normalize_key_char('L'), 'l');
    assert_eq!(normalize_key_char('l'), 'l');
}

#[test]
fn test_sort_by_ping() {
    let mut app = make_test_app();
    app.sort = SortOrder::Ping;
    app.queues = vec![
        row("[US]", "Virginia", "Standard", "5s", "10s"),
        row("[DE]", "Frankfurt", "Standard", "5s", "10s"),
        row("[JP]", "Tokyo", "Standard", "5s", "10s"),
    ];
    // Frankfurt: 30ms, Virginia: 110ms, Tokyo: unmeasured
    app.pings.insert("eu-central-1".to_string(), 30);
    app.pings.insert("us-east-1".to_string(), 110);

    let rows = app.get_filtered_sorted_rows();
    assert_eq!(rows[0].name, "Frankfurt");
    assert_eq!(rows[1].name, "Virginia");
    assert_eq!(rows[2].name, "Tokyo");
}

#[test]
fn test_modal_regions_sorted_by_ping() {
    let mut app = make_test_app();
    app.pings.insert("eu-central-1".to_string(), 25);
    app.pings.insert("eu-west-1".to_string(), 45);
    app.pings.insert("us-east-1".to_string(), 105);

    let modal_regs = app.get_modal_regions();
    assert_eq!(modal_regs[0], "eu-central-1");
    assert_eq!(modal_regs[1], "eu-west-1");
    assert_eq!(modal_regs[2], "us-east-1");
}

#[test]
fn test_modal_regions_filter_disabled() {
    let mut app = make_test_app();
    app.queues = vec![
        row("[GB]", "London", "Standard", "—", "—"),
        row("[DE]", "Frankfurt", "Standard", "15s", "30s"),
    ];
    let modal_regs = app.get_modal_regions();
    assert!(!modal_regs.contains(&"eu-west-2")); // London is disabled
    assert!(modal_regs.contains(&"eu-central-1")); // Frankfurt is active
}

#[test]
fn test_disabled_servers_at_bottom() {
    let mut app = make_test_app();
    app.sort = SortOrder::Ping;
    app.queues = vec![
        row("[DE]", "Frankfurt", "Standard", "—", "—"),
        row("[US]", "Virginia", "Standard", "15s", "45s"),
        row("[IE]", "Dublin", "Standard", "2m", "1m"),
    ];
    app.pings.insert("eu-central-1".to_string(), 15); // Frankfurt (disabled)
    app.pings.insert("us-east-1".to_string(), 80); // Virginia (active)
    app.pings.insert("eu-west-1".to_string(), 40); // Dublin (active)

    let rows = app.get_filtered_sorted_rows();
    assert_eq!(rows[0].name, "Dublin");
    assert_eq!(rows[1].name, "Virginia");
    assert_eq!(rows[2].name, "Frankfurt");
}

#[test]
fn test_cycle_sort() {
    let mut app = make_test_app();
    app.sort = SortOrder::Killer;
    app.cycle_sort();
    assert_eq!(app.sort, SortOrder::Survivor);
    app.cycle_sort();
    assert_eq!(app.sort, SortOrder::Ping);
    app.cycle_sort();
    assert_eq!(app.sort, SortOrder::Killer);

    // From default
    app.sort = SortOrder::Default;
    app.cycle_sort();
    assert_eq!(app.sort, SortOrder::Killer);
}

#[test]
fn test_actions_returned_instead_of_io() {
    let mut app = make_test_app();

    // Sort key returns SaveConfig
    let action = app.handle_key('s');
    match action {
        AppAction::SaveConfig(cfg) => assert_eq!(cfg.sort, SortOrder::Killer),
        other => panic!("Expected SaveConfig, got {:?}", other),
    }

    // Mode key returns SaveConfig
    let action = app.handle_key('m');
    match action {
        AppAction::SaveConfig(cfg) => assert_eq!(cfg.mode, GameMode::Event),
        other => panic!("Expected SaveConfig, got {:?}", other),
    }

    // Refresh key returns Refresh
    app.is_fetching = false;
    let action = app.handle_key('r');
    assert_eq!(action, AppAction::Refresh);

    // Applying lock modal returns ApplyLocks without modifying app.locked
    app.open_lock_modal();
    app.lock_modal_selected = vec!["eu-central-1".to_string()];
    let action = app.handle_enter();
    match action {
        AppAction::ApplyLocks(regions) => assert_eq!(regions, vec!["eu-central-1"]),
        other => panic!("Expected ApplyLocks, got {:?}", other),
    }
    // App's locked set is still empty until hosts result comes back
    assert!(app.locked.is_empty());
}

#[test]
fn test_hosts_then_config_ordering() {
    let mut app = make_test_app();
    let now: u64 = 0;

    // Success: the firewall update succeeds -> locked updated, success notice, SaveConfig action returned
    let action = app.handle_hosts_result(UpdateHostsResult::Updated, vec!["eu-central-1".to_string()], now);
    assert!(app.locked.contains("eu-central-1"));
    assert!(app.notice.as_ref().map(|n| n.kind) == Some(NoticeKind::Success));
    match action {
        AppAction::SaveConfig(cfg) => assert_eq!(cfg.locked, vec!["eu-central-1"]),
        other => panic!("Expected SaveConfig, got {:?}", other),
    }

    // Failure: elevation denied -> locked preserved, error notice, no action
    let action2 = app.handle_hosts_result(UpdateHostsResult::ElevationFailed, vec!["us-east-1".to_string()], now);
    assert!(app.locked.contains("eu-central-1"));
    assert!(!app.locked.contains("us-east-1"));
    assert!(app.notice.as_ref().map(|n| n.kind) == Some(NoticeKind::Error));
    assert_eq!(action2, AppAction::Nothing);

    // Failure: generic error -> locked preserved, error notice, no action
    let action3 = app.handle_hosts_result(
        UpdateHostsResult::Error("write error".to_string()),
        vec!["us-east-1".to_string()],
        now,
    );
    assert!(app.locked.contains("eu-central-1"));
    assert!(!app.locked.contains("us-east-1"));
    assert!(app.notice.as_ref().map(|n| n.kind) == Some(NoticeKind::Error));
    assert_eq!(action3, AppAction::Nothing);
}

#[test]
fn test_notice_expiry_injected_time() {
    let mut app = make_test_app();
    let start: u64 = 1_000_000;

    // Set info notice with 3 second expiry
    app.notice = Some(Notice::info("Info message", start, 3000));

    // Tick at start + 1s: still active
    app.on_tick(start + 1000);
    assert!(app.notice.is_some());

    // Tick at start + 3s: expired
    app.on_tick(start + 3000);
    assert!(app.notice.is_none());

    // Error notice: has no expiry, should persist across ticks
    app.notice = Some(Notice::error("Persistent error"));
    app.on_tick(start + 10000);
    assert!(app.notice.is_some());
    assert_eq!(app.notice.as_ref().unwrap().kind, NoticeKind::Error);
}

#[test]
fn test_selection_clamping() {
    let mut app = make_test_app();
    app.queues = vec![
        row("[US]", "Virginia", "Standard", "5s", "10s"),
        row("[DE]", "Frankfurt", "Standard", "5s", "10s"),
    ];

    app.table_state.select(Some(1));
    assert_eq!(app.table_state.selected(), Some(1));

    // Queues cleared -> selection clamped to None
    app.queues.clear();
    app.clamp_selection();
    assert_eq!(app.table_state.selected(), None);

    // Modal cursor clamping
    app.lock_modal_cursor = 100;
    app.clamp_selection();
    let modal_len = app.get_modal_regions().len();
    assert!(app.lock_modal_cursor < modal_len);
}

#[test]
fn test_move_selection_wrap() {
    let mut app = make_test_app();
    app.queues = vec![
        row("[US]", "Virginia", "Standard", "5s", "10s"),
        row("[DE]", "Frankfurt", "Standard", "5s", "10s"),
    ];

    app.table_state.select(Some(0));
    app.move_selection(Direction::Up);
    assert_eq!(app.table_state.selected(), Some(1)); // wrapped to bottom

    app.move_selection(Direction::Down);
    assert_eq!(app.table_state.selected(), Some(0)); // wrapped to top
}

#[test]
fn test_summary_four_tied_lowest_ping_wins() {
    let mut app = make_test_app();
    app.queues = vec![
        row("[DE]", "Frankfurt", "Standard", "10s", "6s"),
        row("[IE]", "Dublin", "Standard", "10s", "6s"),
        row("[GB]", "London", "Standard", "10s", "6s"),
        row("[US]", "Virginia", "Standard", "10s", "6s"),
    ];
    // Frankfurt: 50ms, Dublin: 25ms, London: 60ms, Virginia: 110ms
    app.pings.insert("eu-central-1".to_string(), 50);
    app.pings.insert("eu-west-1".to_string(), 25);
    app.pings.insert("eu-west-2".to_string(), 60);
    app.pings.insert("us-east-1".to_string(), 110);

    let summary = app.summary();
    let killer_pick = summary.killer.expect("killer pick should be present");
    assert_eq!(killer_pick.row.name, "Dublin");
    assert_eq!(killer_pick.similar, 3);
    assert_eq!(summary.lowest_ping.unwrap().name, "Dublin");
}

#[test]
fn test_summary_within_tolerance_lower_ping_wins() {
    let mut app = make_test_app();
    app.queues = vec![
        row("[DE]", "Frankfurt", "Standard", "10s", "6s"),
        row("[IE]", "Dublin", "Standard", "10s", "9s"),
    ];
    app.pings.insert("eu-central-1".to_string(), 296);
    app.pings.insert("eu-west-1".to_string(), 40);

    let summary = app.summary();
    let killer_pick = summary.killer.expect("killer pick should be present");
    assert_eq!(killer_pick.row.name, "Dublin");
    assert_eq!(killer_pick.similar, 1);
}

#[test]
fn test_summary_outside_tolerance_lower_ping_loses() {
    let mut app = make_test_app();
    app.queues = vec![
        row("[DE]", "Frankfurt", "Standard", "10s", "6s"),
        row("[IE]", "Dublin", "Standard", "10s", "30s"),
    ];
    app.pings.insert("eu-central-1".to_string(), 100);
    app.pings.insert("eu-west-1".to_string(), 20);

    let summary = app.summary();
    let killer_pick = summary.killer.expect("killer pick should be present");
    assert_eq!(killer_pick.row.name, "Frankfurt");
    assert_eq!(killer_pick.similar, 0);
}

#[test]
fn test_summary_disabled_row_ignored() {
    let mut app = make_test_app();
    app.queues = vec![
        row("[DE]", "Frankfurt", "Standard", "—", "—"),
        row("[IE]", "Dublin", "Standard", "15s", "15s"),
    ];
    app.pings.insert("eu-central-1".to_string(), 10);
    app.pings.insert("eu-west-1".to_string(), 50);

    let summary = app.summary();
    let killer_pick = summary.killer.expect("killer pick should be present");
    assert_eq!(killer_pick.row.name, "Dublin");
    assert_eq!(killer_pick.similar, 0);
    assert_eq!(summary.lowest_ping.unwrap().name, "Dublin");
}

#[test]
fn test_summary_unmeasured_ping_loses_to_measured() {
    let mut app = make_test_app();
    app.queues = vec![
        row("[DE]", "Frankfurt", "Standard", "10s", "6s"),
        row("[IE]", "Dublin", "Standard", "10s", "6s"),
    ];
    // Only Frankfurt has a measured ping
    app.pings.insert("eu-central-1".to_string(), 40);

    let summary = app.summary();
    let killer_pick = summary.killer.expect("killer pick should be present");
    assert_eq!(killer_pick.row.name, "Frankfurt");
    assert_eq!(killer_pick.similar, 1);
}

#[test]
fn test_summary_respects_mode_filter() {
    let mut app = make_test_app();
    app.mode = GameMode::Standard;
    app.queues = vec![
        row("[DE]", "Frankfurt", "Event", "2s", "2s"),
        row("[IE]", "Dublin", "Standard", "15s", "15s"),
    ];
    app.pings.insert("eu-central-1".to_string(), 10);
    app.pings.insert("eu-west-1".to_string(), 50);

    let summary = app.summary();
    let killer_pick = summary.killer.expect("killer pick should be present");
    assert_eq!(killer_pick.row.name, "Dublin");
    assert_eq!(summary.lowest_ping.unwrap().name, "Dublin");
}

#[test]
fn summary_without_times_has_no_pick() {
    let mut app = make_test_app();
    app.queues = vec![row("[DE]", "Frankfurt", "Standard", "—", "—")];
    let summary = app.summary();
    assert!(summary.killer.is_none());
    assert!(summary.survivor.is_none());
    assert!(summary.lowest_ping.is_none());
}

#[test]
fn cached_pings_give_a_pick_at_once() {
    let mut app = make_test_app();
    let mut cached = PingMap::new();
    cached.insert("eu-central-1".to_string(), 25);
    cached.insert("us-east-1".to_string(), 120);
    app.handle_ping_update(cached);
    app.queues = vec![
        row("[DE]", "Frankfurt", "Standard", "10s", "10s"),
        row("[US]", "Virginia", "Standard", "15s", "15s"),
    ];
    let summary = app.summary();
    assert!(summary.killer.is_some());
    assert!(summary.survivor.is_some());
    assert_eq!(summary.killer.unwrap().row.name, "Frankfurt");
}

#[test]
fn ping_updates_keep_regions_that_timed_out() {
    let mut app = make_test_app();
    let mut first = PingMap::new();
    first.insert("eu-central-1".to_string(), 35);
    first.insert("us-east-1".to_string(), 100);
    app.handle_ping_update(first);
    let mut second = PingMap::new();
    second.insert("us-east-1".to_string(), 90);
    app.handle_ping_update(second);
    assert_eq!(app.pings.get("eu-central-1"), Some(35));
    assert_eq!(app.pings.get("us-east-1"), Some(90));
}

#[test]
fn refresh_key_is_ignored_while_fetching() {
    let mut app = make_test_app();
    app.is_fetching = true;
    assert_eq!(app.handle_key('r'), AppAction::Nothing);
    assert_eq!(app.handle_key('к'), AppAction::Nothing);
    app.is_fetching = false;
    assert_eq!(app.handle_key('к'), AppAction::Refresh);
    assert!(app.is_fetching);
}

#[test]
fn time_key_toggles_and_reformats() {
    let mut app = make_test_app();
    app.queues = vec![row("[DE]", "Frankfurt", "Standard", "294", "1852")];
    let action = app.handle_key('е');
    assert_eq!(app.time_format, TimeFormat::Rounded);
    assert_eq!(app.queues[0].survivor, "5m");
    match action {
        AppAction::SaveConfig(cfg) => assert_eq!(cfg.time_format, TimeFormat::Rounded),
        other => panic!("Expected SaveConfig, got {:?}", other),
    }
    app.toggle_time_format();
    assert_eq!(app.time_format, TimeFormat::Exact);
    assert_eq!(app.queues[0].survivor, "4:54");
}

#[test]
fn lock_list_keys() {
    let mut app = make_test_app();
    app.locked.insert("eu-west-1".to_string());
    assert_eq!(app.handle_input(Key::Char('l')), AppAction::Nothing);
    assert!(app.show_lock_modal);
    assert_eq!(app.lock_modal_selected, vec!["eu-west-1".to_string()]);
    let first = app.get_modal_regions()[0];
    assert_eq!(app.handle_input(Key::Char(' ')), AppAction::Nothing);
    assert!(app.lock_modal_selected.contains(&first.to_string()));
    app.handle_input(Key::Down);
    assert_eq!(app.lock_modal_cursor, 1);
    app.handle_input(Key::Up);
    app.handle_input(Key::Up);
    assert_eq!(app.lock_modal_cursor, app.get_modal_regions().len() - 1);
    assert_eq!(app.handle_input(Key::Esc), AppAction::Nothing);
    assert!(!app.show_lock_modal);
    assert!(!app.should_quit);
    assert_eq!(app.handle_input(Key::Esc), AppAction::Nothing);
    assert!(app.should_quit);
}

#[test]
fn manual_refresh_reports_freshness() {
    let mut app = make_test_app();
    app.is_fetching = true;
    let rows = vec![row("[DE]", "Frankfurt", "Standard", "10s", "10s")];
    app.handle_manual_refresh_complete(Ok((rows.clone(), 42)), PingMap::new(), 0);
    assert!(!app.is_fetching);
    assert_eq!(app.api_last_updated, 42);
    assert_eq!(app.notice.as_ref().unwrap().message, "[✓ Updated]");
    app.is_fetching = true;
    app.handle_manual_refresh_complete(Ok((rows, 42)), PingMap::new(), 0);
    assert_eq!(app.notice.as_ref().unwrap().message, "[✓ Up to date]");
    app.is_fetching = true;
    app.handle_manual_refresh_complete(Err("boom".to_string()), PingMap::new(), 0);
    assert_eq!(app.notice.as_ref().unwrap().kind, NoticeKind::Error);
    assert_eq!(app.queues.len(), 1);
}

#[test]
fn normalizing_a_key_twice_changes_nothing_more() {
    for c in ['д', 'Ы', 'е', 'к', 's', 'Z', ' ', '1', 'ё'] {
        let once = normalize_key_char(c);
        assert_eq!(normalize_key_char(once), once);
    }
}
