use dbdqueue::api::{EventItem, RegionQueueData};
use dbdqueue::app::App;
use dbdqueue::config::{GameMode, Language, SortOrder, TimeFormat};
use dbdqueue::i18n::Locale;
use dbdqueue::ping::color_for_ping;
use dbdqueue::ui::{
    color_for_time, footer_line, header_line, modal_items, modal_keys_line, pad_right, screen_plan,
    summary_lines, summary_title, table_view, Piece, TableView, Tone,
};

fn text_of(pieces: &[Piece]) -> String {
    pieces.iter().map(|p| p.text.as_str()).collect()
}

fn app_with(locked: Vec<String>, lang: Language, format: TimeFormat) -> App {
    App::new(SortOrder::Default, GameMode::Standard, format, locked, lang, None)
}

#[test]
fn test_color_for_ping() {
    assert_eq!(color_for_ping(Some(30)), Tone::Green);
    assert_eq!(color_for_ping(Some(80)), Tone::Green);
    assert_eq!(color_for_ping(Some(81)), Tone::Yellow);
    assert_eq!(color_for_ping(Some(120)), Tone::Yellow);
    assert_eq!(color_for_ping(Some(249)), Tone::Yellow);
    assert_eq!(color_for_ping(Some(250)), Tone::Red);
    assert_eq!(color_for_ping(Some(300)), Tone::Red);
    assert_eq!(color_for_ping(None), Tone::DarkGray);
}

#[test]
fn time_colours() {
    assert_eq!(color_for_time("—"), Tone::DarkGray);
    assert_eq!(color_for_time(""), Tone::DarkGray);
    assert_eq!(color_for_time("0:59"), Tone::Green);
    assert_eq!(color_for_time("1:00"), Tone::Yellow);
    assert_eq!(color_for_time("2:59"), Tone::Yellow);
    assert_eq!(color_for_time("3:00"), Tone::Red);
}

#[test]
fn padding_to_width() {
    assert_eq!(pad_right("ab", 5), "ab   ");
    assert_eq!(pad_right("abcdef", 3), "abcdef");
    assert_eq!(pad_right("Маньяк:", 9), "Маньяк:  ");
}

#[test]
fn test_modal_label_color_via_test_backend() {
    let keys = modal_keys_line(Locale::En);
    assert_eq!(keys[0].text, " [↑↓] ");
    assert_eq!(keys[0].tone, Tone::LightRed);
    assert_eq!(keys[1].text, "Select");
    assert_ne!(keys[1].tone, Tone::LightRed);
    assert_eq!(keys[1].tone, Tone::Reset);
}

#[test]
fn test_draw_does_not_mutate_state() {
    let mut app = app_with(vec!["eu-central-1".to_string()], Language::En, TimeFormat::Exact);
    app.queues = vec![
        RegionQueueData::new("[DE]", "Frankfurt", "Standard", "10s", "6s"),
        RegionQueueData::new("[IE]", "Dublin", "Standard", "12s", "8s"),
    ];
    app.pings.insert("eu-central-1".to_string(), 35);
    app.pings.insert("eu-west-1".to_string(), 45);
    app.table_state.select(Some(0));
    let _ = table_view(&app, 0, None);
    let _ = header_line(&app, 0, None);
    assert_eq!(app.table_state.selected(), Some(0));
    let plan = screen_plan(24, app.get_filtered_sorted_rows().len());
    assert!(plan.show_summary);
    assert_eq!(summary_title(app.locale), " Best Pick ");
}

#[test]
fn test_draw_with_full_regions_on_80x24_terminal() {
    let plan = screen_plan(24, 15);
    assert!(plan.show_summary);
    assert_eq!(plan.margin, 1);
    assert_eq!(plan.table_height, 14);
    let small = screen_plan(11, 15);
    assert!(!small.show_summary);
    assert_eq!(small.margin, 0);
    assert_eq!(small.table_height, 7);
    assert_eq!(screen_plan(40, 0).table_height, 6);
}

#[test]
fn test_draw_summary_russian_and_skip_height() {
    let mut app = app_with(vec!["eu-central-1".to_string()], Language::Ru, TimeFormat::Exact);
    app.queues = vec![
        RegionQueueData::new("[DE]", "Frankfurt", "Standard", "10s", "6s"),
        RegionQueueData::new("[IE]", "Dublin", "Standard", "10s", "6s"),
    ];
    app.pings.insert("eu-central-1".to_string(), 35);
    app.pings.insert("eu-west-1".to_string(), 45);
    let summary = app.summary();
    let (killer, survivor) = summary_lines(&app, &summary);
    assert_eq!(summary_title(app.locale), " Лучший выбор ");
    assert!(text_of(&killer).contains("Маньяк:"));
    assert!(text_of(&killer).contains("+1 похожих"));
    assert!(text_of(&survivor).contains("+1 похожих"));
}

#[test]
fn test_draw_summary_alignment_and_tight_height() {
    let mut app = app_with(vec!["eu-central-1".to_string()], Language::En, TimeFormat::Exact);
    app.queues = vec![
        RegionQueueData::new("[DE]", "Frankfurt", "Standard", "12s", "6s"),
        RegionQueueData::new("[IE]", "Dublin", "Standard", "12s", "6s"),
    ];
    app.pings.insert("eu-central-1".to_string(), 62);
    app.pings.insert("eu-west-1".to_string(), 70);
    let summary = app.summary();
    let (killer, survivor) = summary_lines(&app, &summary);
    let l1 = text_of(&killer);
    let l2 = text_of(&survivor);
    assert!(l1.contains("Killer:"));
    assert!(l2.contains("Survivor:"));
    assert!(!l1.contains("Ping:") && !l2.contains("Ping:"));
    assert!(!l1.contains('('));
    assert!(!l2.contains('('));
    assert!(l1.contains("62 ms"));
    assert!(l2.contains("62 ms"));
    assert_eq!(l1.find("[DE] Frankfurt"), l2.find("[DE] Frankfurt"));
    assert_eq!(l1.find("62 ms"), l2.find("62 ms"));
    assert_eq!(killer[2].tone, Tone::LightRed);
    assert!(killer[2].bold);
}

#[test]
fn test_header_draws_time_format() {
    let mut app = app_with(vec![], Language::En, TimeFormat::Exact);
    let line = text_of(&header_line(&app, 0, None));
    assert!(line.contains("Time: ") && line.contains("Exact"));
    app.toggle_time_format();
    let line2 = text_of(&header_line(&app, 0, None));
    assert!(line2.contains("Time: ") && line2.contains("~Rounded"));
}

#[test]
fn test_header_event_badge_only_in_event_mode() {
    let now: i64 = 1_800_000_000;
    let mut app = app_with(vec![], Language::En, TimeFormat::Rounded);
    app.current_event = Some(EventItem {
        name: "2v8 event".to_string(),
        start: "1000".to_string(),
        end: format!("{}", now + 86400 * 11),
    });
    let header = text_of(&header_line(&app, now, None));
    assert!(header.contains("Mode: Standard"));
    assert!(!header.contains("2v8 event"));

    app.mode = GameMode::Event;
    let header2 = text_of(&header_line(&app, now + 1, None));
    assert!(header2.contains("Mode: Event [2v8 event - 11d left]"));
    assert!(header2.contains("│  Time: ~Rounded"));
}

#[test]
fn header_shows_upcoming_event_when_none_runs() {
    let mut app = app_with(vec!["eu-west-1".to_string()], Language::En, TimeFormat::Exact);
    app.mode = GameMode::Event;
    app.upcoming_event = Some(EventItem {
        name: "Halloween".to_string(),
        start: "2000".to_string(),
        end: "3000".to_string(),
    });
    let pieces = header_line(&app, 0, Some("Oct 31, 18:00"));
    let header = text_of(&pieces);
    assert!(header.contains(" [Upcoming: Halloween - starts Oct 31, 18:00]"), "{}", header);
    let last = pieces.last().unwrap();
    assert_eq!(last.tone, Tone::Green);
    assert!(last.bold);
    assert!(!text_of(&header_line(&app, 0, None)).contains("Halloween"));
}

#[test]
fn empty_table_messages() {
    let mut app = app_with(vec![], Language::En, TimeFormat::Exact);
    app.is_fetching = true;
    match table_view(&app, 0, None) {
        TableView::Message(p) => assert_eq!(p.tone, Tone::LightRed),
        TableView::Rows(_) => panic!("expected a message"),
    }
    app.is_fetching = false;
    app.mode = GameMode::Event;
    app.upcoming_event = Some(EventItem { name: "Blood Hunt".to_string(), start: "100".to_string(), end: "200".to_string() });
    match table_view(&app, 40, Some("Jan 01, 00:01")) {
        TableView::Message(p) => {
            assert_eq!(p.tone, Tone::LightYellow);
            assert!(p.text.starts_with("  "));
            assert!(p.text.contains("Blood Hunt"));
            assert!(p.text.ends_with("01:00)"), "{}", p.text);
        }
        TableView::Rows(_) => panic!("expected a message"),
    }
}

#[test]
fn table_rows_show_pings_and_locks() {
    let mut app = app_with(vec!["eu-central-1".to_string()], Language::En, TimeFormat::Exact);
    app.queues = vec![
        RegionQueueData::new("[DE]", "Frankfurt", "Standard", "0:10", "4:00"),
        RegionQueueData::new("[IE]", "Dublin", "Standard", "—", "—"),
        RegionQueueData::new("", "Tokyo", "Standard", "1:30", "0:30"),
    ];
    match table_view(&app, 0, None) {
        TableView::Rows(rows) => {
            assert_eq!(rows.len(), 3);
            assert_eq!(rows[1].region.text, "Tokyo");
            assert_eq!(rows[1].ping.text, "...");
            assert_eq!(rows[1].survivor.tone, Tone::Yellow);
            assert_eq!(rows[0].region.text, "[DE] Frankfurt");
            assert_eq!(rows[0].region.tone, Tone::LightRed);
            assert_eq!(rows[0].killer.tone, Tone::Red);
            assert_eq!(rows[2].region.text, "[IE] Dublin");
            assert_eq!(rows[2].survivor.text, "—");
            assert_eq!(rows[2].region.tone, Tone::DarkGray);
        }
        TableView::Message(_) => panic!("expected rows"),
    }
    app.pings.insert("eu-central-1".to_string(), 250);
    match table_view(&app, 0, None) {
        TableView::Rows(rows) => {
            assert_eq!(rows[1].ping.text, "—");
            assert_eq!(rows[0].ping.text, "250 ms");
            assert_eq!(rows[0].ping.tone, Tone::Red);
        }
        TableView::Message(_) => panic!("expected rows"),
    }
}

#[test]
fn footer_status() {
    let mut app = app_with(vec![], Language::En, TimeFormat::Exact);
    let line = text_of(&footer_line(&app, 100));
    assert!(line.starts_with(" [↑↓] "), "{}", line);
    assert_eq!(footer_line(&app, 100)[0].tone, Tone::LightRed);
    assert_eq!(footer_line(&app, 100)[1].tone, Tone::Plain);
    assert!(line.contains(" [T] "));
    app.is_fetching = false;
    app.api_last_updated = 100;
    let status = footer_line(&app, 130).pop().unwrap();
    assert_eq!(status.tone, Tone::DarkGray);
    app.is_fetching = true;
    app.spinner_frame = 11;
    let spin = footer_line(&app, 130).pop().unwrap();
    assert!(spin.text.starts_with("⠙ "));
    assert!(spin.bold);
}

#[test]
fn lock_list_entries() {
    let mut app = app_with(vec![], Language::En, TimeFormat::Exact);
    app.pings.insert("eu-central-1".to_string(), 25);
    app.open_lock_modal();
    app.lock_modal_selected = vec!["eu-central-1".to_string()];
    let items = modal_items(&app);
    assert_eq!(items.len(), 15);
    assert_eq!(items[0].text, "[*] [DE] Frankfurt (eu-central-1) - 25 ms");
    assert_eq!(items[0].tone, Tone::Green);
    assert!(items[0].highlighted);
    assert!(items[1].text.starts_with("[ ] "));
    assert!(!items[1].highlighted);
}
