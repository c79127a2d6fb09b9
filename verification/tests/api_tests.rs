use dbdqueue::api::{
    api_name_for_code, aws_code_for_name, check_queue_body, event_timestamp, format_event_countdown, format_seconds, format_seconds_opt,
    format_seconds_to_time, get_all_aws_regions, get_api_to_aws, get_aws_to_api, get_aws_to_flag,
    get_disabled_aws_regions, parse_time_to_seconds, resolve_region_names, resolve_to_aws_codes,
    rows_from_report, select_api_url, seconds_until, QueueReport, QueueSample, RegionQueueData,
};
use dbdqueue::config::TimeFormat;

#[test]
fn test_parse_time() {
    // Exact format
    assert_eq!(parse_time_to_seconds("0:01"), 1);
    assert_eq!(parse_time_to_seconds("0:53"), 53);
    assert_eq!(parse_time_to_seconds("1:00"), 60);
    assert_eq!(parse_time_to_seconds("3:27"), 207);
    assert_eq!(parse_time_to_seconds("4:54"), 294);
    assert_eq!(parse_time_to_seconds("30:52"), 1852);
    assert_eq!(parse_time_to_seconds("34:25"), 2065);
    assert_eq!(parse_time_to_seconds("1:00:00"), 3600);
    assert_eq!(parse_time_to_seconds("1:52:31"), 6751);

    // Rounded format
    assert_eq!(parse_time_to_seconds("1s"), 1);
    assert_eq!(parse_time_to_seconds("53s"), 53);
    assert_eq!(parse_time_to_seconds("59s"), 59);
    assert_eq!(parse_time_to_seconds("1m"), 60);
    assert_eq!(parse_time_to_seconds("5m"), 300);
    assert_eq!(parse_time_to_seconds("31m"), 1860);
    assert_eq!(parse_time_to_seconds("1h"), 3600);
    assert_eq!(parse_time_to_seconds("2h"), 7200);

    // Legacy formats
    assert_eq!(parse_time_to_seconds("1h+"), 3600);
    assert_eq!(parse_time_to_seconds("2h+"), 7200);
    assert_eq!(parse_time_to_seconds("3m"), 180);
    assert_eq!(parse_time_to_seconds("3m27s"), 207);

    // Disabled / empty
    assert_eq!(parse_time_to_seconds("—"), 999999);
    assert_eq!(parse_time_to_seconds(""), 999999);
}

#[test]
fn test_format_seconds_exact() {
    assert_eq!(format_seconds_to_time("0", TimeFormat::Exact), "—");
    assert_eq!(format_seconds_to_time("1", TimeFormat::Exact), "0:01");
    assert_eq!(format_seconds_to_time("53", TimeFormat::Exact), "0:53");
    assert_eq!(format_seconds_to_time("60", TimeFormat::Exact), "1:00");
    assert_eq!(format_seconds_to_time("180", TimeFormat::Exact), "3:00");
    assert_eq!(format_seconds_to_time("207", TimeFormat::Exact), "3:27");
    assert_eq!(format_seconds_to_time("294", TimeFormat::Exact), "4:54");
    assert_eq!(format_seconds_to_time("1852", TimeFormat::Exact), "30:52");
    assert_eq!(format_seconds_to_time("2065", TimeFormat::Exact), "34:25");
    assert_eq!(format_seconds_to_time("3599", TimeFormat::Exact), "59:59");
    assert_eq!(format_seconds_to_time("3600", TimeFormat::Exact), "1:00:00");
    assert_eq!(format_seconds_to_time("6751", TimeFormat::Exact), "1:52:31");
    assert_eq!(format_seconds_to_time("invalid", TimeFormat::Exact), "—");
}

#[test]
fn test_format_seconds_rounded() {
    assert_eq!(format_seconds_to_time("0", TimeFormat::Rounded), "—");
    assert_eq!(format_seconds_to_time("1", TimeFormat::Rounded), "1s");
    assert_eq!(format_seconds_to_time("53", TimeFormat::Rounded), "53s");
    assert_eq!(format_seconds_to_time("59", TimeFormat::Rounded), "59s");
    assert_eq!(format_seconds_to_time("60", TimeFormat::Rounded), "1m");
    assert_eq!(format_seconds_to_time("89", TimeFormat::Rounded), "1m");
    assert_eq!(format_seconds_to_time("90", TimeFormat::Rounded), "2m");
    assert_eq!(format_seconds_to_time("294", TimeFormat::Rounded), "5m");
    assert_eq!(format_seconds_to_time("1852", TimeFormat::Rounded), "31m");
    assert_eq!(format_seconds_to_time("3569", TimeFormat::Rounded), "59m");
    assert_eq!(format_seconds_to_time("3570", TimeFormat::Rounded), "1h");
    assert_eq!(format_seconds_to_time("3599", TimeFormat::Rounded), "1h");
    assert_eq!(format_seconds_to_time("3600", TimeFormat::Rounded), "1h");
    assert_eq!(format_seconds_to_time("5399", TimeFormat::Rounded), "1h");
    assert_eq!(format_seconds_to_time("5400", TimeFormat::Rounded), "2h");
    assert_eq!(format_seconds_to_time("6751", TimeFormat::Rounded), "2h");
    assert_eq!(format_seconds_to_time("invalid", TimeFormat::Rounded), "—");
}

#[test]
fn test_region_queue_data_reformat() {
    let mut row = RegionQueueData::new("[DE]", "Frankfurt", "Standard", "294", "1852");
    assert_eq!(row.survivor_secs, Some(294));
    assert_eq!(row.killer_secs, Some(1852));
    assert_eq!(row.survivor, "294"); // Initial raw string passed to new
    assert_eq!(row.killer, "1852");

    row.reformat(TimeFormat::Exact);
    assert_eq!(row.survivor, "4:54");
    assert_eq!(row.killer, "30:52");

    row.reformat(TimeFormat::Rounded);
    assert_eq!(row.survivor, "5m");
    assert_eq!(row.killer, "31m");

    row.reformat(TimeFormat::Exact);
    assert_eq!(row.survivor, "4:54");
    assert_eq!(row.killer, "30:52");
}

#[test]
fn test_parse_html_error() {
    let html = "<!DOCTYPE html><html><body>Access Denied / Blocked</body></html>";
    let res = check_queue_body(html, 200);
    assert!(res.is_err());
    let err = res.err().unwrap();
    assert!(err.contains("Received HTML block/page instead of JSON"));
    assert!(err.contains("Access Denied"));
}

#[test]
fn test_parse_empty_error() {
    let empty = "   \n";
    let res = check_queue_body(empty, 200);
    assert!(res.is_err());
    let err = res.err().unwrap();
    assert!(err.contains("Empty response received"));
}

#[test]
fn test_get_disabled_aws_regions() {
    let queues = vec![
        RegionQueueData::new("[GB]", "London", "Standard", "—", "—"),
        RegionQueueData::new("[DE]", "Frankfurt", "Standard", "15s", "30s"),
    ];
    let disabled = get_disabled_aws_regions(&queues);
    assert!(disabled.contains("eu-west-2"));
    assert!(!disabled.contains("eu-central-1"));
}

#[test]
fn test_resolve_region_names() {
    let input1 = vec!["Frankfurt,Dublin".to_string()];
    let parsed1 = resolve_region_names(&input1);
    assert_eq!(parsed1, vec!["Frankfurt", "Dublin"]);

    let input2 = vec!["sao paulo, montreal, virginia".to_string()];
    let parsed2 = resolve_region_names(&input2);
    assert_eq!(parsed2, vec!["São Paulo", "Montréal", "Virginia"]);

    let input3 = vec!["us-east-1".to_string(), "eu-central-1".to_string()];
    let parsed3 = resolve_region_names(&input3);
    assert_eq!(parsed3, vec!["Virginia", "Frankfurt"]);
}

#[test]
fn test_resolve_to_aws_codes() {
    let input = vec![
        "Frankfurt".to_string(),
        "sao paulo".to_string(),
        "us-east-1".to_string(),
    ];
    let codes = resolve_to_aws_codes(&input);
    assert_eq!(codes, vec!["eu-central-1", "sa-east-1", "us-east-1"]);
}

#[test]
fn test_format_event_countdown_exact() {
    // >= 1 day: "Xd HH:MM:SS"
    assert_eq!(format_event_countdown(90000, TimeFormat::Exact), "1d 01:00:00");
    assert_eq!(format_event_countdown(86400, TimeFormat::Exact), "1d 00:00:00");
    assert_eq!(format_event_countdown(172800 + 3661, TimeFormat::Exact), "2d 01:01:01");
    // >= 1 hour, < 1 day: "HH:MM:SS"
    assert_eq!(format_event_countdown(3661, TimeFormat::Exact), "01:01:01");
    assert_eq!(format_event_countdown(3600, TimeFormat::Exact), "01:00:00");
    // >= 1 min, < 1 hour: "MM:SS"
    assert_eq!(format_event_countdown(110, TimeFormat::Exact), "01:50");
    assert_eq!(format_event_countdown(60, TimeFormat::Exact), "01:00");
    // < 1 min: "00:SS"
    assert_eq!(format_event_countdown(45, TimeFormat::Exact), "00:45");
    assert_eq!(format_event_countdown(0, TimeFormat::Exact), "00:00");
}

#[test]
fn test_format_event_countdown_rounded() {
    // >= 1 day: "Xd"
    assert_eq!(format_event_countdown(90000, TimeFormat::Rounded), "1d");
    assert_eq!(format_event_countdown(172800, TimeFormat::Rounded), "2d");
    // >= 1 hour, < 1 day: "Xh"
    assert_eq!(format_event_countdown(7200, TimeFormat::Rounded), "2h");
    assert_eq!(format_event_countdown(3600, TimeFormat::Rounded), "1h");
    // >= 1 min, < 1 hour: "Xm"
    assert_eq!(format_event_countdown(120, TimeFormat::Rounded), "2m");
    assert_eq!(format_event_countdown(60, TimeFormat::Rounded), "1m");
    // < 1 min: "Xs"
    assert_eq!(format_event_countdown(45, TimeFormat::Rounded), "45s");
    assert_eq!(format_event_countdown(0, TimeFormat::Rounded), "0s");
}

#[test]
fn test_event_timestamp_to_local() {
    // Valid timestamp
    assert_eq!(event_timestamp("1788879600"), Some(1788879600));
    // Invalid
    assert!(event_timestamp("not_a_number").is_none());
    assert!(event_timestamp("").is_none());
}

#[test]
fn countdown_rounds_half_up() {
    // 10 days and 23 hours round to 11 days; 2 days and 12 hours to 3 days.
    assert_eq!(format_event_countdown(10 * 86400 + 23 * 3600, TimeFormat::Rounded), "11d");
    assert_eq!(format_event_countdown(2 * 86400 + 12 * 3600, TimeFormat::Rounded), "3d");
    assert_eq!(format_event_countdown(2 * 86400 + 12 * 3600 - 1, TimeFormat::Rounded), "2d");
    assert_eq!(format_event_countdown(23 * 3600 + 1800, TimeFormat::Rounded), "1d");
    assert_eq!(format_event_countdown(89, TimeFormat::Rounded), "1m");
    assert_eq!(format_event_countdown(90, TimeFormat::Rounded), "2m");
    assert_eq!(format_event_countdown(3599, TimeFormat::Rounded), "1h");
}

#[test]
fn event_timestamps_allow_spaces_and_signs() {
    assert_eq!(event_timestamp("  1000 \n"), Some(1000));
    assert_eq!(event_timestamp("-5"), Some(-5));
    assert_eq!(event_timestamp("+7"), Some(7));
    assert_eq!(event_timestamp("9223372036854775807"), Some(i64::MAX));
    assert_eq!(event_timestamp("-9223372036854775808"), Some(i64::MIN));
    assert_eq!(event_timestamp("9223372036854775808"), None);
    assert_eq!(event_timestamp("12a"), None);
    assert_eq!(event_timestamp("-"), None);
}

#[test]
fn seconds_until_stops_at_zero() {
    assert_eq!(seconds_until(100, 40), 60);
    assert_eq!(seconds_until(40, 100), 0);
    assert_eq!(seconds_until(i64::MAX, i64::MIN), u64::MAX);
}

#[test]
fn format_seconds_edges() {
    assert_eq!(format_seconds(0, TimeFormat::Exact), "—");
    assert_eq!(format_seconds(1, TimeFormat::Rounded), "1s");
    assert_eq!(format_seconds_opt(None, TimeFormat::Exact), "—");
    assert_eq!(format_seconds_opt(Some(0), TimeFormat::Exact), "—");
    assert_eq!(format_seconds_opt(Some(61), TimeFormat::Exact), "1:01");
}

#[test]
fn exact_times_read_back() {
    for s in [1u32, 59, 60, 61, 3599, 3600, 3601, 86399, 86400, 123456] {
        let text = format_seconds(s, TimeFormat::Exact);
        assert_eq!(parse_time_to_seconds(&text), s);
    }
}

#[test]
fn region_tables_agree() {
    let all = get_all_aws_regions();
    assert_eq!(all.len(), 15);
    let api_to_aws = get_api_to_aws();
    let aws_to_api = get_aws_to_api();
    let flags = get_aws_to_flag();
    assert_eq!(api_to_aws.len(), 15);
    for (name, code) in &api_to_aws {
        assert!(all.contains(code));
        assert!(aws_to_api.contains(&(*code, *name)));
    }
    assert!(flags.contains(&("eu-central-1", "[DE]")));
}

#[test]
fn body_checks_pass_json_through() {
    assert_eq!(check_queue_body("  {\"a\": 1}\n", 200), Ok("{\"a\": 1}".to_string()));
    let err = check_queue_body("", 503).err().unwrap();
    assert_eq!(err, "Empty response received from API (HTTP 503)");
    let err2 = check_queue_body("<p>\r\nno</p>", 403).err().unwrap();
    assert_eq!(err2, "Received HTML block/page instead of JSON (HTTP 403): <p>  no</p>...");
}

#[test]
fn api_url_precedence() {
    assert_eq!(select_api_url(Some(" http://a "), Some("http://b")), "http://a");
    assert_eq!(select_api_url(Some("   "), Some("http://b ")), "http://b");
    assert_eq!(select_api_url(None, None), "https://api2.deadbyqueue.com/queues");
    assert_eq!(select_api_url(None, Some("")), "https://api2.deadbyqueue.com/queues");
}

#[test]
fn report_rows_follow_region_table() {
    let sample = QueueSample { killer: Some("207".to_string()), survivor: Some("5".to_string()) };
    let bad = QueueSample { killer: Some("x".to_string()), survivor: None };
    let rep = QueueReport {
        last_updated: 1781286943,
        modes: vec![
            ("live".to_string(), vec![("eu-central-1".to_string(), sample), ("eu-west-1".to_string(), bad)]),
        ],
    };
    let (rows, updated) = rows_from_report(&rep);
    assert_eq!(updated, 1781286943);
    assert_eq!(rows.len(), 15);
    assert_eq!(rows[0].name, "Frankfurt");
    assert_eq!(rows[0].flag, "[DE]");
    assert_eq!(rows[0].mode, "Standard");
    assert_eq!(rows[0].killer, "3:27");
    assert_eq!(rows[0].survivor, "0:05");
    assert_eq!(rows[0].killer_secs, Some(207));
    assert_eq!(rows[1].name, "Dublin");
    assert_eq!(rows[1].killer, "—");
    assert_eq!(rows[1].killer_secs, None);
    assert_eq!(rows[2].survivor, "—");
    assert!(rows.iter().all(|r| r.mode == "Standard"));
}

#[test]
fn rounded_times_read_back() {
    for n in 1..60u32 {
        assert_eq!(parse_time_to_seconds(&format_seconds(n, TimeFormat::Rounded)), n);
    }
    assert_eq!(parse_time_to_seconds(&format_seconds(89, TimeFormat::Rounded)), 60);
    assert_eq!(parse_time_to_seconds(&format_seconds(90, TimeFormat::Rounded)), 120);
    assert_eq!(parse_time_to_seconds(&format_seconds(3569, TimeFormat::Rounded)), 3540);
}

#[test]
fn padded_times_read_the_same() {
    assert_eq!(parse_time_to_seconds("  1:00 \n"), 60);
    assert_eq!(parse_time_to_seconds("\t5m "), 300);
    assert_eq!(parse_time_to_seconds(" 45s"), parse_time_to_seconds("45s"));
    assert_eq!(parse_time_to_seconds("\u{2003}1:02:03\u{00a0}"), 3723);
}

#[test]
fn region_tables_are_inverse() {
    let regions = get_all_aws_regions();
    assert_eq!(get_api_to_aws().len(), regions.len());
    assert_eq!(get_aws_to_api().len(), regions.len());
    for (i, code) in regions.iter().enumerate() {
        assert_eq!(get_aws_to_api()[i].0, *code);
        let name = api_name_for_code(code).unwrap();
        assert_eq!(aws_code_for_name(name), Some(*code));
    }
    for (name, code) in get_api_to_aws() {
        assert_eq!(api_name_for_code(code), Some(name));
    }
    assert_eq!(api_name_for_code("eu-central-2"), None);
    assert_eq!(aws_code_for_name("Paris"), None);
}

#[test]
fn codes_resolve_in_any_case() {
    assert_eq!(resolve_region_names(&["US-EAST-1".to_string()]), vec!["Virginia"]);
    assert_eq!(resolve_region_names(&["Eu-Central-1".to_string()]), vec!["Frankfurt"]);
    assert_eq!(resolve_region_names(&["ap-SOUTHEAST-2".to_string()]), vec!["Sydney"]);
    for code in get_all_aws_regions() {
        let name = api_name_for_code(code).unwrap();
        assert_eq!(resolve_region_names(&[code.to_uppercase()]), vec![name]);
        assert_eq!(resolve_region_names(&[code.to_string()]), vec![name]);
    }
}

#[test]
fn resolved_names_all_have_codes() {
    let words: Vec<String> = ["sao", "paulo,", "tokyo", "nowhere", "EU-WEST-2,", "hong_kong"]
        .iter()
        .map(|w| w.to_string())
        .collect();
    let names = resolve_region_names(&words);
    assert_eq!(names, vec!["São Paulo", "Tokyo", "London", "Hong Kong"]);
    let codes: Vec<String> = names.iter().map(|n| aws_code_for_name(n).unwrap().to_string()).collect();
    assert_eq!(resolve_to_aws_codes(&words), codes);
    assert_eq!(codes, vec!["sa-east-1", "ap-northeast-1", "eu-west-2", "ap-east-1"]);
}

#[test]
fn reformat_twice_equals_once() {
    let original = RegionQueueData::new("[DE]", "Frankfurt", "Standard", "1:35", "—");
    let mut twice = original.clone();
    twice.reformat(TimeFormat::Rounded);
    twice.reformat(TimeFormat::Exact);
    let mut once = original.clone();
    once.reformat(TimeFormat::Exact);
    assert_eq!(twice, once);
    assert_eq!(twice.survivor, "1:35");
    assert_eq!(twice.killer, "—");
    assert_eq!(twice.survivor_secs, Some(95));
    assert_eq!(twice.killer_secs, None);
    let mut rounded = original.clone();
    rounded.reformat(TimeFormat::Exact);
    rounded.reformat(TimeFormat::Rounded);
    assert_eq!(rounded.survivor, "2m");
}
