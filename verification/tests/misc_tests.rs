use std::path::Path;

use dbdqueue::cache::{get_cache_path, PingCache};
use dbdqueue::config::{config_path_parts, AppConfig, GameMode, Language, SortOrder, TimeFormat};
use dbdqueue::firewall::{
    block_script, clear_script, firewall_plan, get_aws_to_sdr_map, lock_script, script_outcome, merge_blocked_v4,
    prefixes_to_block, sdr_subnets, subnet_for, AwsPrefix, FirewallPlan, SdrPop,
};
use dbdqueue::i18n::{format_time_diff, resolve_locale_from_sources, tr, tr_mode, tr_sort, Locale, TextKey};
use dbdqueue::ping::PingMap;
use dbdqueue::app::UpdateHostsResult;

#[test]
fn test_get_cache_path() {
    let config_path = Path::new("foo").join("bar").join("config.toml");
    let cache_path = get_cache_path(&config_path);
    assert_eq!(cache_path, Path::new("foo").join("bar").join("cache.json"));
}

#[test]
fn cache_path_without_parent() {
    assert_eq!(get_cache_path(Path::new("")), Path::new("cache.json"));
}

#[test]
fn test_locale_precedence() {
    // Explicit En
    assert_eq!(
        resolve_locale_from_sources(Language::En, Some("ru_RU"), Some("ru"), Some("ru"), Some("ru")),
        Locale::En
    );
    // Explicit Ru
    assert_eq!(
        resolve_locale_from_sources(Language::Ru, Some("en_US"), Some("en"), Some("en"), Some("en")),
        Locale::Ru
    );

    // Auto: sys_locale takes precedence
    assert_eq!(
        resolve_locale_from_sources(Language::Auto, Some("ru-RU"), Some("en_US"), Some("en_US"), Some("en_US")),
        Locale::Ru
    );
    assert_eq!(
        resolve_locale_from_sources(Language::Auto, Some("en-US"), Some("ru_RU"), Some("ru_RU"), Some("ru_RU")),
        Locale::En
    );

    // Auto: sys_locale empty / None -> falls back to LC_ALL
    assert_eq!(
        resolve_locale_from_sources(Language::Auto, None, Some("ru_RU.UTF-8"), Some("en"), Some("en")),
        Locale::Ru
    );
    assert_eq!(
        resolve_locale_from_sources(Language::Auto, Some(""), Some("en_US.UTF-8"), Some("ru"), Some("ru")),
        Locale::En
    );

    // Auto: LC_ALL empty / None -> falls back to LC_MESSAGES
    assert_eq!(
        resolve_locale_from_sources(Language::Auto, None, None, Some("ru_RU"), Some("en")),
        Locale::Ru
    );
    assert_eq!(
        resolve_locale_from_sources(Language::Auto, None, Some("   "), Some("en_US"), Some("ru")),
        Locale::En
    );

    // Auto: LC_MESSAGES empty / None -> falls back to LANG
    assert_eq!(
        resolve_locale_from_sources(Language::Auto, None, None, None, Some("ru_RU.UTF-8")),
        Locale::Ru
    );
    assert_eq!(
        resolve_locale_from_sources(Language::Auto, None, None, None, Some("fr_FR")),
        Locale::En
    );

    // Auto: All empty -> defaults to En
    assert_eq!(resolve_locale_from_sources(Language::Auto, None, None, None, None), Locale::En);
}

#[test]
fn translations() {
    assert_eq!(tr(Locale::En, TextKey::SortLabel), "Sort: ");
    assert_eq!(tr_sort(Locale::Ru, SortOrder::Ping), "Пинг");
    assert_eq!(tr_mode(Locale::En, GameMode::Event), "Event");
    assert_eq!(format_time_diff(Locale::En, 30), "just now");
    assert_eq!(format_time_diff(Locale::En, 3725), "1h 2m ago");
}

#[test]
fn setting_names_read_back() {
    for s in [SortOrder::Default, SortOrder::Killer, SortOrder::Survivor, SortOrder::Ping] {
        assert_eq!(SortOrder::from_name(s.name()), s);
    }
    for m in [GameMode::Standard, GameMode::Event] {
        assert_eq!(GameMode::from_name(m.name()), m);
    }
    for f in [TimeFormat::Exact, TimeFormat::Rounded] {
        assert_eq!(TimeFormat::from_name(f.name()), f);
    }
    for l in [Language::Auto, Language::En, Language::Ru] {
        assert_eq!(Language::from_name(l.name()), l);
    }
    assert_eq!(SortOrder::from_name("PRIORITY"), SortOrder::Ping);
    assert_eq!(SortOrder::from_name("unrecognized_sort"), SortOrder::Default);
    assert_eq!(GameMode::from_name("both"), GameMode::Standard);
    assert_eq!(Language::from_name("es"), Language::Auto);
}

#[test]
fn command_line_overrides() {
    let base = AppConfig::default();
    let (c, changed) = base.clone().with_cli(Some("Killer"), None, Some("rounded"));
    assert!(changed);
    assert_eq!(c.sort, SortOrder::Killer);
    assert_eq!(c.mode, GameMode::Standard);
    assert_eq!(c.time_format, TimeFormat::Rounded);
    let (d, changed2) = base.with_cli(None, None, None);
    assert!(!changed2);
    assert_eq!(d, AppConfig::default());
}

#[test]
fn config_path_components() {
    assert_eq!(config_path_parts(false, None, None, Some("/home/a")), vec!["/home/a", ".config", "dbdqueue", "config.toml"]);
    assert_eq!(config_path_parts(false, Some("x"), None, None), vec!["config.toml"]);
    assert_eq!(config_path_parts(true, Some("C:\\AppData"), Some("u"), None), vec!["C:\\AppData", "dbdqueue", "config.toml"]);
    assert_eq!(config_path_parts(true, None, Some("C:\\Users\\a"), None), vec!["C:\\Users\\a", ".config", "dbdqueue", "config.toml"]);
}

#[test]
fn cache_merge_keeps_old_pings() {
    let mut old = PingMap::new();
    old.insert("eu-central-1".to_string(), 35);
    let cache = PingCache { updated_at: 5, pings: old };
    let mut new = PingMap::new();
    new.insert("us-east-1".to_string(), 99);
    let merged = cache.merged(&new, 1700000000).unwrap();
    assert_eq!(merged.updated_at, 1700000000);
    assert_eq!(merged.pings.get("eu-central-1"), Some(35));
    assert_eq!(merged.pings.get("us-east-1"), Some(99));
    assert!(merged.merged(&PingMap::new(), 1).is_none());
    let d = PingCache::default();
    assert_eq!(d.updated_at, 0);
    assert!(d.pings.is_empty());
}

#[test]
fn firewall_plans() {
    assert_eq!(firewall_plan(None), FirewallPlan::Clear);
    let all: Vec<String> = dbdqueue::api::get_all_aws_regions().iter().map(|s| s.to_string()).collect();
    assert_eq!(firewall_plan(Some(&all)), FirewallPlan::Clear);
    let sel = vec!["eu-central-1".to_string(), "us-west-1".to_string()];
    match firewall_plan(Some(&sel)) {
        FirewallPlan::Block { regions_to_block, allowed_pops } => {
            assert_eq!(regions_to_block.len(), 12);
            assert!(!regions_to_block.contains(&"us-east-1".to_string()));
            assert!(!regions_to_block.contains(&"eu-central-1".to_string()));
            assert_eq!(regions_to_block[0], "eu-west-1");
            assert_eq!(allowed_pops, vec!["fra", "fsn", "vie", "waw", "lax"]);
        }
        FirewallPlan::Clear => panic!("expected a block plan"),
    }
    assert_eq!(get_aws_to_sdr_map().len(), 15);
}

#[test]
fn firewall_address_lists() {
    assert_eq!(subnet_for("155.133.226.71"), Some("155.133.226.0/24".to_string()));
    assert_eq!(subnet_for("nodots"), None);
    let pops = vec![
        SdrPop { code: "fra".to_string(), relays: Some(vec!["1.2.3.4".to_string()]) },
        SdrPop { code: "iad".to_string(), relays: Some(vec!["9.9.9.9".to_string(), "9.9.9.10".to_string(), "5.6.7.8".to_string()]) },
        SdrPop { code: "sgp".to_string(), relays: None },
    ];
    let subnets = sdr_subnets(&pops, &["fra".to_string()]);
    assert_eq!(subnets, vec!["5.6.7.0/24", "9.9.9.0/24"]);
    let prefixes = vec![
        AwsPrefix { prefix: "3.0.0.0/8".to_string(), region: "eu-west-1".to_string() },
        AwsPrefix { prefix: "4.0.0.0/8".to_string(), region: "us-east-1".to_string() },
    ];
    assert_eq!(prefixes_to_block(&prefixes, &["eu-west-1".to_string()]), vec!["3.0.0.0/8"]);
    let v4 = merge_blocked_v4(vec!["9.9.9.0/24".to_string(), "3.0.0.0/8".to_string()], subnets);
    assert_eq!(v4, vec!["3.0.0.0/8", "5.6.7.0/24", "9.9.9.0/24"]);
}

#[test]
fn firewall_scripts() {
    let clear = clear_script();
    assert!(clear.starts_with("#!/bin/bash\n"));
    assert!(clear.ends_with("fi\n"));
    assert!(clear.contains("ipset destroy dbdqueue_block 2>/dev/null\n"));
    let script = block_script(&["1.0.0.0/8".to_string(), "2.0.0.0/8".to_string()], &[]);
    assert!(script.contains("        elements = {\n            1.0.0.0/8,\n            2.0.0.0/8\n        }\n"));
    assert!(script.contains("add dbdqueue_block 1.0.0.0/8\nadd dbdqueue_block 2.0.0.0/8\n"));
    assert!(script.contains("    set blocked_ips_v6 {\n        type ipv6_addr\n        flags interval\n        auto-merge\n    }\n"));
    assert!(script.ends_with("    ip6tables -I OUTPUT -m set --match-set dbdqueue_block_v6 dst -j REJECT\nfi\n"));
}

#[test]
fn lock_script_merges_relays_into_v4() {
    let pops = vec![
        SdrPop { code: "fra".to_string(), relays: Some(vec!["1.2.3.4".to_string()]) },
        SdrPop { code: "iad".to_string(), relays: Some(vec!["9.9.9.9".to_string(), "5.6.7.8".to_string()]) },
    ];
    let v4 = vec![
        AwsPrefix { prefix: "9.9.9.0/24".to_string(), region: "eu-west-1".to_string() },
        AwsPrefix { prefix: "3.0.0.0/8".to_string(), region: "eu-west-1".to_string() },
        AwsPrefix { prefix: "4.0.0.0/8".to_string(), region: "us-east-1".to_string() },
    ];
    let v6 = vec![
        AwsPrefix { prefix: "2001:db8::/32".to_string(), region: "eu-west-1".to_string() },
        AwsPrefix { prefix: "2001:db9::/32".to_string(), region: "us-east-1".to_string() },
    ];
    let script = lock_script(&["eu-west-1".to_string()], &["fra".to_string()], &v4, &v6, &pops);
    let expected = block_script(
        &["3.0.0.0/8".to_string(), "5.6.7.0/24".to_string(), "9.9.9.0/24".to_string()],
        &["2001:db8::/32".to_string()],
    );
    assert_eq!(script, expected);
}

#[test]
fn script_outcomes() {
    assert_eq!(script_outcome(true, Some(0)), UpdateHostsResult::Updated);
    assert_eq!(script_outcome(false, Some(126)), UpdateHostsResult::ElevationFailed);
    assert_eq!(script_outcome(false, Some(127)), UpdateHostsResult::ElevationFailed);
    assert_eq!(script_outcome(false, Some(1)), UpdateHostsResult::Error("exit code Some(1)".to_string()));
    assert_eq!(script_outcome(false, None), UpdateHostsResult::Error("exit code None".to_string()));
    assert_eq!(
        script_outcome(false, Some(-3)),
        UpdateHostsResult::Error(format!("exit code {:?}", Some(-3i32)))
    );
    assert_eq!(
        script_outcome(false, Some(i32::MIN)),
        UpdateHostsResult::Error(format!("exit code {:?}", Some(i32::MIN)))
    );
}
