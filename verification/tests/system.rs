use nullbyteui::layout::{LayoutConfig, RegionConfig};
use nullbyteui::manager::{ManagerError, PluginManager};
use nullbyteui::manifest::{insert_manifest, validate_manifests, ManifestFault, PluginManifest};
use nullbyteui::metrics::MetricsCollector;
use nullbyteui::procfs::{
    parse_cpu_counters, parse_meminfo_mb, parse_net_bytes, parse_process_cpu_ticks,
    parse_process_rss_mb,
};
use nullbyteui::runtime::{config_path_from_args, is_quit_key, memory_percent};
use nullbyteui::text::{decimal_string, parse_u64};

fn manifest(id: &str) -> PluginManifest {
    PluginManifest {
        id: id.into(),
        version: "1.0.0".into(),
        title: "Title".into(),
        description: "Desc".into(),
        update_interval_ms: 1000,
        permissions: vec!["metrics.read".into()],
    }
}

fn index(ids: &[&str]) -> Vec<(String, PluginManifest)> {
    let mut v = Vec::new();
    for id in ids {
        insert_manifest(&mut v, manifest(id));
    }
    v
}

fn layout() -> LayoutConfig {
    LayoutConfig {
        schema_version: 1,
        profile: "default".into(),
        regions: vec![
            ("bottom".to_string(), RegionConfig { plugin: "log_stream".into() }),
            ("top".to_string(), RegionConfig { plugin: "system_overview".into() }),
            ("left".to_string(), RegionConfig { plugin: "process_list".into() }),
            ("center".to_string(), RegionConfig { plugin: "file_navigation".into() }),
            ("right".to_string(), RegionConfig { plugin: "technitium_dns_chart".into() }),
        ],
        dns_host: None,
        dns_port: None,
        dns_token: None,
        diagnostics_log_path: None,
        target_process_rss_mb: None,
        terminal_boot_command: None,
        file_nav_root: None,
    }
}

const ALL: [&str; 5] = ["system_overview", "process_list", "file_navigation", "technitium_dns_chart", "log_stream"];

#[test]
fn manager_orders_bindings_by_layout() {
    let m = PluginManager::new(&layout(), &index(&ALL)).unwrap();
    let pairs = m.region_plugin_pairs();
    let regions: Vec<&str> = pairs.iter().map(|p| p.0.as_str()).collect();
    assert_eq!(regions, vec!["top", "left", "center", "right", "bottom"]);
    assert_eq!(pairs[4].1, "log_stream");
    let inst = m.instantiate();
    assert_eq!(inst.len(), 5);
    assert_eq!(inst[3].id, "technitium_dns_chart");
    assert_eq!(inst[3].region, "right");
}

#[test]
fn manager_refuses_empty_layout() {
    let mut l = layout();
    l.regions.clear();
    assert!(matches!(PluginManager::new(&l, &index(&ALL)), Err(ManagerError::NoRegions)));
}

#[test]
fn manager_reports_missing_binding_and_plugin() {
    let mut l = layout();
    l.regions.remove(3);
    match PluginManager::new(&l, &index(&ALL)) {
        Err(ManagerError::MissingBinding(r)) => assert_eq!(r, "center"),
        _ => panic!("expected missing binding"),
    }
    match PluginManager::new(&layout(), &index(&["system_overview", "process_list"])) {
        Err(ManagerError::PluginNotFound(id)) => assert_eq!(id, "file_navigation"),
        _ => panic!("expected unknown plugin"),
    }
}

#[test]
fn manifest_faults_in_check_order() {
    let mut bad = index(&ALL);
    bad[1].1.permissions.push("  ".into());
    match PluginManager::new(&layout(), &bad) {
        Err(ManagerError::InvalidManifest(e)) => {
            assert_eq!(e.id, "process_list");
            assert_eq!(e.fault, ManifestFault::EmptyPermission);
        }
        _ => panic!("expected invalid manifest"),
    }
    let cases: Vec<(Box<dyn Fn(&mut PluginManifest)>, ManifestFault)> = vec![
        (Box::new(|m| m.id = " ".into()), ManifestFault::IdMismatch),
        (Box::new(|m| m.id = "other".into()), ManifestFault::IdMismatch),
        (Box::new(|m| m.version = "".into()), ManifestFault::MissingVersion),
        (Box::new(|m| m.title = "\t".into()), ManifestFault::MissingTitle),
        (Box::new(|m| m.description = "".into()), ManifestFault::MissingDescription),
        (Box::new(|m| m.update_interval_ms = 0), ManifestFault::ZeroUpdateInterval),
    ];
    for (change, fault) in cases {
        let mut v = index(&["a"]);
        change(&mut v[0].1);
        let e = validate_manifests(&v).unwrap_err();
        assert_eq!(e.fault, fault);
        assert_eq!(e.id, "a");
    }
    assert!(validate_manifests(&index(&ALL)).is_ok());
}

#[test]
fn later_manifest_replaces_earlier() {
    let mut v = index(&["a", "b"]);
    let mut m = manifest("a");
    m.version = "2.0".into();
    insert_manifest(&mut v, m);
    assert_eq!(v.len(), 2);
    assert_eq!(v[0].0, "a");
    assert_eq!(v[0].1.version, "2.0");
}

#[test]
fn cpu_counters_from_proc_stat() {
    assert_eq!(parse_cpu_counters("cpu  10 20 30 40 5 6 7 8 9 10\ncpu0 1 1 1 1"), Some((126, 45)));
    assert_eq!(parse_cpu_counters("cpu 1 2 3 4"), Some((10, 4)));
    assert_eq!(parse_cpu_counters("cpu 1 2 3 4 x 2"), Some((12, 4)));
    assert_eq!(parse_cpu_counters("cpu 1 2"), None);
    assert_eq!(parse_cpu_counters("cpu 1 2 z 4"), None);
    assert_eq!(parse_cpu_counters(""), None);
    assert_eq!(
        parse_cpu_counters("cpu 18446744073709551615 1 0 0"),
        Some((u64::MAX, 0))
    );
}

#[test]
fn meminfo_in_mb() {
    assert_eq!(parse_meminfo_mb("MemTotal:  2048000 kB\nMemFree: 1 kB\nMemAvailable: 1024000 kB\n"), Some((1000, 2000)));
    assert_eq!(parse_meminfo_mb("MemTotal: 4096 kB"), Some((4, 4)));
    assert_eq!(parse_meminfo_mb("MemAvailable: 4096 kB"), None);
    assert_eq!(parse_meminfo_mb("MemTotal: abc kB"), None);
}

#[test]
fn net_bytes_skip_loopback() {
    let dev = "Inter-|   Receive\n face |bytes packets\n    lo: 100 1 0 0 0 0 0 0 200 1 0 0 0 0 0 0\n  eth0: 1000 10 0 0 0 0 0 0 2000 20 0 0 0 0 0 0\n wlan0: 5 1 0 0 0 0 0 0 6 1\n";
    assert_eq!(parse_net_bytes(dev), Some((1005, 2006)));
    assert_eq!(parse_net_bytes("h1\nh2\nbroken line\n"), None);
    assert_eq!(parse_net_bytes("h1\nh2\n"), Some((0, 0)));
    assert_eq!(parse_net_bytes("h1\nh2\n eth0: 1 2 3\n"), Some((0, 0)));
}

#[test]
fn process_ticks_and_rss() {
    let stat = "1234 (my prog) S 1 2 3 4 5 6 7 8 9 10 11 12 13 14";
    assert_eq!(parse_process_cpu_ticks(stat), Some(23));
    assert_eq!(parse_process_cpu_ticks("no paren"), None);
    assert_eq!(parse_process_cpu_ticks("1 (x)"), None);
    assert_eq!(parse_process_cpu_ticks("1 (x)\u{e9}S 1 2 3 4 5 6 7 8 9 10 11 12"), None);
    assert_eq!(parse_process_rss_mb("Name:\tx\nVmRSS:\t  20480 kB\nVmRSS: 1 kB"), Some(20));
    assert_eq!(parse_process_rss_mb("VmRSS: none"), None);
    assert_eq!(parse_process_rss_mb("Name: x"), None);
}

#[test]
fn config_path_option() {
    let args = |v: &[&str]| v.iter().map(|s| s.to_string()).collect::<Vec<_>>();
    assert_eq!(config_path_from_args(&args(&["app"])), "config/layout.default.toml");
    assert_eq!(config_path_from_args(&args(&["app", "--config", "a.toml"])), "a.toml");
    assert_eq!(config_path_from_args(&args(&["app", "--config", "a.toml", "--config", "b.toml"])), "b.toml");
    assert_eq!(config_path_from_args(&args(&["app", "x", "--config"])), "config/layout.default.toml");
    assert_eq!(config_path_from_args(&args(&[])), "config/layout.default.toml");
}

#[test]
fn runtime_defaults() {
    let s = layout().runtime_settings();
    assert_eq!(s.dns_host, "localhost");
    assert_eq!(s.dns_port, 5380);
    assert_eq!(s.dns_token, "");
    assert_eq!(s.file_nav_root, "/home/pi");
    assert_eq!(s.max_process_rss_mb, 180);
    let mut l = layout();
    l.dns_port = Some(53);
    l.file_nav_root = Some("/srv".into());
    let s = l.runtime_settings();
    assert_eq!(s.dns_port, 53);
    assert_eq!(s.file_nav_root, "/srv");
}

#[test]
fn memory_percentages() {
    assert_eq!(memory_percent(512, 2048), 25);
    assert_eq!(memory_percent(1, 0), 0);
    assert_eq!(memory_percent(u64::MAX, u64::MAX), 1);
}

#[test]
fn collector_counters_and_logs() {
    let mut c = MetricsCollector::new();
    assert_eq!(c.swap_cpu_counters(100, 40), (0, 0));
    assert_eq!(c.swap_cpu_counters(150, 60), (100, 40));
    assert_eq!(c.net_deltas(1000, 500), (1000, 500));
    assert_eq!(c.net_deltas(900, 700), (0, 200));
    assert!(c.log_source().is_none());
    c.choose_log_source("/var/log/syslog".into());
    c.choose_log_source("/var/log/messages".into());
    assert_eq!(c.log_source().as_deref(), Some("/var/log/syslog"));
    assert_eq!(c.log_read_offset(10), 0);
    assert!(!c.record_log_delta("one\ntwo\n", 8));
    assert_eq!(c.log_read_offset(8), 8);
    assert_eq!(c.log_read_offset(3), 0);
    assert_eq!(c.recent_logs(), vec!["one", "two"]);
    let mut fresh = MetricsCollector::new();
    assert!(fresh.record_log_delta("", 50));
    let content: String = (0..30).map(|i| format!("k{i}\n")).collect();
    fresh.bootstrap_logs(&content);
    let logs = fresh.recent_logs();
    assert_eq!(logs.len(), 24);
    assert_eq!(logs[0], "k6");
}

#[test]
fn numbers_print_and_parse_back() {
    for n in [0u64, 7, 10, 1234567890, u64::MAX] {
        let s = decimal_string(n);
        assert_eq!(s, n.to_string());
        let v: Vec<char> = s.chars().collect();
        assert_eq!(parse_u64(&v, 0, v.len()), Some(n));
    }
    let p: Vec<char> = "+42".chars().collect();
    assert_eq!(parse_u64(&p, 0, p.len()), Some(42));
    let p: Vec<char> = "+".chars().collect();
    assert_eq!(parse_u64(&p, 0, p.len()), None);
    let p: Vec<char> = "18446744073709551616".chars().collect();
    assert_eq!(parse_u64(&p, 0, p.len()), None);
}

#[test]
fn only_a_pressed_q_quits() {
    assert!(is_quit_key(true, Some('q')));
    assert!(!is_quit_key(false, Some('q')));
    assert!(!is_quit_key(true, Some('Q')));
    assert!(!is_quit_key(true, None));
}
