use nullbyteui::bus::{EventBus, Topic};
use nullbyteui::lifecycle::{format_uptime, panel_text, PanelSources, PanelViewModel, PluginInstance};
use nullbyteui::screen::{fit_text_to_area, trim_to_width};

fn sources() -> PanelSources {
    PanelSources {
        system_overview: "CPU: 1\nRAM: 2".to_string(),
        process_list: "Disk: 3".to_string(),
        dns_summary: None,
        file_nav_summary: Some("root: /tmp\n(no entries)".to_string()),
        recent_logs: vec!["l1".to_string(), "l2".to_string()],
    }
}

#[test]
fn from_text_splits_lines_like_str_lines() {
    let v = PanelViewModel::from_text("a\r\nb\n\nc\n");
    assert_eq!(v.lines, vec!["a", "b", "", "c"]);
    assert!(PanelViewModel::from_text("").lines.is_empty());
    assert_eq!(PanelViewModel::from_text("x\r").lines, vec!["x\r"]);
}

#[test]
fn render_joins_lines() {
    let v = PanelViewModel { lines: vec!["a".into(), "b".into()] };
    assert_eq!(v.render(), "a\nb");
    assert_eq!(PanelViewModel::default().render(), "");
}

#[test]
fn render_then_from_text_round_trips() {
    let v = PanelViewModel { lines: vec!["x".into(), "".into(), "y z".into()] };
    assert_eq!(PanelViewModel::from_text(&v.render()).lines, v.lines);
}

#[test]
fn update_publishes_only_on_change() {
    let mut bus = EventBus::new(16);
    let mut p = PluginInstance::init("log_stream".to_string(), "bottom".to_string());
    let mut src = sources();
    p.update(&src, &mut bus);
    assert_eq!(p.current_view().lines, vec!["l1", "l2"]);
    p.update(&src, &mut bus);
    src.recent_logs.push("l3".into());
    p.update(&src, &mut bus);
    let events = bus.drain();
    assert_eq!(events.len(), 2);
    for e in &events {
        match &e.topic {
            Topic::PanelUpdate { region } => assert_eq!(region, "bottom"),
        }
        assert_eq!(e.payload.as_deref(), Some("bottom"));
    }
}

#[test]
fn panel_content_by_plugin_id() {
    let mut bus = EventBus::new(16);
    let src = sources();
    let cases = [
        ("system_overview", vec!["CPU: 1", "RAM: 2"]),
        ("process_list", vec!["Disk: 3"]),
        ("technitium_dns_chart", vec!["DNS: connecting..."]),
        ("file_navigation", vec!["root: /tmp", "(no entries)"]),
        ("mystery", vec!["[mystery] no data"]),
    ];
    for (id, expected) in cases {
        let mut p = PluginInstance::init(id.to_string(), "top".to_string());
        p.update(&src, &mut bus);
        assert_eq!(p.current_view().lines, expected);
        p.dispose();
    }
    let mut src2 = sources();
    src2.dns_summary = Some("DNS ok".into());
    src2.file_nav_summary = None;
    let mut d = PluginInstance::init("technitium_dns_chart".to_string(), "right".to_string());
    d.update(&src2, &mut bus);
    assert_eq!(d.current_view().lines, vec!["DNS ok"]);
    let mut f = PluginInstance::init("file_navigation".to_string(), "center".to_string());
    f.update(&src2, &mut bus);
    assert_eq!(f.current_view().lines, vec!["file_navigation: connecting..."]);
}

#[test]
fn region_text_uses_first_matching_plugin() {
    let mut bus = EventBus::new(16);
    let src = sources();
    let mut a = PluginInstance::init("process_list".to_string(), "left".to_string());
    let mut b = PluginInstance::init("system_overview".to_string(), "top".to_string());
    a.update(&src, &mut bus);
    b.update(&src, &mut bus);
    let instances = vec![a, b];
    assert_eq!(panel_text(&instances, "top"), "CPU: 1\nRAM: 2");
    assert_eq!(panel_text(&instances, "left"), "Disk: 3");
    assert_eq!(panel_text(&instances, "right"), "");
}

#[test]
fn uptime_formats() {
    assert_eq!(format_uptime(0), "00:00:00");
    assert_eq!(format_uptime(3661), "01:01:01");
    assert_eq!(format_uptime(86399), "23:59:59");
    assert_eq!(format_uptime(90061), "1d 01:01:01");
    assert_eq!(format_uptime(10 * 86400 + 59), "10d 00:00:59");
}

#[test]
fn fit_wraps_and_clips() {
    assert_eq!(fit_text_to_area("hello world", 7, 4, true), "hello\n worl");
    assert_eq!(fit_text_to_area("ab\n\ncd", 5, 10, true), "ab\n\ncd");
    assert_eq!(fit_text_to_area("abcdefgh\nxy", 5, 10, true), "abc\ndef\ngh\nxy");
    assert_eq!(fit_text_to_area("abcdefgh\nxy", 5, 10, false), "abc\nxy");
    assert_eq!(fit_text_to_area("anything", 2, 10, true), "");
    assert_eq!(fit_text_to_area("anything", 10, 1, true), "");
}

#[test]
fn fitted_text_stays_inside_panel() {
    let text = "a very long line that keeps going\nshort\n\nanother long line here";
    let out = fit_text_to_area(text, 8, 6, true);
    let rows: Vec<&str> = out.split('\n').collect();
    assert!(rows.len() <= 4);
    assert!(rows.iter().all(|r| r.chars().count() <= 6));
}

#[test]
fn trim_to_width_counts_chars() {
    assert_eq!(trim_to_width("héllo", 2), "hé");
    assert_eq!(trim_to_width("ab", 5), "ab");
}

#[test]
fn view_from_text_renders_the_text_back() {
    for text in ["", "one", "a\n\nb", "\nlead", "x\ny\nz"] {
        assert_eq!(PanelViewModel::from_text(text).render(), text);
    }
}
