use nullbyteui::bus::{Event, EventBus, Topic};
use nullbyteui::layout::{BindingFault, LayoutConfig, LayoutError, RegionConfig};
use nullbyteui::ring::push_history;
use std::collections::VecDeque;

fn event(region: &str) -> Event {
    Event::with_payload(Topic::PanelUpdate { region: region.to_string() }, region.to_string())
}

fn region_of(e: &Event) -> String {
    match &e.topic {
        Topic::PanelUpdate { region } => region.clone(),
    }
}

#[test]
fn with_payload_keeps_topic_and_payload() {
    let e = event("top");
    assert_eq!(region_of(&e), "top");
    assert_eq!(e.payload.as_deref(), Some("top"));
}

#[test]
fn bus_drops_oldest_when_full() {
    let mut bus = EventBus::new(2);
    bus.publish(event("a"));
    bus.publish(event("b"));
    bus.publish(event("c"));
    let drained: Vec<String> = bus.drain().iter().map(region_of).collect();
    assert_eq!(drained, vec!["b", "c"]);
    assert!(bus.drain().is_empty());
}

#[test]
fn bus_with_zero_capacity_keeps_nothing() {
    let mut bus = EventBus::new(0);
    bus.publish(event("a"));
    bus.publish(event("b"));
    assert!(bus.drain().is_empty());
}

#[test]
fn bus_below_capacity_delivers_every_event() {
    let mut bus = EventBus::new(3);
    for r in ["x", "y", "z"] {
        bus.publish(event(r));
    }
    let drained: Vec<String> = bus.drain().iter().map(region_of).collect();
    assert_eq!(drained, vec!["x", "y", "z"]);
    assert!(bus.drain().is_empty());
}

#[test]
fn bus_drains_in_publication_order() {
    let mut bus = EventBus::new(128);
    for r in ["top", "left", "center"] {
        bus.publish(event(r));
    }
    let drained: Vec<String> = bus.drain().iter().map(region_of).collect();
    assert_eq!(drained, vec!["top", "left", "center"]);
}

#[test]
fn topics_compare_by_region() {
    let a = Topic::PanelUpdate { region: "top".to_string() };
    let b = Topic::PanelUpdate { region: "top".to_string() };
    let c = Topic::PanelUpdate { region: "left".to_string() };
    assert!(a == b);
    assert!(a != c);
}

#[test]
fn history_is_capped() {
    let mut h: VecDeque<u64> = VecDeque::new();
    for v in 1..=5u64 {
        push_history(&mut h, v, 3);
    }
    assert_eq!(h.iter().copied().collect::<Vec<_>>(), vec![3, 4, 5]);
}

pub fn layout_with(regions: &[(&str, &str)], schema_version: u32) -> LayoutConfig {
    LayoutConfig {
        schema_version,
        profile: "default".to_string(),
        regions: regions
            .iter()
            .map(|(r, p)| (r.to_string(), RegionConfig { plugin: p.to_string() }))
            .collect(),
        dns_host: None,
        dns_port: None,
        dns_token: None,
        diagnostics_log_path: None,
        target_process_rss_mb: None,
        terminal_boot_command: None,
        file_nav_root: None,
    }
}

const FULL: [(&str, &str); 5] = [
    ("top", "system_overview"),
    ("left", "process_list"),
    ("center", "file_navigation"),
    ("right", "technitium_dns_chart"),
    ("bottom", "log_stream"),
];

#[test]
fn complete_layout_validates() {
    assert!(layout_with(&FULL, 1).validate().is_ok());
}

#[test]
fn zero_schema_version_is_refused() {
    assert!(matches!(layout_with(&FULL, 0).validate(), Err(LayoutError::ZeroSchemaVersion)));
}

#[test]
fn first_missing_region_is_reported() {
    let regions = [("top", "a"), ("left", "b"), ("right", "d")];
    match layout_with(&regions, 1).validate() {
        Err(LayoutError::MissingRegion(r)) => assert_eq!(r, "center"),
        other => panic!("unexpected {:?}", other),
    }
}

#[test]
fn plugin_lookup_by_region() {
    let layout = layout_with(&FULL, 1);
    assert_eq!(layout.plugin_for_region("right"), Some("technitium_dns_chart"));
    assert_eq!(layout.plugin_for_region("middle"), None);
}

#[test]
fn other_schema_version_is_refused() {
    match layout_with(&FULL, 2).validate() {
        Err(LayoutError::UnsupportedSchemaVersion(v)) => assert_eq!(v, 2),
        other => panic!("unexpected {:?}", other),
    }
}

#[test]
fn empty_profile_is_refused() {
    let mut layout = layout_with(&FULL, 1);
    layout.profile = String::new();
    assert!(matches!(layout.validate(), Err(LayoutError::EmptyProfile)));
}

fn bad_binding(extra: (&str, &str)) -> (String, BindingFault) {
    let mut regions: Vec<(&str, &str)> = FULL.to_vec();
    regions.push(extra);
    match layout_with(&regions, 1).validate() {
        Err(LayoutError::BadBinding(r, f)) => (r, f),
        other => panic!("unexpected {:?}", other),
    }
}

#[test]
fn unknown_region_is_refused() {
    assert_eq!(bad_binding(("middle", "x")), ("middle".to_string(), BindingFault::UnknownRegion));
}

#[test]
fn duplicate_region_is_refused() {
    assert_eq!(bad_binding(("left", "x")), ("left".to_string(), BindingFault::DuplicateRegion));
}

#[test]
fn empty_plugin_is_refused() {
    let mut regions: Vec<(&str, &str)> = FULL.to_vec();
    regions[2] = ("center", "");
    match layout_with(&regions, 1).validate() {
        Err(LayoutError::BadBinding(r, f)) => {
            assert_eq!(r, "center");
            assert_eq!(f, BindingFault::EmptyPlugin);
        }
        other => panic!("unexpected {:?}", other),
    }
}

#[test]
fn missing_region_comes_before_bad_binding() {
    let regions = [("top", "a"), ("middle", "b")];
    match layout_with(&regions, 1).validate() {
        Err(LayoutError::MissingRegion(r)) => assert_eq!(r, "left"),
        other => panic!("unexpected {:?}", other),
    }
}
