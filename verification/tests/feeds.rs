use nullbyteui::dns::{
    build_sparkline, dns_panel_is_computable, latest_total_queries, parse_stats_response, parse_stats_response_at,
    render_dns_panel, render_dns_panel_at, stats_address, stats_request, DnsParseError, DnsSample,
    DnsState, SAMPLE_WINDOW,
};
use nullbyteui::file_nav::{dir_line, file_line, order_listing, render_file_nav_panel, FileNavState};
use nullbyteui::pty::{render_pty_panel, PtyState};
use std::collections::VecDeque;

fn sample(total: u64, blocked: u64, cache: u64, ts: u64) -> DnsSample {
    DnsSample {
        total_queries: total,
        blocked,
        allowed: total.saturating_sub(blocked),
        cache_hits: cache,
        timestamp_secs: ts,
    }
}

#[test]
fn dns_panel_error_and_empty() {
    let mut s = DnsState::default();
    assert_eq!(render_dns_panel_at(&s, Some(10)), "DNS: no data yet");
    s.last_error = Some("refused".into());
    assert_eq!(render_dns_panel_at(&s, Some(10)), "DNS: offline\nrefused");
}

#[test]
fn dns_panel_with_samples() {
    let mut s = DnsState::default();
    s.apply_poll_result(Ok(sample(0, 0, 0, 990)));
    s.apply_poll_result(Ok(sample(50, 5, 1, 995)));
    s.apply_poll_result(Ok(sample(100, 75, 10, 1000)));
    let text = render_dns_panel_at(&s, Some(1005));
    assert_eq!(
        text,
        "total       100  allowed      25\nblocked      75  (75%)  cache 10%\nalert   ALERT high block rate\nage     5s\n\nqueries/min:\n \u{2584}\u{2588}"
    );
}

#[test]
fn dns_alert_levels_and_clock() {
    let mut s = DnsState::default();
    s.apply_poll_result(Ok(sample(10, 4, 0, 50)));
    let warn = render_dns_panel_at(&s, None);
    assert!(warn.contains("(40%)"));
    assert!(warn.contains("alert   WARN elevated block rate"));
    assert!(warn.contains("age     0s"));
    s.apply_poll_result(Ok(sample(10, 3, 0, 50)));
    let ok = render_dns_panel_at(&s, Some(40));
    assert!(ok.contains("alert   OK"));
    assert!(ok.contains("age     0s"));
    let now = render_dns_panel(&s);
    assert!(now.starts_with("total        10  allowed       7"));
}

#[test]
fn dns_zero_total_has_zero_percentages() {
    let mut s = DnsState::default();
    s.apply_poll_result(Ok(sample(0, 0, 0, 7)));
    let text = render_dns_panel_at(&s, Some(7));
    assert!(text.contains("(0%)  cache 0%"));
    assert!(text.ends_with("queries/min:\n "));
}

#[test]
fn dns_failure_keeps_samples() {
    let mut s = DnsState::default();
    s.apply_poll_result(Ok(sample(1, 0, 0, 1)));
    s.apply_poll_result(Err("timeout".into()));
    assert_eq!(s.samples.len(), 1);
    assert_eq!(s.last_error.as_deref(), Some("timeout"));
    s.apply_poll_result(Ok(sample(2, 0, 0, 2)));
    assert!(s.last_error.is_none());
    assert_eq!(latest_total_queries(&s), Some(2));
    assert_eq!(latest_total_queries(&DnsState::default()), None);
}

#[test]
fn dns_window_keeps_newest_samples() {
    let mut s = DnsState::default();
    for i in 0..(SAMPLE_WINDOW as u64 + 5) {
        s.apply_poll_result(Ok(sample(i, 0, 0, i)));
    }
    assert_eq!(s.samples.len(), SAMPLE_WINDOW);
    assert_eq!(s.samples.front().unwrap().total_queries, 5);
    assert_eq!(s.samples.back().unwrap().total_queries, SAMPLE_WINDOW as u64 + 4);
}

#[test]
fn sparkline_scales_to_peak() {
    assert_eq!(build_sparkline(&vec![]), "");
    assert_eq!(build_sparkline(&vec![0, 0]), "  ");
    assert_eq!(build_sparkline(&vec![1, 2, 3, 4, 5, 6, 7, 8]), "\u{2581}\u{2582}\u{2583}\u{2584}\u{2585}\u{2586}\u{2587}\u{2588}");
    assert_eq!(build_sparkline(&vec![3, 30]), " \u{2588}");
}

#[test]
fn stats_response_parses_fields() {
    let raw = "HTTP/1.0 200 OK\r\nContent-Type: application/json\r\n\r\n{\"response\":{\"stats\":{\"totalQueries\": 120,\"totalBlocked\":30,\"totalCachedHits\":\t7}}}";
    let s = parse_stats_response_at(raw, 42).unwrap();
    assert_eq!(s.total_queries, 120);
    assert_eq!(s.blocked, 30);
    assert_eq!(s.allowed, 90);
    assert_eq!(s.cache_hits, 7);
    assert_eq!(s.timestamp_secs, 42);
}

#[test]
fn stats_response_lf_only_and_missing_fields() {
    let s = parse_stats_response_at("HTTP/1.0 200 OK\n\n{\"totalBlocked\":9}", 1).unwrap();
    assert_eq!(s.total_queries, 0);
    assert_eq!(s.blocked, 9);
    assert_eq!(s.allowed, 0);
    assert_eq!(s.cache_hits, 0);
}

#[test]
fn stats_response_overflow_reads_zero() {
    let s = parse_stats_response_at("x\r\n\r\n\"totalQueries\":99999999999999999999", 0).unwrap();
    assert_eq!(s.total_queries, 0);
}

#[test]
fn stats_response_without_body_is_refused() {
    assert_eq!(
        parse_stats_response_at("HTTP/1.0 200 OK\r\nno body", 0).unwrap_err(),
        DnsParseError::NoBodySeparator
    );
    assert!(parse_stats_response("garbage").is_err());
    let s = parse_stats_response("a\n\n\"totalQueries\":5").unwrap();
    assert_eq!(s.total_queries, 5);
}

#[test]
fn stats_request_text() {
    assert_eq!(stats_address("localhost", 5380), "localhost:5380");
    assert_eq!(
        stats_request("dns.local", "tok"),
        "GET /api/dashboard/stats/get?token=tok&type=LastMinute HTTP/1.0\r\nHost: dns.local\r\nConnection: close\r\n\r\n"
    );
}

#[test]
fn file_nav_panel_variants() {
    let mut s = FileNavState::new("/home/pi".into());
    assert_eq!(render_file_nav_panel(&s), "root: /home/pi\n(no entries)");
    s.apply_listing(Ok(vec!["[D] a".into(), "[F] b (1B)".into()]));
    assert_eq!(render_file_nav_panel(&s), "root: /home/pi\n[D] a\n[F] b (1B)");
    s.apply_listing(Err("cannot read /home/pi: denied".into()));
    assert_eq!(render_file_nav_panel(&s), "file_navigation: erro\ncannot read /home/pi: denied");
    assert_eq!(s.lines.len(), 2);
}

#[test]
fn file_nav_keeps_first_entries() {
    let mut s = FileNavState::new("/".into());
    let listing: Vec<String> = (0..100).map(|i| format!("[F] f{i} (0B)")).collect();
    s.apply_listing(Ok(listing));
    assert_eq!(s.lines.len(), 64);
    assert_eq!(s.lines[0], "[F] f0 (0B)");
    assert!(s.last_error.is_none());
}

#[test]
fn listing_puts_sorted_folders_first() {
    let dirs = vec![dir_line("zeta"), dir_line("alpha")];
    let files = vec![file_line("b.txt", "2KB"), file_line("a.txt", "10B")];
    let out = order_listing(dirs, files);
    assert_eq!(out, vec!["[D] alpha", "[D] zeta", "[F] a.txt (10B)", "[F] b.txt (2KB)"]);
}

#[test]
fn pty_panel_variants() {
    let mut s = PtyState::default();
    assert_eq!(render_pty_panel(&s), "PTY: aguardando dados...");
    s.lines = (0..30).map(|i| format!("line{i}")).collect::<VecDeque<_>>();
    let text = render_pty_panel(&s);
    let shown: Vec<&str> = text.split('\n').collect();
    assert_eq!(shown.len(), 22);
    assert_eq!(shown[0], "line8");
    assert_eq!(shown[21], "line29");
    s.last_error = Some("forkpty failed".into());
    assert_eq!(render_pty_panel(&s), "PTY error\nforkpty failed");
}

#[test]
fn pty_ingest_splits_completed_lines() {
    let mut s = PtyState::default();
    let mut pending = String::from("ab");
    s.ingest_output(&mut pending, "c\r\n\nde\r\r\n f");
    assert_eq!(s.lines.iter().cloned().collect::<Vec<_>>(), vec!["abc", "de"]);
    assert_eq!(pending, " f");
    s.ingest_output(&mut pending, "g\n");
    assert_eq!(s.lines.back().map(String::as_str), Some(" fg"));
    assert_eq!(pending, "");
}

#[test]
fn pty_ring_keeps_newest_lines() {
    let mut s = PtyState::default();
    let mut pending = String::new();
    let chunk: String = (0..130).map(|i| format!("l{i}\n")).collect();
    s.ingest_output(&mut pending, &chunk);
    assert_eq!(s.lines.len(), 120);
    assert_eq!(s.lines[0], "l10");
}

#[test]
fn dns_offline_panel_ignores_sample_size() {
    let mut s = DnsState::default();
    s.samples.push_back(sample(u64::MAX, u64::MAX, u64::MAX, 1));
    assert!(!dns_panel_is_computable(&s));
    s.last_error = Some("timeout".into());
    assert!(dns_panel_is_computable(&s));
    assert_eq!(render_dns_panel_at(&s, Some(10)), "DNS: offline\ntimeout");
    assert_eq!(render_dns_panel(&s), "DNS: offline\ntimeout");
    assert!(dns_panel_is_computable(&DnsState::default()));
    assert_eq!(render_dns_panel(&DnsState::default()), "DNS: no data yet");
}

#[test]
fn sparkline_ignores_common_scale() {
    let vals = vec![0u64, 3, 7, 12, 5];
    let scaled: Vec<u64> = vals.iter().map(|v| v * 1000).collect();
    assert_eq!(build_sparkline(&scaled), build_sparkline(&vals));
}

#[test]
fn dns_window_stays_bounded_over_many_polls() {
    let mut s = DnsState::default();
    for t in 0..150u64 {
        if t % 7 == 0 {
            s.apply_poll_result(Err("timeout".into()));
        } else {
            s.apply_poll_result(Ok(sample(t, 0, 0, t)));
        }
        assert!(s.samples.len() <= SAMPLE_WINDOW);
    }
    assert_eq!(s.samples.back().map(|x| x.total_queries), Some(149));
    assert_eq!(s.last_error, None);
}

#[test]
fn file_nav_stays_bounded_over_many_polls() {
    let mut s = FileNavState::new("/srv".to_string());
    for n in [10usize, 100, 3, 64, 65] {
        let listing: Vec<String> = (0..n).map(|i| format!("[F] f{i}")).collect();
        s.apply_listing(Ok(listing));
        assert_eq!(s.lines.len(), n.min(64));
        s.apply_listing(Err("denied".into()));
        assert_eq!(s.lines.len(), n.min(64));
        assert_eq!(s.root, "/srv");
    }
}
