//! Decisions of the dashboard loop that do not touch the terminal: the
//! command line, the configured defaults, and what each region shows.
use vstd::prelude::*;
use crate::layout::LayoutConfig;
use crate::text::{str_eq, views};

verus! {

broadcast use vstd::string::group_string_axioms;

/// The configuration file used when no `--config` option is given.
pub open spec fn default_config_path() -> Seq<char> {
    "config/layout.default.toml"@
}

/// The configuration path chosen by the arguments `args`, starting from
/// `cur`: each `--config` takes the argument after it as the path; a
/// `--config` with nothing after it changes nothing.
pub open spec fn config_path_in(args: Seq<Seq<char>>, cur: Seq<char>) -> Seq<char>
    decreases args.len(),
{
    if args.len() == 0 {
        cur
    } else if args[0] == "--config"@ {
        if args.len() >= 2 {
            config_path_in(args.skip(2), args[1])
        } else {
            cur
        }
    } else {
        config_path_in(args.drop_first(), cur)
    }
}

/// Returns the configuration file path from the command line `args`, whose
/// first element is the program name.
pub fn config_path_from_args(args: &Vec<String>) -> (path: String)
    ensures
        path@ == (if args@.len() == 0 { default_config_path() } else {
            config_path_in(views(args@).drop_first(), default_config_path())
        }),
{
    let mut path = String::from_str("config/layout.default.toml");
    if args.len() == 0 {
        return path;
    }
    let ghost all = views(args@).drop_first();
    let mut i: usize = 1;
    assert(all.skip(0) =~= all);
    while i < args.len()
        invariant
            1 <= i <= args@.len(),
            all == views(args@).drop_first(),
            config_path_in(all, default_config_path()) == config_path_in(all.skip(i - 1), path@),
        decreases args@.len() - i,
    {
        let ghost rest = all.skip(i - 1);
        assert(rest[0] == args@[i as int]@);
        if str_eq(args[i].as_str(), "--config") {
            if i + 1 < args.len() {
                assert(rest[1] == args@[i + 1]@);
                assert(rest.skip(2) =~= all.skip(i + 1));
                path = args[i + 1].clone();
                i = i + 2;
            } else {
                assert(rest.len() == 1);
                assert(all.skip(args@.len() - 1) =~= Seq::<Seq<char>>::empty());
                i = args.len();
            }
        } else {
            assert(rest.drop_first() =~= all.skip(i as int));
            i = i + 1;
        }
    }
    assert(all.skip(i - 1) =~= Seq::<Seq<char>>::empty());
    path
}

/// The integration settings of a layout, with the defaults filled in.
#[derive(Debug, Clone)]
pub struct RuntimeSettings {
    pub dns_host: String,
    pub dns_port: u16,
    pub dns_token: String,
    pub file_nav_root: String,
    pub max_process_rss_mb: u64,
    pub diagnostics_log_path: Option<String>,
}

impl LayoutConfig {
    /// The integration settings, with the defaults: DNS host `localhost`,
    /// port 5380, an empty token, file navigation root `/home/pi` and a
    /// 180 MB RSS ceiling.
    pub fn runtime_settings(&self) -> (s: RuntimeSettings)
        ensures
            s.dns_host@ == (match self.dns_host { Some(h) => h@, None => "localhost"@ }),
            s.dns_port == (match self.dns_port { Some(p) => p, None => 5380u16 }),
            s.dns_token@ == (match self.dns_token { Some(t) => t@, None => Seq::<char>::empty() }),
            s.file_nav_root@ == (match self.file_nav_root { Some(r) => r@, None => "/home/pi"@ }),
            s.max_process_rss_mb == (match self.target_process_rss_mb { Some(m) => m, None => 180u64 }),
            s.diagnostics_log_path == self.diagnostics_log_path,
    {
        RuntimeSettings {
            dns_host: match &self.dns_host {
                Some(h) => h.clone(),
                None => String::from_str("localhost"),
            },
            dns_port: match self.dns_port {
                Some(p) => p,
                None => 5380,
            },
            dns_token: match &self.dns_token {
                Some(t) => t.clone(),
                None => String::new(),
            },
            file_nav_root: match &self.file_nav_root {
                Some(r) => r.clone(),
                None => String::from_str("/home/pi"),
            },
            max_process_rss_mb: match self.target_process_rss_mb {
                Some(m) => m,
                None => 180,
            },
            diagnostics_log_path: match &self.diagnostics_log_path {
                Some(p) => Some(p.clone()),
                None => None,
            },
        }
    }
}

/// Memory in use as a whole percentage of the total, zero without a total.
pub fn memory_percent(used_mb: u64, total_mb: u64) -> (pct: u64)
    ensures
        pct == (if total_mb > 0 {
            (if used_mb * 100 > u64::MAX { u64::MAX } else { (used_mb * 100) as u64 }) / total_mb
        } else {
            0
        }),
{
    if total_mb > 0 {
        let scaled = if used_mb > u64::MAX / 100 { u64::MAX } else { used_mb * 100 };
        scaled / total_mb
    } else {
        0
    }
}

/// Whether a key event ends the dashboard: a press (not a release or a
/// repeat) of the character key `q`; `key` is the character of the key,
/// `None` for keys that type none.
pub fn is_quit_key(pressed: bool, key: Option<char>) -> (quit: bool)
    ensures
        quit == (pressed && key == Some('q')),
{
    pressed && match key {
        Some(c) => c == 'q',
        None => false,
    }
}

} // verus!
