use vstd::prelude::*;
use crate::bus::{bus_push, Event, EventBus, Topic};
use crate::text::{decimal, decimal_string, join, join_with, lines, lines_of, str_eq, views};

verus! {

broadcast use vstd::string::group_string_axioms;

/// View model computed by a plugin for rendering in its region.
#[derive(Debug, Clone)]
pub struct PanelViewModel {
    /// Main content lines shown in the panel body.
    pub lines: Vec<String>,
}

impl Default for PanelViewModel {
    fn default() -> (v: PanelViewModel)
        ensures
            v.lines@.len() == 0,
    {
        PanelViewModel { lines: Vec::new() }
    }
}

impl PanelViewModel {
    /// The lines of the view, as character sequences.
    pub open spec fn line_views(&self) -> Seq<Seq<char>> {
        views(self.lines@)
    }

    /// Creates a view model from a single block of text.
    pub fn from_text(text: &str) -> (v: PanelViewModel)
        ensures
            v.line_views() == lines_of(text@),
    {
        PanelViewModel { lines: lines(text) }
    }

    /// Renders view model content as a single newline-joined string.
    pub fn render(&self) -> (s: String)
        ensures
            s@ == join_with(self.line_views(), "\n"@),
    {
        join(&self.lines, "\n")
    }
}

/// What the panels are computed from, taken from one system snapshot. The
/// system overview and process list texts carry floating-point readings and
/// are formatted by the application before they reach the plugins.
#[derive(Debug, Clone)]
pub struct PanelSources {
    /// Text of the `system_overview` panel.
    pub system_overview: String,
    /// Text of the `process_list` panel.
    pub process_list: String,
    /// Pre-rendered DNS summary for the Technitium panel.
    pub dns_summary: Option<String>,
    /// Pre-rendered file navigation panel output.
    pub file_nav_summary: Option<String>,
    /// Rolling window of the last log lines.
    pub recent_logs: Vec<String>,
}

/// The text a plugin with id `id` shows for `src`.
pub open spec fn panel_content(id: Seq<char>, src: PanelSources) -> Seq<char> {
    if id == "system_overview"@ {
        src.system_overview@
    } else if id == "process_list"@ {
        src.process_list@
    } else if id == "technitium_dns_chart"@ {
        match src.dns_summary {
            Some(s) => s@,
            None => "DNS: connecting..."@,
        }
    } else if id == "file_navigation"@ {
        match src.file_nav_summary {
            Some(s) => s@,
            None => "file_navigation: connecting..."@,
        }
    } else if id == "log_stream"@ {
        join_with(views(src.recent_logs@), "\n"@)
    } else {
        "["@ + id + "] no data"@
    }
}

/// The event a plugin bound to `region` publishes when its view changes.
pub open spec fn panel_update_event(region: String) -> Event {
    Event { topic: Topic::PanelUpdate { region }, payload: Some(region) }
}

/// Lifecycle state tracked for each active plugin instance.
pub struct PluginInstance {
    pub id: String,
    pub region: String,
    last_view: PanelViewModel,
}

impl PluginInstance {
    /// The plugin id, as a spec value.
    pub closed spec fn plugin_id(&self) -> String {
        self.id
    }

    /// The region the plugin is bound to, as a spec value.
    pub closed spec fn bound_region(&self) -> String {
        self.region
    }

    /// The lines of the last computed view.
    pub closed spec fn last_lines(&self) -> Seq<Seq<char>> {
        self.last_view.line_views()
    }

    /// Initializes a plugin instance for a given region binding.
    pub fn init(id: String, region: String) -> (p: PluginInstance)
        ensures
            p.plugin_id() == id,
            p.bound_region() == region,
            p.last_lines() == Seq::<Seq<char>>::empty(),
    {
        let v = PanelViewModel::default();
        assert(views(v.lines@) =~= Seq::<Seq<char>>::empty());
        PluginInstance { id, region, last_view: v }
    }

    /// Called on every scheduler tick; updates the view from the latest
    /// sources and publishes a panel event when the view changed.
    pub fn update(&mut self, sources: &PanelSources, bus: &mut EventBus)
        ensures
            final(self).plugin_id() == old(self).plugin_id(),
            final(self).bound_region() == old(self).bound_region(),
            final(self).last_lines() == lines_of(panel_content(old(self).plugin_id()@, *sources)),
            final(bus).capacity() == old(bus).capacity(),
            final(bus).pending() == pending_after_update(old(self).last_lines(), old(self).plugin_id()@,
                *sources, old(self).bound_region(), old(bus).pending(), old(bus).capacity()),
            old(self).last_lines() != final(self).last_lines() ==> final(bus).pending()
                == bus_push(old(bus).pending(), old(bus).capacity(), panel_update_event(old(self).bound_region())),
            old(self).last_lines() == final(self).last_lines() ==> final(bus).pending() == old(bus).pending(),
    {
        let view = self.compute_view(sources);
        let changed = !same_lines(&view.lines, &self.last_view.lines);
        self.last_view = view;
        if changed {
            bus.publish(Event::with_payload(
                Topic::PanelUpdate { region: self.region.clone() },
                self.region.clone(),
            ));
        }
    }

    /// Returns the last computed view model without recomputing.
    pub fn current_view(&self) -> (v: &PanelViewModel)
        ensures
            v.line_views() == self.last_lines(),
    {
        &self.last_view
    }

    /// Derives a rendered view from the provided sources.
    /// Each plugin computes its own content from the shared snapshot.
    fn compute_view(&self, sources: &PanelSources) -> (v: PanelViewModel)
        ensures
            v.line_views() == lines_of(panel_content(self.plugin_id()@, *sources)),
    {
        let id = self.id.as_str();
        let content: String = if str_eq(id, "system_overview") {
            sources.system_overview.clone()
        } else if str_eq(id, "process_list") {
            sources.process_list.clone()
        } else if str_eq(id, "technitium_dns_chart") {
            match &sources.dns_summary {
                Some(s) => s.clone(),
                None => String::from_str("DNS: connecting..."),
            }
        } else if str_eq(id, "file_navigation") {
            match &sources.file_nav_summary {
                Some(s) => s.clone(),
                None => String::from_str("file_navigation: connecting..."),
            }
        } else if str_eq(id, "log_stream") {
            join(&sources.recent_logs, "\n")
        } else {
            let mut s = String::from_str("[");
            s.append(id);
            s.append("] no data");
            s
        };
        PanelViewModel::from_text(content.as_str())
    }

    /// Called on process exit or plugin removal to free any held resources.
    /// Stateless plugins have nothing to release.
    pub fn dispose(&self)
    {
    }
}

/// Whether two line lists are equal, line by line.
fn same_lines(a: &Vec<String>, b: &Vec<String>) -> (r: bool)
    ensures
        r == (views(a@) == views(b@)),
{
    if a.len() != b.len() {
        return false;
    }
    let mut i: usize = 0;
    while i < a.len()
        invariant
            i <= a@.len(),
            a@.len() == b@.len(),
            forall|j: int| 0 <= j < i ==> a@[j]@ == b@[j]@,
        decreases a@.len() - i,
    {
        if a[i] != b[i] {
            assert(views(a@)[i as int] != views(b@)[i as int]);
            return false;
        }
        i = i + 1;
    }
    assert(views(a@) =~= views(b@));
    true
}

/// Rendering a view and building a view from the rendered text gives the
/// same lines, as long as no line holds a line feed, no line but the last
/// ends with a carriage return, and the last line is not empty.
pub proof fn lemma_from_text_of_render(v: PanelViewModel)
    requires
        forall|i: int| 0 <= i < v.line_views().len() ==> !(#[trigger] v.line_views()[i]).contains('\n'),
        forall|i: int| 0 <= i < v.line_views().len() - 1
            ==> !((#[trigger] v.line_views()[i]).len() > 0 && v.line_views()[i].last() == '\r'),
        v.line_views().len() > 0 ==> v.line_views().last().len() > 0,
    ensures
        lines_of(join_with(v.line_views(), "\n"@)) == v.line_views(),
{
    crate::text::lemma_lines_of_join(v.line_views());
}

/// Building a view from text and rendering it gives the text back, as long
/// as the text holds no carriage return and does not end with a line feed.
pub proof fn lemma_render_of_from_text(text: Seq<char>)
    requires
        !text.contains('\r'),
        text.len() == 0 || text.last() != '\n',
    ensures
        join_with(lines_of(text), "\n"@) == text,
{
    crate::text::lemma_join_of_lines(text);
}

/// The pending events after a plugin bound to `region`, showing `shown`,
/// is updated with `src`: one panel event more when the view changes.
pub open spec fn pending_after_update(
    shown: Seq<Seq<char>>,
    id: Seq<char>,
    src: PanelSources,
    region: String,
    q: Seq<Event>,
    cap: nat,
) -> Seq<Event> {
    if shown != lines_of(panel_content(id, src)) {
        bus_push(q, cap, panel_update_event(region))
    } else {
        q
    }
}

/// An update publishes exactly one panel event for its region whenever the
/// recomputed lines differ from the shown ones, in any way, and leaves the
/// pending events alone when they are the same.
pub proof fn lemma_update_publishes_on_change(
    shown: Seq<Seq<char>>,
    id: Seq<char>,
    src: PanelSources,
    region: String,
    q: Seq<Event>,
    cap: nat,
)
    ensures
        shown != lines_of(panel_content(id, src)) ==> pending_after_update(shown, id, src, region, q, cap)
            == bus_push(q, cap, Event { topic: Topic::PanelUpdate { region }, payload: Some(region) }),
        shown == lines_of(panel_content(id, src)) ==> pending_after_update(shown, id, src, region, q, cap) == q,
{
}

/// Updating a plugin twice with the same sources publishes no more than
/// updating it once: the second update finds the view unchanged.
pub proof fn lemma_second_update_is_silent(
    shown: Seq<Seq<char>>,
    id: Seq<char>,
    src: PanelSources,
    region: String,
    q: Seq<Event>,
    cap: nat,
)
    ensures
        pending_after_update(lines_of(panel_content(id, src)), id, src, region,
            pending_after_update(shown, id, src, region, q, cap), cap)
            == pending_after_update(shown, id, src, region, q, cap),
{
}

/// A number of hours, minutes or seconds, zero-padded to two digits.
pub open spec fn two_digits(n: nat) -> Seq<char> {
    if n < 10 {
        seq!['0'] + decimal(n)
    } else {
        decimal(n)
    }
}

/// `secs` as `[Dd ]HH:MM:SS`, the day count only when there is at least one.
pub open spec fn uptime_text(secs: nat) -> Seq<char> {
    let d = secs / 86400;
    let hms = two_digits((secs % 86400) / 3600) + seq![':'] + two_digits((secs % 3600) / 60)
        + seq![':'] + two_digits(secs % 60);
    if d > 0 {
        decimal(d) + "d "@ + hms
    } else {
        hms
    }
}

/// Appends `n`, zero-padded to two digits.
fn append_two_digits(s: &mut String, n: u64)
    ensures
        final(s)@ == old(s)@ + two_digits(n as nat),
{
    if n < 10 {
        crate::text::push_char(s, '0');
    }
    let d = decimal_string(n);
    s.append(d.as_str());
}

/// Formats seconds into d/h/m/s human readable string.
pub fn format_uptime(secs: u64) -> (s: String)
    ensures
        s@ == uptime_text(secs as nat),
{
    let d = secs / 86400;
    let h = (secs % 86400) / 3600;
    let m = (secs % 3600) / 60;
    let sec = secs % 60;
    let mut s = String::new();
    if d > 0 {
        let ds = decimal_string(d);
        s.append(ds.as_str());
        s.append("d ");
    }
    let ghost prefix = s@;
    append_two_digits(&mut s, h);
    crate::text::push_char(&mut s, ':');
    append_two_digits(&mut s, m);
    crate::text::push_char(&mut s, ':');
    append_two_digits(&mut s, sec);
    assert(s@ =~= prefix + (two_digits(h as nat) + seq![':'] + two_digits(m as nat) + seq![':'] + two_digits(sec as nat)));
    s
}

/// The text shown in `region`: the rendered view of the first plugin bound
/// to it, or nothing when no plugin is.
pub open spec fn region_text(instances: Seq<PluginInstance>, region: Seq<char>) -> Seq<char>
    decreases instances.len(),
{
    if instances.len() == 0 {
        seq![]
    } else if instances[0].bound_region()@ == region {
        join_with(instances[0].last_lines(), "\n"@)
    } else {
        region_text(instances.drop_first(), region)
    }
}

/// Builds the content string of one region from the live plugin views.
pub fn panel_text(instances: &Vec<PluginInstance>, region: &str) -> (s: String)
    ensures
        s@ == region_text(instances@, region@),
{
    let mut i: usize = 0;
    assert(instances@.skip(0) =~= instances@);
    while i < instances.len()
        invariant
            i <= instances@.len(),
            region_text(instances@, region@) == region_text(instances@.skip(i as int), region@),
        decreases instances@.len() - i,
    {
        let ghost rest = instances@.skip(i as int);
        assert(rest[0] == instances@[i as int]);
        assert(rest.drop_first() =~= instances@.skip(i + 1));
        if str_eq(instances[i].region.as_str(), region) {
            return instances[i].current_view().render();
        }
        i = i + 1;
    }
    String::new()
}

} // verus!
