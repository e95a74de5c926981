use vstd::prelude::*;
use crate::text::{str_eq, views};

verus! {

/// Represents one layout region binding to a plugin id.
#[derive(Debug, Clone)]
pub struct RegionConfig {
    pub plugin: String,
}

/// Represents the layout definition: schema version, profile, region
/// bindings and the optional integrations.
///
/// The frame-rate and process-CPU targets of the configuration file are
/// floating-point settings and are kept by the application, not here.
#[derive(Debug, Clone)]
pub struct LayoutConfig {
    pub schema_version: u32,
    pub profile: String,
    /// Region names and their bindings. The order carries no meaning; where a
    /// name occurs twice, the first binding is the one looked up.
    pub regions: Vec<(String, RegionConfig)>,
    /// Hostname of the Technitium DNS instance (optional, default "localhost").
    pub dns_host: Option<String>,
    /// TCP port for Technitium API (optional, default 5380).
    pub dns_port: Option<u16>,
    /// API token for authenticating Technitium requests (optional).
    pub dns_token: Option<String>,
    /// Optional diagnostics log output file path.
    pub diagnostics_log_path: Option<String>,
    /// Maximum expected process RSS in MB.
    pub target_process_rss_mb: Option<u64>,
    /// Optional startup command executed inside the PTY panel.
    pub terminal_boot_command: Option<String>,
    /// Optional root path for file navigation plugin.
    pub file_nav_root: Option<String>,
}

/// What is wrong with one region binding.
#[derive(Debug, Clone, Copy, PartialEq, Eq, Structural)]
pub enum BindingFault {
    /// The region is not one that the runtime lays out.
    UnknownRegion,
    /// An earlier binding names the same region.
    DuplicateRegion,
    /// The binding names no plugin.
    EmptyPlugin,
}

/// Why a layout was refused.
#[derive(Debug, Clone)]
pub enum LayoutError {
    /// `schema_version` is zero.
    ZeroSchemaVersion,
    /// `schema_version` is not the version this runtime reads (1).
    UnsupportedSchemaVersion(u32),
    /// `profile` is empty.
    EmptyProfile,
    /// A region that the runtime needs has no binding.
    MissingRegion(String),
    /// A region binding is not one the runtime expects, or is incomplete.
    BadBinding(String, BindingFault),
}

/// The regions the runtime lays out, in layout order.
pub open spec fn required_regions() -> Seq<Seq<char>> {
    seq!["top"@, "left"@, "center"@, "right"@, "bottom"@]
}

/// The regions the runtime lays out, in layout order.
pub fn required_region_names() -> (v: Vec<&'static str>)
    ensures
        v@.map_values(|s: &str| s@) == required_regions(),
{
    let v = vec!["top", "left", "center", "right", "bottom"];
    assert(v@.map_values(|s: &str| s@) =~= required_regions());
    v
}

/// The plugin bound to region `name`: the first binding of that name.
pub open spec fn region_plugin(regions: Seq<(String, RegionConfig)>, name: Seq<char>) -> Option<Seq<char>>
    decreases regions.len(),
{
    if regions.len() == 0 {
        None
    } else if regions[0].0@ == name {
        Some(regions[0].1.plugin@)
    } else {
        region_plugin(regions.drop_first(), name)
    }
}

/// The index of the first required region without a binding, if any.
pub open spec fn first_missing_region(regions: Seq<(String, RegionConfig)>, from: nat) -> Option<nat>
    decreases 5 - from,
{
    if from >= 5 {
        None
    } else if region_plugin(regions, required_regions()[from as int]) is None {
        Some(from)
    } else {
        first_missing_region(regions, from + 1)
    }
}

/// What is wrong with binding `i`, if anything: the checks in order are
/// that the region is a required one, that no earlier binding names it, and
/// that it names a plugin.
pub open spec fn binding_fault(regions: Seq<(String, RegionConfig)>, i: int) -> Option<BindingFault> {
    if !required_regions().contains(regions[i].0@) {
        Some(BindingFault::UnknownRegion)
    } else if exists|j: int| 0 <= j < i && (#[trigger] regions[j]).0@ == regions[i].0@ {
        Some(BindingFault::DuplicateRegion)
    } else if regions[i].1.plugin@.len() == 0 {
        Some(BindingFault::EmptyPlugin)
    } else {
        None
    }
}

/// The position of the first faulty binding at or after `from`, if any.
pub open spec fn first_bad_binding(regions: Seq<(String, RegionConfig)>, from: nat) -> Option<nat>
    decreases regions.len() - from,
{
    if from >= regions.len() {
        None
    } else if binding_fault(regions, from as int) is Some {
        Some(from)
    } else {
        first_bad_binding(regions, from + 1)
    }
}

/// Whether `name` is one of the required regions.
fn is_required_region(name: &str) -> (b: bool)
    ensures
        b == required_regions().contains(name@),
{
    let names = required_region_names();
    assert(names@.len() == 5) by {
        assert(names@.map_values(|s: &str| s@).len() == 5);
    }
    let mut i: usize = 0;
    while i < 5
        invariant
            names@.map_values(|s: &str| s@) == required_regions(),
            names@.len() == 5,
            i <= 5,
            forall|j: int| 0 <= j < i ==> required_regions()[j] != name@,
        decreases 5 - i,
    {
        assert(names@[i as int]@ == required_regions()[i as int]);
        if str_eq(names[i], name) {
            assert(required_regions()[i as int] == name@);
            return true;
        }
        i = i + 1;
    }
    false
}

impl LayoutConfig {
    /// The plugin id configured for `region`, as a spec value.
    pub open spec fn plugin_of(&self, region: Seq<char>) -> Option<Seq<char>> {
        region_plugin(self.regions@, region)
    }

    /// Validates the layout against the frozen v1 schema: a schema version
    /// of 1, a non-empty profile, and exactly the five required regions,
    /// each bound to a non-empty plugin id.
    #[verifier::loop_isolation(false)]
    pub fn validate(&self) -> (r: Result<(), LayoutError>)
        ensures
            self.schema_version == 0 ==> r matches Err(LayoutError::ZeroSchemaVersion),
            self.schema_version > 1 ==> r == Err::<(), LayoutError>(LayoutError::UnsupportedSchemaVersion(self.schema_version)),
            self.schema_version == 1 && self.profile@.len() == 0 ==> r matches Err(LayoutError::EmptyProfile),
            self.schema_version == 1 && self.profile@.len() != 0 ==> match first_missing_region(self.regions@, 0) {
                Some(k) => r matches Err(LayoutError::MissingRegion(name))
                    && name@ == required_regions()[k as int],
                None => match first_bad_binding(self.regions@, 0) {
                    Some(i) => r matches Err(LayoutError::BadBinding(name, fault))
                        && name@ == self.regions@[i as int].0@
                        && Some(fault) == binding_fault(self.regions@, i as int),
                    None => r is Ok,
                },
            },
    {
        if self.schema_version == 0 {
            return Err(LayoutError::ZeroSchemaVersion);
        }
        if self.schema_version != 1 {
            return Err(LayoutError::UnsupportedSchemaVersion(self.schema_version));
        }
        if self.profile.unicode_len() == 0 {
            return Err(LayoutError::EmptyProfile);
        }
        match self.missing_region() {
            Some(name) => return Err(LayoutError::MissingRegion(name)),
            None => {},
        }
        let n = self.regions.len();
        let mut i: usize = 0;
        while i < n
            invariant
                i <= n,
                n == self.regions@.len(),
                first_bad_binding(self.regions@, 0) == first_bad_binding(self.regions@, i as nat),
            decreases n - i,
        {
            let name = self.regions[i].0.as_str();
            let mut fault: Option<BindingFault> = None;
            if !is_required_region(name) {
                fault = Some(BindingFault::UnknownRegion);
            } else {
                let mut j: usize = 0;
                let mut seen = false;
                while j < i && !seen
                    invariant
                        j <= i < n,
                        n == self.regions@.len(),
                        name@ == self.regions@[i as int].0@,
                        !seen ==> forall|k: int| 0 <= k < j ==> (#[trigger] self.regions@[k]).0@ != name@,
                        seen ==> j > 0 && self.regions@[j - 1].0@ == name@,
                    decreases i - j,
                {
                    if str_eq(self.regions[j].0.as_str(), name) {
                        seen = true;
                    }
                    j = j + 1;
                }
                if seen {
                    assert(self.regions@[j - 1].0@ == self.regions@[i as int].0@);
                    fault = Some(BindingFault::DuplicateRegion);
                } else if self.regions[i].1.plugin.unicode_len() == 0 {
                    fault = Some(BindingFault::EmptyPlugin);
                }
            }
            assert(fault == binding_fault(self.regions@, i as int));
            match fault {
                Some(f) => return Err(LayoutError::BadBinding(self.regions[i].0.clone(), f)),
                None => {},
            }
            i = i + 1;
        }
        Ok(())
    }

    /// The first required region without a binding, if any.
    fn missing_region(&self) -> (r: Option<String>)
        ensures
            match first_missing_region(self.regions@, 0) {
                None => r is None,
                Some(k) => r matches Some(name) && name@ == required_regions()[k as int],
            },
    {
        let names = required_region_names();
        let mut i: usize = 0;
        assert(names@.len() == 5) by {
            assert(names@.map_values(|s: &str| s@).len() == 5);
        }
        while i < names.len()
            invariant
                names@.map_values(|s: &str| s@) == required_regions(),
                names@.len() == 5,
                i <= 5,
                first_missing_region(self.regions@, 0) == first_missing_region(self.regions@, i as nat),
            decreases 5 - i,
        {
            assert(names@[i as int]@ == required_regions()[i as int]);
            if self.plugin_for_region(names[i]).is_none() {
                assert(first_missing_region(self.regions@, i as nat) == Some(i as nat));
                return Some(String::from_str(names[i]));
            }
            i = i + 1;
        }
        assert(first_missing_region(self.regions@, 5) is None);
        None
    }

    /// Returns the plugin id configured for a known region.
    pub fn plugin_for_region(&self, region: &str) -> (r: Option<&str>)
        ensures
            match r {
                None => self.plugin_of(region@) is None,
                Some(p) => self.plugin_of(region@) == Some(p@),
            },
    {
        let mut i: usize = 0;
        assert(self.regions@.skip(0) =~= self.regions@);
        while i < self.regions.len()
            invariant
                i <= self.regions@.len(),
                region_plugin(self.regions@, region@) == region_plugin(self.regions@.skip(i as int), region@),
            decreases self.regions@.len() - i,
        {
            let ghost rest = self.regions@.skip(i as int);
            assert(rest.drop_first() =~= self.regions@.skip(i + 1));
            if str_eq(self.regions[i].0.as_str(), region) {
                return Some(self.regions[i].1.plugin.as_str());
            }
            i = i + 1;
        }
        None
    }
}


/// When no binding is faulty from `from` on, every such binding passes its checks.
proof fn lemma_no_bad_binding(regions: Seq<(String, RegionConfig)>, from: nat)
    requires
        first_bad_binding(regions, from) is None,
    ensures
        forall|i: int| from <= i < regions.len() ==> #[trigger] binding_fault(regions, i) is None,
    decreases regions.len() - from,
{
    if from < regions.len() {
        lemma_no_bad_binding(regions, from + 1);
    }
}

/// When no required region is missing from `from` on, each of them is bound.
proof fn lemma_no_missing_region(regions: Seq<(String, RegionConfig)>, from: nat)
    requires
        first_missing_region(regions, from) is None,
    ensures
        forall|k: int| from <= k < 5 ==> #[trigger] region_plugin(regions, required_regions()[k]) is Some,
    decreases 5 - from,
{
    if from < 5 {
        lemma_no_missing_region(regions, from + 1);
    }
}

/// A layout that passes validation binds exactly the five required regions:
/// each of them is bound, every binding names one of them, no region is
/// bound twice, and every binding names a plugin.
pub proof fn lemma_valid_layout_binds_exactly_required(layout: LayoutConfig)
    requires
        layout.schema_version == 1,
        layout.profile@.len() != 0,
        first_missing_region(layout.regions@, 0) is None,
        first_bad_binding(layout.regions@, 0) is None,
    ensures
        forall|k: int| 0 <= k < 5 ==> #[trigger] layout.plugin_of(required_regions()[k]) is Some,
        forall|i: int| 0 <= i < layout.regions@.len() ==> required_regions().contains((#[trigger] layout.regions@[i]).0@),
        forall|i: int| 0 <= i < layout.regions@.len() ==> (#[trigger] layout.regions@[i]).1.plugin@.len() > 0,
        forall|i: int, j: int| 0 <= i < j < layout.regions@.len()
            ==> (#[trigger] layout.regions@[i]).0@ != (#[trigger] layout.regions@[j]).0@,
{
    let rs = layout.regions@;
    lemma_no_bad_binding(rs, 0);
    lemma_no_missing_region(rs, 0);
    assert forall|i: int| 0 <= i < rs.len() implies required_regions().contains((#[trigger] rs[i]).0@) by {
        assert(binding_fault(rs, i) is None);
    }
    assert forall|i: int| 0 <= i < rs.len() implies (#[trigger] rs[i]).1.plugin@.len() > 0 by {
        assert(binding_fault(rs, i) is None);
    }
    assert forall|i: int, j: int| 0 <= i < j < rs.len() implies (#[trigger] rs[i]).0@ != (#[trigger] rs[j]).0@ by {
        assert(binding_fault(rs, j) is None);
    }
}
} // verus!
