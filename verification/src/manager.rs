use vstd::prelude::*;
use crate::layout::{LayoutConfig, region_plugin, required_region_names, required_regions};
use crate::lifecycle::PluginInstance;
use crate::manifest::{ManifestError, PluginManifest, contains_manifest, first_faulty, has_manifest,
    manifest_fault, validate_manifests};

verus! {

broadcast use vstd::string::group_string_axioms;

/// Why the plugin bindings of a layout could not be resolved.
#[derive(Debug, Clone)]
pub enum ManagerError {
    /// The layout defines no region at all.
    NoRegions,
    /// A plugin manifest is invalid.
    InvalidManifest(ManifestError),
    /// A required region has no plugin binding.
    MissingBinding(String),
    /// A region is bound to a plugin for which no manifest exists.
    PluginNotFound(String),
}

/// The first required region, at or after position `from`, whose bound
/// plugin has no manifest.
pub open spec fn first_unknown_plugin(
    regions: Seq<(String, crate::layout::RegionConfig)>,
    ms: Seq<(String, PluginManifest)>,
    from: nat,
) -> Option<Seq<char>>
    decreases 5 - from,
{
    if from >= 5 {
        None
    } else {
        match region_plugin(regions, required_regions()[from as int]) {
            Some(p) => if !has_manifest(ms, p) {
                Some(p)
            } else {
                first_unknown_plugin(regions, ms, from + 1)
            },
            None => first_unknown_plugin(regions, ms, from + 1),
        }
    }
}

/// The views of a sequence of string pairs.
pub open spec fn pair_views(s: Seq<(String, String)>) -> Seq<(Seq<char>, Seq<char>)> {
    Seq::new(s.len(), |i: int| (s[i].0@, s[i].1@))
}

/// Stores resolved plugin bindings from layout regions.
pub struct PluginManager {
    plugin_by_region: Vec<(String, String)>,
}

impl PluginManager {
    /// The bindings, as (region, plugin id) pairs in layout order.
    pub closed spec fn bindings(&self) -> Seq<(Seq<char>, Seq<char>)> {
        pair_views(self.plugin_by_region@)
    }

    /// Every required region is bound, in layout order.
    pub open spec fn wf(&self) -> bool {
        &&& self.bindings().len() == 5
        &&& forall|k: int| 0 <= k < 5 ==> (#[trigger] self.bindings()[k]).0 == required_regions()[k]
    }

    /// Resolves plugin ids from layout regions and checks them against the
    /// plugin manifests.
    #[verifier::loop_isolation(false)]
    pub fn new(layout: &LayoutConfig, manifests: &Vec<(String, PluginManifest)>) -> (r: Result<PluginManager, ManagerError>)
        ensures
            layout.regions@.len() == 0 ==> r matches Err(ManagerError::NoRegions),
            layout.regions@.len() != 0 ==> match first_faulty(manifests@, 0) {
                Some(k) => r matches Err(ManagerError::InvalidManifest(e)) && e.id@ == manifests@[k as int].0@
                    && Some(e.fault) == manifest_fault(manifests@[k as int].0@, manifests@[k as int].1),
                None => match crate::layout::first_missing_region(layout.regions@, 0) {
                    Some(k) => r matches Err(ManagerError::MissingBinding(region))
                        && region@ == required_regions()[k as int],
                    None => match first_unknown_plugin(layout.regions@, manifests@, 0) {
                        Some(p) => r matches Err(ManagerError::PluginNotFound(id)) && id@ == p,
                        None => r matches Ok(m) && m.wf() && forall|k: int| 0 <= k < 5
                            ==> Some((#[trigger] m.bindings()[k]).1) == region_plugin(layout.regions@, required_regions()[k]),
                    },
                },
            },
    {
        if layout.regions.len() == 0 {
            return Err(ManagerError::NoRegions);
        }
        match validate_manifests(manifests) {
            Err(e) => return Err(ManagerError::InvalidManifest(e)),
            Ok(()) => {},
        }
        let names = required_region_names();
        assert(names@.len() == 5) by {
            assert(names@.map_values(|s: &str| s@).len() == 5);
        }
        let mut pairs: Vec<(String, String)> = Vec::new();
        let mut i: usize = 0;
        while i < names.len()
            invariant
                names@.map_values(|s: &str| s@) == required_regions(),
                names@.len() == 5,
                i <= 5,
                crate::layout::first_missing_region(layout.regions@, 0)
                    == crate::layout::first_missing_region(layout.regions@, i as nat),
                pairs@.len() == i,
                forall|k: int| 0 <= k < i ==> {
                    &&& (#[trigger] pairs@[k]).0@ == required_regions()[k]
                    &&& Some(pairs@[k].1@) == region_plugin(layout.regions@, required_regions()[k])
                },
            decreases 5 - i,
        {
            assert(names@[i as int]@ == required_regions()[i as int]);
            match layout.plugin_for_region(names[i]) {
                None => {
                    assert(crate::layout::first_missing_region(layout.regions@, i as nat) == Some(i as nat));
                    return Err(ManagerError::MissingBinding(String::from_str(names[i])));
                },
                Some(p) => {
                    pairs.push((String::from_str(names[i]), String::from_str(p)));
                },
            }
            i = i + 1;
        }
        assert(crate::layout::first_missing_region(layout.regions@, 5) is None);
        let mut j: usize = 0;
        while j < pairs.len()
            invariant
                pairs@.len() == 5,
                j <= 5,
                first_unknown_plugin(layout.regions@, manifests@, 0)
                    == first_unknown_plugin(layout.regions@, manifests@, j as nat),
                forall|k: int| 0 <= k < 5 ==> {
                    &&& (#[trigger] pairs@[k]).0@ == required_regions()[k]
                    &&& Some(pairs@[k].1@) == region_plugin(layout.regions@, required_regions()[k])
                },
            decreases 5 - j,
        {
            if !contains_manifest(manifests, pairs[j].1.as_str()) {
                return Err(ManagerError::PluginNotFound(pairs[j].1.clone()));
            }
            j = j + 1;
        }
        let m = PluginManager { plugin_by_region: pairs };
        assert(m.wf());
        Ok(m)
    }

    /// Returns all (region, plugin_id) pairs ordered by layout declaration.
    pub fn region_plugin_pairs(&self) -> (v: Vec<(String, String)>)
        ensures
            pair_views(v@) == self.bindings(),
    {
        let mut v: Vec<(String, String)> = Vec::new();
        let mut i: usize = 0;
        while i < self.plugin_by_region.len()
            invariant
                i <= self.plugin_by_region@.len(),
                v@.len() == i,
                forall|k: int| 0 <= k < i ==> {
                    &&& (#[trigger] v@[k]).0@ == self.plugin_by_region@[k].0@
                    &&& v@[k].1@ == self.plugin_by_region@[k].1@
                },
            decreases self.plugin_by_region@.len() - i,
        {
            let a = self.plugin_by_region[i].0.clone();
            let b = self.plugin_by_region[i].1.clone();
            v.push((a, b));
            i = i + 1;
        }
        assert(pair_views(v@) =~= self.bindings());
        v
    }

    /// One plugin instance per binding, in layout order.
    pub fn instantiate(&self) -> (v: Vec<PluginInstance>)
        ensures
            v@.len() == self.bindings().len(),
            forall|k: int| 0 <= k < v@.len() ==> {
                &&& (#[trigger] v@[k]).plugin_id()@ == self.bindings()[k].1
                &&& v@[k].bound_region()@ == self.bindings()[k].0
                &&& v@[k].last_lines().len() == 0
            },
    {
        let pairs = self.region_plugin_pairs();
        let mut v: Vec<PluginInstance> = Vec::new();
        let mut i: usize = 0;
        while i < pairs.len()
            invariant
                i <= pairs@.len(),
                pair_views(pairs@) == self.bindings(),
                v@.len() == i,
                forall|k: int| 0 <= k < i ==> {
                    &&& (#[trigger] v@[k]).plugin_id()@ == self.bindings()[k].1
                    &&& v@[k].bound_region()@ == self.bindings()[k].0
                    &&& v@[k].last_lines().len() == 0
                },
            decreases pairs@.len() - i,
        {
            let pair = &pairs[i];
            v.push(PluginInstance::init(pair.1.clone(), pair.0.clone()));
            i = i + 1;
        }
        v
    }
}


/// When no bound plugin lacks a manifest, the plugin of every required
/// region that has a binding has a manifest.
pub proof fn lemma_bound_plugins_have_manifests(
    regions: Seq<(String, crate::layout::RegionConfig)>,
    ms: Seq<(String, PluginManifest)>,
    from: nat,
)
    requires
        first_unknown_plugin(regions, ms, from) is None,
    ensures
        forall|k: int| from <= k < 5 ==> match #[trigger] region_plugin(regions, required_regions()[k]) {
            Some(p) => has_manifest(ms, p),
            None => true,
        },
    decreases 5 - from,
{
    if from < 5 {
        lemma_bound_plugins_have_manifests(regions, ms, from + 1);
    }
}

/// A manager that was built resolves every required region, in layout
/// order, to a plugin that has a manifest.
pub proof fn lemma_built_manager_is_complete(
    layout: LayoutConfig,
    ms: Seq<(String, PluginManifest)>,
    m: PluginManager,
)
    requires
        layout.regions@.len() != 0,
        first_faulty(ms, 0) is None,
        crate::layout::first_missing_region(layout.regions@, 0) is None,
        first_unknown_plugin(layout.regions@, ms, 0) is None,
        m.wf(),
        forall|k: int| 0 <= k < 5 ==> Some((#[trigger] m.bindings()[k]).1) == region_plugin(layout.regions@, required_regions()[k]),
    ensures
        forall|k: int| 0 <= k < 5 ==> {
            &&& (#[trigger] m.bindings()[k]).0 == required_regions()[k]
            &&& has_manifest(ms, m.bindings()[k].1)
        },
{
    lemma_bound_plugins_have_manifests(layout.regions@, ms, 0);
    assert forall|k: int| 0 <= k < 5 implies {
        &&& (#[trigger] m.bindings()[k]).0 == required_regions()[k]
        &&& has_manifest(ms, m.bindings()[k].1)
    } by {
        assert(region_plugin(layout.regions@, required_regions()[k]) == Some(m.bindings()[k].1));
    }
}
} // verus!
