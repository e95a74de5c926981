use vstd::prelude::*;
use crate::text::{is_blank, is_blank_str, str_eq};

verus! {

/// Describes plugin metadata loaded from plugins/*/manifest.toml.
#[derive(Debug, Clone)]
pub struct PluginManifest {
    pub id: String,
    pub version: String,
    pub title: String,
    pub description: String,
    pub update_interval_ms: u64,
    pub permissions: Vec<String>,
}

/// What is wrong with a plugin manifest.
#[derive(Debug, Clone, Copy, PartialEq, Eq, Structural)]
pub enum ManifestFault {
    /// The id is blank or differs from the id the manifest is indexed by.
    IdMismatch,
    /// The version is blank.
    MissingVersion,
    /// The title is blank.
    MissingTitle,
    /// The description is blank.
    MissingDescription,
    /// The update interval is zero.
    ZeroUpdateInterval,
    /// One of the permissions is blank.
    EmptyPermission,
}

/// A manifest that failed validation, with the id it is indexed by.
#[derive(Debug, Clone)]
pub struct ManifestError {
    pub id: String,
    pub fault: ManifestFault,
}

/// The first check that the manifest indexed by `key` fails, if any.
pub open spec fn manifest_fault(key: Seq<char>, m: PluginManifest) -> Option<ManifestFault> {
    if is_blank(m.id@) || m.id@ != key {
        Some(ManifestFault::IdMismatch)
    } else if is_blank(m.version@) {
        Some(ManifestFault::MissingVersion)
    } else if is_blank(m.title@) {
        Some(ManifestFault::MissingTitle)
    } else if is_blank(m.description@) {
        Some(ManifestFault::MissingDescription)
    } else if m.update_interval_ms == 0 {
        Some(ManifestFault::ZeroUpdateInterval)
    } else if exists|i: int| 0 <= i < m.permissions@.len() && is_blank(#[trigger] m.permissions@[i]@) {
        Some(ManifestFault::EmptyPermission)
    } else {
        None
    }
}

/// The position of the first faulty manifest at or after `from`, if any.
pub open spec fn first_faulty(ms: Seq<(String, PluginManifest)>, from: nat) -> Option<nat>
    decreases ms.len() - from,
{
    if from >= ms.len() {
        None
    } else if manifest_fault(ms[from as int].0@, ms[from as int].1) is Some {
        Some(from)
    } else {
        first_faulty(ms, from + 1)
    }
}

/// Whether some manifest in `ms` is indexed by `id`.
pub open spec fn has_manifest(ms: Seq<(String, PluginManifest)>, id: Seq<char>) -> bool {
    exists|i: int| 0 <= i < ms.len() && (#[trigger] ms[i]).0@ == id
}

/// No two manifests in `ms` are indexed by the same id.
pub open spec fn ids_distinct(ms: Seq<(String, PluginManifest)>) -> bool {
    forall|i: int, j: int| 0 <= i < j < ms.len() ==> (#[trigger] ms[i]).0@ != (#[trigger] ms[j]).0@
}

/// The index after inserting `m` under its id: a manifest already indexed
/// by that id is replaced in place, otherwise `m` is added at the end.
pub open spec fn index_after_insert(ms: Seq<(String, PluginManifest)>, m: PluginManifest) -> Seq<(String, PluginManifest)> {
    if has_manifest(ms, m.id@) {
        let k = choose|k: int| 0 <= k < ms.len() && (#[trigger] ms[k]).0@ == m.id@;
        ms.update(k, (m.id, m))
    } else {
        ms.push((m.id, m))
    }
}

/// The first check the manifest fails, if any.
#[verifier::loop_isolation(false)]
fn check_manifest(key: &String, m: &PluginManifest) -> (r: Option<ManifestFault>)
    ensures
        r == manifest_fault(key@, *m),
{
    if is_blank_str(m.id.as_str()) || !str_eq(m.id.as_str(), key.as_str()) {
        return Some(ManifestFault::IdMismatch);
    }
    if is_blank_str(m.version.as_str()) {
        return Some(ManifestFault::MissingVersion);
    }
    if is_blank_str(m.title.as_str()) {
        return Some(ManifestFault::MissingTitle);
    }
    if is_blank_str(m.description.as_str()) {
        return Some(ManifestFault::MissingDescription);
    }
    if m.update_interval_ms == 0 {
        return Some(ManifestFault::ZeroUpdateInterval);
    }
    let mut i: usize = 0;
    while i < m.permissions.len()
        invariant
            i <= m.permissions@.len(),
            forall|j: int| 0 <= j < i ==> !is_blank(#[trigger] m.permissions@[j]@),
        decreases m.permissions@.len() - i,
    {
        if is_blank_str(m.permissions[i].as_str()) {
            assert(is_blank(m.permissions@[i as int]@));
            return Some(ManifestFault::EmptyPermission);
        }
        i = i + 1;
    }
    None
}

/// Validates manifest metadata, in index order; the first faulty manifest
/// is reported.
pub fn validate_manifests(manifests: &Vec<(String, PluginManifest)>) -> (r: Result<(), ManifestError>)
    ensures
        match first_faulty(manifests@, 0) {
            None => r is Ok,
            Some(k) => r matches Err(e) && e.id@ == manifests@[k as int].0@
                && Some(e.fault) == manifest_fault(manifests@[k as int].0@, manifests@[k as int].1),
        },
{
    let mut i: usize = 0;
    while i < manifests.len()
        invariant
            i <= manifests@.len(),
            first_faulty(manifests@, 0) == first_faulty(manifests@, i as nat),
        decreases manifests@.len() - i,
    {
        let entry = &manifests[i];
        match check_manifest(&entry.0, &entry.1) {
            Some(fault) => {
                return Err(ManifestError { id: entry.0.clone(), fault });
            },
            None => {},
        }
        i = i + 1;
    }
    Ok(())
}

/// Whether some manifest in `manifests` is indexed by `id`.
pub fn contains_manifest(manifests: &Vec<(String, PluginManifest)>, id: &str) -> (r: bool)
    ensures
        r == has_manifest(manifests@, id@),
{
    let mut i: usize = 0;
    while i < manifests.len()
        invariant
            i <= manifests@.len(),
            forall|j: int| 0 <= j < i ==> (#[trigger] manifests@[j]).0@ != id@,
        decreases manifests@.len() - i,
    {
        if str_eq(manifests[i].0.as_str(), id) {
            return true;
        }
        i = i + 1;
    }
    false
}

/// Indexes `m` by its id: a manifest already indexed by that id is replaced,
/// as a later manifest with the same id replaces an earlier one when the
/// plugins directory is scanned.
pub fn insert_manifest(manifests: &mut Vec<(String, PluginManifest)>, m: PluginManifest)
    requires
        ids_distinct(old(manifests)@),
    ensures
        final(manifests)@ == index_after_insert(old(manifests)@, m),
        ids_distinct(final(manifests)@),
{
    let mut i: usize = 0;
    while i < manifests.len()
        invariant
            i <= manifests@.len(),
            manifests@ == old(manifests)@,
            ids_distinct(manifests@),
            forall|j: int| 0 <= j < i ==> (#[trigger] manifests@[j]).0@ != m.id@,
        decreases manifests@.len() - i,
    {
        if str_eq(manifests[i].0.as_str(), m.id.as_str()) {
            let ghost k = choose|k: int| 0 <= k < manifests@.len() && (#[trigger] manifests@[k]).0@ == m.id@;
            assert(k == i) by {
                if k != i {
                    if k < i {
                        assert(manifests@[k].0@ != m.id@);
                    } else {
                        assert(manifests@[i as int].0@ != manifests@[k].0@);
                    }
                }
            }
            let key = m.id.clone();
            manifests.set(i, (key, m));
            return;
        }
        i = i + 1;
    }
    let key = m.id.clone();
    manifests.push((key, m));
}


/// When validation finds no faulty manifest, every manifest passes every check.
pub proof fn lemma_no_fault_means_all_valid(ms: Seq<(String, PluginManifest)>, from: nat)
    requires
        first_faulty(ms, from) is None,
    ensures
        forall|k: int| from <= k < ms.len() ==> manifest_fault((#[trigger] ms[k]).0@, ms[k].1) is None,
    decreases ms.len() - from,
{
    if from < ms.len() {
        lemma_no_fault_means_all_valid(ms, from + 1);
    }
}

/// A manifest indexed by `key` passes every check exactly when its id is not
/// blank and equals `key`, its version, title and description are not
/// blank, its update interval is positive and none of its permissions is
/// blank; a manifest that asks for no permission at all passes.
pub proof fn lemma_manifest_valid_exactly(key: Seq<char>, m: PluginManifest)
    ensures
        manifest_fault(key, m) is None <==> {
            &&& !is_blank(m.id@)
            &&& m.id@ == key
            &&& !is_blank(m.version@)
            &&& !is_blank(m.title@)
            &&& !is_blank(m.description@)
            &&& m.update_interval_ms > 0
            &&& forall|i: int| 0 <= i < m.permissions@.len() ==> !is_blank(#[trigger] m.permissions@[i]@)
        },
        m.permissions@.len() == 0 ==> manifest_fault(key, m) != Some(ManifestFault::EmptyPermission),
{
}

/// A list of manifests each of which is well formed, as above, has no
/// faulty manifest, so validation accepts it.
pub proof fn lemma_well_formed_manifests_pass(ms: Seq<(String, PluginManifest)>)
    requires
        forall|k: int| 0 <= k < ms.len() ==> {
            &&& !is_blank((#[trigger] ms[k]).1.id@)
            &&& ms[k].1.id@ == ms[k].0@
            &&& !is_blank(ms[k].1.version@)
            &&& !is_blank(ms[k].1.title@)
            &&& !is_blank(ms[k].1.description@)
            &&& ms[k].1.update_interval_ms > 0
            &&& forall|i: int| 0 <= i < ms[k].1.permissions@.len() ==> !is_blank(#[trigger] ms[k].1.permissions@[i]@)
        },
    ensures
        first_faulty(ms, 0) is None,
{
    lemma_no_faulty_from(ms, 0);
}

/// Well-formed manifests from `from` on leave no faulty one there.
proof fn lemma_no_faulty_from(ms: Seq<(String, PluginManifest)>, from: nat)
    requires
        forall|k: int| 0 <= k < ms.len() ==> {
            &&& !is_blank((#[trigger] ms[k]).1.id@)
            &&& ms[k].1.id@ == ms[k].0@
            &&& !is_blank(ms[k].1.version@)
            &&& !is_blank(ms[k].1.title@)
            &&& !is_blank(ms[k].1.description@)
            &&& ms[k].1.update_interval_ms > 0
            &&& forall|i: int| 0 <= i < ms[k].1.permissions@.len() ==> !is_blank(#[trigger] ms[k].1.permissions@[i]@)
        },
    ensures
        first_faulty(ms, from) is None,
    decreases ms.len() - from,
{
    if from < ms.len() {
        let e = ms[from as int];
        lemma_manifest_valid_exactly(e.0@, e.1);
        lemma_no_faulty_from(ms, from + 1);
    }
}
} // verus!
