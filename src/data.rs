//! The reconciler: loads the profile corpora and attaches to every device the
//! profiles that match it.

use std::sync::Arc;

use vstd::prelude::*;

use crate::device::{device_views, Device, DeviceView};
use crate::document::{all_tables, document_invalid, document_profiles, get_invalid_profiles, parse_profiles, ConfigValue};
use crate::matcher::{get_all_devices_of_profile, matching_devices, SystemInfo, SystemInfoView};
use crate::profile::{profile_views, texts, Profile, ProfileView};
use crate::ranking::{
    add_all, add_profile_sorted, add_sorted, insert_profile_sorted, lemma_add_all_has, lemma_add_all_keeps,
    lemma_add_all_members, lemma_add_sorted_twice, sorted_by_priority, unique_names,
};

verus! {

/// One profile document of a database directory.
pub struct ProfileFile {
    /// Where the document was read from.
    pub path: String,
    /// Its tables; `None` where it could not be read or parsed.
    pub document: Option<Vec<(String, ConfigValue)>>,
}

/// A database directory as read: its profile documents, and the id list
/// files they name, each a path and its content.
pub struct ProfileSource {
    pub files: Vec<ProfileFile>,
    pub id_files: Vec<(String, String)>,
}

/// Only profiles with packages, and of the kind asked for, are loaded.
pub open spec fn keep(p: ProfileView, is_ai_sdk: bool) -> bool {
    p.packages.len() > 0 && p.is_ai_sdk == is_ai_sdk
}

/// The profiles of `s` that are loaded, in order.
pub open spec fn kept(s: Seq<ProfileView>, is_ai_sdk: bool) -> Seq<ProfileView>
    decreases s.len(),
{
    if s.len() == 0 {
        Seq::empty()
    } else if keep(s.last(), is_ai_sdk) {
        kept(s.drop_last(), is_ai_sdk).push(s.last())
    } else {
        kept(s.drop_last(), is_ai_sdk)
    }
}

/// The profiles that a file declares; none where it is unreadable or refused.
pub open spec fn file_profiles(f: ProfileFile, ids: Seq<(String, String)>) -> Seq<ProfileView> {
    match f.document {
        Some(doc) => if all_tables(doc@) {
            document_profiles(doc@, f.path@, ids, doc@.len() as int)
        } else {
            Seq::empty()
        },
        None => Seq::empty(),
    }
}

/// The invalid profile names of a file; a file that is no profile document
/// at all counts under its path.
pub open spec fn file_invalid(f: ProfileFile, ids: Seq<(String, String)>) -> Seq<Seq<char>> {
    match f.document {
        Some(doc) => if all_tables(doc@) {
            document_invalid(doc@, ids, doc@.len() as int)
        } else {
            seq![f.path@]
        },
        None => seq![f.path@],
    }
}

/// A corpus after the first `k` files are loaded into `init`.
pub open spec fn loaded(
    init: Seq<ProfileView>,
    files: Seq<ProfileFile>,
    ids: Seq<(String, String)>,
    is_ai_sdk: bool,
    k: int,
) -> Seq<ProfileView>
    decreases k,
{
    if k <= 0 {
        init
    } else {
        add_all(loaded(init, files, ids, is_ai_sdk, k - 1), kept(file_profiles(files[k - 1], ids), is_ai_sdk))
    }
}

/// The invalid names of the first `k` files.
pub open spec fn loaded_invalid(files: Seq<ProfileFile>, ids: Seq<(String, String)>, k: int) -> Seq<Seq<char>>
    decreases k,
{
    if k <= 0 {
        Seq::empty()
    } else {
        loaded_invalid(files, ids, k - 1) + file_invalid(files[k - 1], ids)
    }
}

/// The corpus that a whole source gives, loaded into an empty one.
pub open spec fn corpus_of(source: ProfileSource, is_ai_sdk: bool) -> Seq<ProfileView> {
    loaded(Seq::empty(), source.files@, source.id_files@, is_ai_sdk, source.files@.len() as int)
}

/// The invalid names that a whole source gives.
pub open spec fn invalid_of(source: ProfileSource) -> Seq<Seq<char>> {
    loaded_invalid(source.files@, source.id_files@, source.files@.len() as int)
}

/// Loads the profiles of `source` into `configs` and their invalid names into `invalid`.
fn fill_profiles(configs: &mut Vec<Profile>, invalid: &mut Vec<String>, source: &ProfileSource, is_ai_sdk: bool)
    ensures
        profile_views(final(configs)@) == loaded(
            profile_views(old(configs)@),
            source.files@,
            source.id_files@,
            is_ai_sdk,
            source.files@.len() as int,
        ),
        texts(final(invalid)@) == texts(old(invalid)@) + loaded_invalid(source.files@, source.id_files@, source.files@.len() as int),
{
    let ghost init = profile_views(configs@);
    let ghost init_invalid = texts(invalid@);
    let mut f: usize = 0;
    while f < source.files.len()
        invariant
            f <= source.files.len(),
            profile_views(configs@) == loaded(init, source.files@, source.id_files@, is_ai_sdk, f as int),
            texts(invalid@) == init_invalid + loaded_invalid(source.files@, source.id_files@, f as int),
        decreases source.files.len() - f,
    {
        let file = &source.files[f];
        assert(source.files@[f as int] == *file);
        let ghost prev = profile_views(configs@);
        let ghost prev_invalid = texts(invalid@);
        match &file.document {
            Some(doc) => {
                match parse_profiles(doc, file.path.as_str(), &source.id_files) {
                    Ok(ps) => {
                        let ghost pv = profile_views(ps@);
                        let mut i: usize = 0;
                        assert(kept(pv.subrange(0, 0), is_ai_sdk) =~= Seq::<ProfileView>::empty());
                        while i < ps.len()
                            invariant
                                i <= ps.len(),
                                pv == profile_views(ps@),
                                profile_views(configs@) == add_all(prev, kept(pv.subrange(0, i as int), is_ai_sdk)),
                            decreases ps.len() - i,
                        {
                            assert(pv.subrange(0, i as int + 1).drop_last() =~= pv.subrange(0, i as int));
                            assert(pv[i as int] == ps[i as int]@);
                            if ps[i].packages.as_str().unicode_len() > 0 && ps[i].is_ai_sdk == is_ai_sdk {
                                let ghost before = kept(pv.subrange(0, i as int), is_ai_sdk);
                                insert_profile_sorted(configs, ps[i].clone());
                                assert(before.push(pv[i as int]).drop_last() =~= before);
                            }
                            i = i + 1;
                        }
                        assert(pv.subrange(0, i as int) =~= pv);
                    },
                    Err(_) => {},
                }
                match get_invalid_profiles(doc, &source.id_files) {
                    Ok(names) => {
                        let mut names = names;
                        proof {
                            crate::profile::lemma_texts_concat(invalid@, names@);
                        }
                        invalid.append(&mut names);
                    },
                    Err(_) => {
                        proof {
                            crate::profile::lemma_texts_push(invalid@, file.path);
                        }
                        invalid.push(file.path.clone());
                    },
                }
            },
            None => {
                proof {
                    crate::profile::lemma_texts_push(invalid@, file.path);
                }
                invalid.push(file.path.clone());
            },
        }
        assert(texts(invalid@) == prev_invalid + file_invalid(*file, source.id_files@));
        f = f + 1;
        assert(texts(invalid@) =~= init_invalid + loaded_invalid(source.files@, source.id_files@, f as int));
    }
}

/// The profiles among the first `k` of `corpus` that match device `d`, in corpus order.
pub open spec fn profiles_for(
    corpus: Seq<ProfileView>,
    devs: Seq<DeviceView>,
    sys: SystemInfoView,
    d: int,
    k: int,
) -> Seq<ProfileView>
    decreases k,
{
    if k <= 0 {
        Seq::empty()
    } else {
        let prev = profiles_for(corpus, devs, sys, d, k - 1);
        if matching_devices(corpus[k - 1], devs, sys).contains(d as usize) {
            prev.push(corpus[k - 1])
        } else {
            prev
        }
    }
}

/// The list of a device that a pass fills: installed or available.
pub open spec fn list_of(d: DeviceView, installed: bool) -> Seq<ProfileView> {
    if installed {
        d.installed_profiles
    } else {
        d.available_profiles
    }
}

/// Device `d` with that list replaced.
pub open spec fn with_list(d: DeviceView, installed: bool, l: Seq<ProfileView>) -> DeviceView {
    if installed {
        DeviceView { installed_profiles: l, ..d }
    } else {
        DeviceView { available_profiles: l, ..d }
    }
}

/// Adds every profile of `profiles` to the list of each device it matches.
fn set_matching_profiles(devices: &mut Vec<Device>, profiles: &Vec<Profile>, system: &SystemInfo, set_as_installed: bool)
    ensures
        final(devices)@.len() == old(devices)@.len(),
        forall|d: int|
            0 <= d < old(devices)@.len() ==> (#[trigger] device_views(final(devices)@)[d]) == with_list(
                device_views(old(devices)@)[d],
                set_as_installed,
                add_all(
                    list_of(device_views(old(devices)@)[d], set_as_installed),
                    profiles_for(profile_views(profiles@), device_views(old(devices)@), system@, d, profiles@.len() as int),
                ),
            ),
{
    let ghost devs0 = device_views(devices@);
    let ghost corpus = profile_views(profiles@);
    assert(devs0.len() == devices.len());
    let mut hits_all: Vec<Vec<usize>> = Vec::new();
    let mut j: usize = 0;
    while j < profiles.len()
        invariant
            j <= profiles.len(),
            devs0 == device_views(devices@),
            corpus == profile_views(profiles@),
            hits_all@.len() == j,
            forall|k: int| 0 <= k < j ==> (#[trigger] hits_all@[k])@ == matching_devices(corpus[k], devs0, system@),
            forall|k: int, m: int| 0 <= k < j && 0 <= m < hits_all@[k]@.len() ==> (#[trigger] hits_all@[k]@[m]) < devs0.len(),
        decreases profiles.len() - j,
    {
        assert(corpus[j as int] == profiles[j as int]@);
        hits_all.push(get_all_devices_of_profile(devices, &profiles[j], system));
        j = j + 1;
    }
    let mut j: usize = 0;
    while j < profiles.len()
        invariant
            j <= profiles.len(),
            corpus == profile_views(profiles@),
            hits_all@.len() == profiles@.len(),
            devs0.len() <= usize::MAX,
            forall|k: int| 0 <= k < profiles@.len() ==> (#[trigger] hits_all@[k])@ == matching_devices(corpus[k], devs0, system@),
            forall|k: int, m: int| 0 <= k < profiles@.len() && 0 <= m < hits_all@[k]@.len() ==> (#[trigger] hits_all@[k]@[m]) < devs0.len(),
            devices@.len() == devs0.len(),
            forall|d: int|
                0 <= d < devs0.len() ==> (#[trigger] device_views(devices@)[d]) == with_list(
                    devs0[d],
                    set_as_installed,
                    add_all(list_of(devs0[d], set_as_installed), profiles_for(corpus, devs0, system@, d, j as int)),
                ),
        decreases profiles.len() - j,
    {
        let shared = Arc::new(profiles[j].clone());
        let ghost p = corpus[j as int];
        assert(shared@ == p);
        let hits = &hits_all[j];
        let mut m: usize = 0;
        while m < hits.len()
            invariant
                m <= hits.len(),
                hits@ == matching_devices(p, devs0, system@),
                forall|i: int| 0 <= i < hits@.len() ==> #[trigger] hits@[i] < devs0.len(),
                shared@ == p,
                devs0.len() <= usize::MAX,
                devices@.len() == devs0.len(),
                forall|d: int|
                    0 <= d < devs0.len() ==> (#[trigger] device_views(devices@)[d]) == with_list(
                        devs0[d],
                        set_as_installed,
                        if hits@.subrange(0, m as int).contains(d as usize) {
                            add_sorted(add_all(list_of(devs0[d], set_as_installed), profiles_for(corpus, devs0, system@, d, j as int)), p)
                        } else {
                            add_all(list_of(devs0[d], set_as_installed), profiles_for(corpus, devs0, system@, d, j as int))
                        },
                    ),
            decreases hits.len() - m,
        {
            let idx = hits[m];
            let ghost old_views = device_views(devices@);
            let ghost base = add_all(list_of(devs0[idx as int], set_as_installed), profiles_for(corpus, devs0, system@, idx as int, j as int));
            proof {
                lemma_add_sorted_twice(base, p);
            }
            if set_as_installed {
                add_profile_sorted(&mut devices[idx].installed_profiles, &shared);
            } else {
                add_profile_sorted(&mut devices[idx].available_profiles, &shared);
            }
            assert forall|d: int| 0 <= d < devs0.len() implies (#[trigger] device_views(devices@)[d]) == with_list(
                devs0[d],
                set_as_installed,
                if hits@.subrange(0, m as int + 1).contains(d as usize) {
                    add_sorted(add_all(list_of(devs0[d], set_as_installed), profiles_for(corpus, devs0, system@, d, j as int)), p)
                } else {
                    add_all(list_of(devs0[d], set_as_installed), profiles_for(corpus, devs0, system@, d, j as int))
                },
            ) by {
                assert(hits@.subrange(0, m as int + 1) =~= hits@.subrange(0, m as int).push(idx));
                if d != idx as int {
                    assert(device_views(devices@)[d] == old_views[d]);
                    assert((d as usize) != idx);
                } else {
                    assert(hits@.subrange(0, m as int + 1)[m as int] == idx);
                    assert(hits@.subrange(0, m as int + 1).contains(d as usize));
                    assert(device_views(devices@)[d] == with_list(old_views[d], set_as_installed, add_sorted(list_of(old_views[d], set_as_installed), p)));
                }
            }
            m = m + 1;
        }
        assert forall|d: int| 0 <= d < devs0.len() implies (#[trigger] device_views(devices@)[d]) == with_list(
            devs0[d],
            set_as_installed,
            add_all(list_of(devs0[d], set_as_installed), profiles_for(corpus, devs0, system@, d, j as int + 1)),
        ) by {
            assert(hits@.subrange(0, m as int) =~= hits@);
            let prev = profiles_for(corpus, devs0, system@, d, j as int);
            assert(prev.push(p).drop_last() =~= prev);
        }
        j = j + 1;
    }
}

/// Settings handed to the installer.
#[derive(Debug)]
pub struct Environment {
    /// Whether the package database is still to be synced; one sync per run.
    pub sync_package_manager_database: bool,
    pub pmcache_path: String,
    pub pmconfig_path: String,
    pub pmroot_path: String,
}

impl Default for Environment {
    fn default() -> (r: Self)
        ensures
            r.sync_package_manager_database,
            r.pmcache_path@ == crate::consts::CHWD_PM_CACHE_DIR@,
            r.pmconfig_path@ == crate::consts::CHWD_PM_CONFIG@,
            r.pmroot_path@ == crate::consts::CHWD_PM_ROOT@,
    {
        Environment {
            sync_package_manager_database: true,
            pmcache_path: String::from_str(crate::consts::CHWD_PM_CACHE_DIR),
            pmconfig_path: String::from_str(crate::consts::CHWD_PM_CONFIG),
            pmroot_path: String::from_str(crate::consts::CHWD_PM_ROOT),
        }
    }
}

/// The devices, the two profile corpora and what loading found invalid.
#[derive(Debug)]
pub struct Data {
    pub environment: Environment,
    /// Which kind of profiles is loaded: AI SDK ones or driver ones.
    pub is_ai_sdk: bool,
    pub system: SystemInfo,
    pub pci_devices: Vec<Device>,
    pub installed_pci_profiles: Vec<Profile>,
    pub all_pci_profiles: Vec<Profile>,
    pub invalid_profiles: Vec<String>,
}

/// True when two device sequences agree in everything but their profile lists.
pub open spec fn same_devices(a: Seq<DeviceView>, b: Seq<DeviceView>) -> bool {
    &&& a.len() == b.len()
    &&& forall|i: int|
        0 <= i < a.len() ==> (#[trigger] a[i]) == DeviceView {
            available_profiles: a[i].available_profiles,
            installed_profiles: a[i].installed_profiles,
            ..b[i]
        }
}

/// What a reconciliation pass of one list leaves in device `d`: the profiles
/// of `corpus` that match it, each added in corpus order to an empty list.
pub open spec fn attached(corpus: Seq<ProfileView>, devs: Seq<DeviceView>, sys: SystemInfoView, d: int) -> Seq<ProfileView> {
    add_all(Seq::empty(), profiles_for(corpus, devs, sys, d, corpus.len() as int))
}

/// `after` is `before` with the chosen list of every device rebuilt from `corpus`.
pub open spec fn pass_result(
    before: Seq<DeviceView>,
    after: Seq<DeviceView>,
    corpus: Seq<ProfileView>,
    sys: SystemInfoView,
    installed: bool,
) -> bool {
    &&& after.len() == before.len()
    &&& forall|d: int|
        0 <= d < before.len() ==> (#[trigger] after[d]) == with_list(before[d], installed, attached(corpus, before, sys, d))
}

proof fn lemma_same_devices_hardware(a: Seq<DeviceView>, b: Seq<DeviceView>)
    requires
        same_devices(a, b),
    ensures
        crate::matcher::same_hardware(a, b),
{
    assert forall|i: int| 0 <= i < a.len() implies (#[trigger] a[i]).class_id == b[i].class_id by {
        assert(a[i] == DeviceView { available_profiles: a[i].available_profiles, installed_profiles: a[i].installed_profiles, ..b[i] });
    }
}

proof fn lemma_profiles_for_same(corpus: Seq<ProfileView>, a: Seq<DeviceView>, b: Seq<DeviceView>, sys: SystemInfoView, d: int, k: int)
    requires
        crate::matcher::same_hardware(a, b),
    ensures
        profiles_for(corpus, a, sys, d, k) == profiles_for(corpus, b, sys, d, k),
    decreases k,
{
    if k > 0 {
        lemma_profiles_for_same(corpus, a, b, sys, d, k - 1);
        crate::matcher::lemma_matching_same_hardware(corpus[k - 1], a, b, sys);
    }
}

/// Empties the chosen list of every device.
fn clear_lists(devices: &mut Vec<Device>, installed: bool)
    ensures
        final(devices)@.len() == old(devices)@.len(),
        forall|d: int|
            0 <= d < old(devices)@.len() ==> (#[trigger] device_views(final(devices)@)[d]) == with_list(
                device_views(old(devices)@)[d],
                installed,
                Seq::empty(),
            ),
{
    let ghost before = device_views(devices@);
    let mut i: usize = 0;
    while i < devices.len()
        invariant
            i <= devices.len(),
            devices@.len() == before.len(),
            forall|d: int| 0 <= d < i ==> (#[trigger] device_views(devices@)[d]) == with_list(before[d], installed, Seq::empty()),
            forall|d: int| i <= d < before.len() ==> (#[trigger] device_views(devices@)[d]) == before[d],
        decreases devices.len() - i,
    {
        let ghost prev = device_views(devices@);
        if installed {
            devices[i].installed_profiles.clear();
        } else {
            devices[i].available_profiles.clear();
        }
        assert(crate::device::shared_views(Seq::<Arc<Profile>>::empty()) =~= Seq::<ProfileView>::empty());
        assert(device_views(devices@)[i as int] == with_list(prev[i as int], installed, Seq::empty()));
        assert forall|d: int| 0 <= d < before.len() && d != i implies (#[trigger] device_views(devices@)[d]) == prev[d] by {}
        i = i + 1;
    }
}

/// One reconciliation pass over one list: clears it on every device, loads
/// `source` into `corpus` and attaches each profile to the devices it matches.
fn reconcile_list(
    devices: &mut Vec<Device>,
    corpus: &mut Vec<Profile>,
    invalid: &mut Vec<String>,
    source: &ProfileSource,
    system: &SystemInfo,
    is_ai_sdk: bool,
    installed: bool,
)
    ensures
        profile_views(final(corpus)@) == corpus_of(*source, is_ai_sdk),
        texts(final(invalid)@) == texts(old(invalid)@) + invalid_of(*source),
        pass_result(device_views(old(devices)@), device_views(final(devices)@), corpus_of(*source, is_ai_sdk), system@, installed),
{
    let ghost before = device_views(devices@);
    clear_lists(devices, installed);
    let ghost cleared = device_views(devices@);
    corpus.clear();
    assert(profile_views(corpus@) =~= Seq::<ProfileView>::empty());
    fill_profiles(corpus, invalid, source, is_ai_sdk);
    set_matching_profiles(devices, corpus, system, installed);
    let ghost c = profile_views(corpus@);
    assert forall|d: int| 0 <= d < before.len() implies (#[trigger] device_views(devices@)[d]) == with_list(
        before[d],
        installed,
        attached(c, before, system@, d),
    ) by {
        assert(cleared[d] == with_list(before[d], installed, Seq::empty()));
        assert(crate::matcher::same_hardware(cleared, before));
        lemma_profiles_for_same(c, cleared, before, system@, d, c.len() as int);
    }
}

/// `after` is `before` with both lists of every device rebuilt: the
/// available ones from `all`, the installed ones from `installed`.
pub open spec fn full_result(
    before: Seq<DeviceView>,
    after: Seq<DeviceView>,
    all: Seq<ProfileView>,
    installed: Seq<ProfileView>,
    sys: SystemInfoView,
) -> bool {
    &&& after.len() == before.len()
    &&& forall|d: int|
        0 <= d < before.len() ==> (#[trigger] after[d]) == DeviceView {
            available_profiles: attached(all, before, sys, d),
            installed_profiles: attached(installed, before, sys, d),
            ..before[d]
        }
}

proof fn lemma_pass_same_devices(before: Seq<DeviceView>, after: Seq<DeviceView>, corpus: Seq<ProfileView>, sys: SystemInfoView, installed: bool)
    requires
        pass_result(before, after, corpus, sys, installed),
    ensures
        crate::matcher::same_hardware(after, before),
{
    assert forall|i: int| 0 <= i < after.len() implies (#[trigger] after[i]).class_id == before[i].class_id by {
        assert(after[i] == with_list(before[i], installed, attached(corpus, before, sys, i)));
    }
}

/// Reconciling twice in a row, with the databases unchanged, leaves every
/// device as the first pass left it: a pass reads only the devices' hardware
/// identity, which it keeps.
pub proof fn lemma_full_reconciliation_idempotent(
    d0: Seq<DeviceView>,
    d1: Seq<DeviceView>,
    d2: Seq<DeviceView>,
    all: Seq<ProfileView>,
    installed: Seq<ProfileView>,
    sys: SystemInfoView,
)
    requires
        full_result(d0, d1, all, installed, sys),
        full_result(d1, d2, all, installed, sys),
    ensures
        d2 == d1,
{
    assert forall|i: int| 0 <= i < d1.len() implies (#[trigger] d1[i]).class_id == d0[i].class_id
        && d1[i].vendor_id == d0[i].vendor_id && d1[i].device_id == d0[i].device_id
        && d1[i].device_name == d0[i].device_name && d1[i].sysfs_busid == d0[i].sysfs_busid by {
        assert(d1[i] == DeviceView {
            available_profiles: attached(all, d0, sys, i),
            installed_profiles: attached(installed, d0, sys, i),
            ..d0[i]
        });
    }
    assert(crate::matcher::same_hardware(d1, d0));
    assert forall|i: int| 0 <= i < d1.len() implies d2[i] == d1[i] by {
        lemma_profiles_for_same(all, d1, d0, sys, i, all.len() as int);
        lemma_profiles_for_same(installed, d1, d0, sys, i, installed.len() as int);
    }
    assert(d2 =~= d1);
}

impl Data {
    /// Reloads the installed profiles from `database` and rebuilds every
    /// device's installed list from them.
    pub fn update_installed_profile_data(&mut self, database: &ProfileSource)
        ensures
            profile_views(final(self).installed_pci_profiles@) == corpus_of(*database, old(self).is_ai_sdk),
            texts(final(self).invalid_profiles@) == texts(old(self).invalid_profiles@) + invalid_of(*database),
            pass_result(
                device_views(old(self).pci_devices@),
                device_views(final(self).pci_devices@),
                corpus_of(*database, old(self).is_ai_sdk),
                old(self).system@,
                true,
            ),
            final(self).all_pci_profiles == old(self).all_pci_profiles,
            final(self).environment == old(self).environment,
            final(self).system == old(self).system,
            final(self).is_ai_sdk == old(self).is_ai_sdk,
    {
        reconcile_list(
            &mut self.pci_devices,
            &mut self.installed_pci_profiles,
            &mut self.invalid_profiles,
            database,
            &self.system,
            self.is_ai_sdk,
            true,
        );
    }

    /// Full reconciliation: reloads both corpora and rebuilds both lists of
    /// every device.
    pub fn update_profiles_data(&mut self, config: &ProfileSource, database: &ProfileSource)
        ensures
            profile_views(final(self).all_pci_profiles@) == corpus_of(*config, old(self).is_ai_sdk),
            profile_views(final(self).installed_pci_profiles@) == corpus_of(*database, old(self).is_ai_sdk),
            texts(final(self).invalid_profiles@) == texts(old(self).invalid_profiles@) + invalid_of(*config) + invalid_of(
                *database,
            ),
            full_result(
                device_views(old(self).pci_devices@),
                device_views(final(self).pci_devices@),
                corpus_of(*config, old(self).is_ai_sdk),
                corpus_of(*database, old(self).is_ai_sdk),
                old(self).system@,
            ),
            final(self).environment == old(self).environment,
            final(self).system == old(self).system,
            final(self).is_ai_sdk == old(self).is_ai_sdk,
    {
        let ghost d0 = device_views(self.pci_devices@);
        reconcile_list(
            &mut self.pci_devices,
            &mut self.all_pci_profiles,
            &mut self.invalid_profiles,
            config,
            &self.system,
            self.is_ai_sdk,
            false,
        );
        let ghost d1 = device_views(self.pci_devices@);
        self.update_installed_profile_data(database);
        let ghost d2 = device_views(self.pci_devices@);
        proof {
            lemma_pass_same_devices(d0, d1, corpus_of(*config, self.is_ai_sdk), self.system@, false);
            let db = corpus_of(*database, self.is_ai_sdk);
            assert forall|d: int| 0 <= d < d0.len() implies (#[trigger] d2[d]) == DeviceView {
                available_profiles: attached(corpus_of(*config, self.is_ai_sdk), d0, self.system@, d),
                installed_profiles: attached(db, d0, self.system@, d),
                ..d0[d]
            } by {
                lemma_profiles_for_same(db, d1, d0, self.system@, d, db.len() as int);
            }
        }
    }

    /// Loads both corpora for `pci_devices` and attaches the matching profiles
    /// to every device.
    pub fn new(
        pci_devices: Vec<Device>,
        system: SystemInfo,
        config: &ProfileSource,
        database: &ProfileSource,
        is_ai_sdk: bool,
    ) -> (r: Self)
        ensures
            r.is_ai_sdk == is_ai_sdk,
            r.environment.sync_package_manager_database,
            r.system == system,
            profile_views(r.all_pci_profiles@) == corpus_of(*config, is_ai_sdk),
            profile_views(r.installed_pci_profiles@) == corpus_of(*database, is_ai_sdk),
            texts(r.invalid_profiles@) == invalid_of(*config) + invalid_of(*database),
            full_result(
                device_views(pci_devices@),
                device_views(r.pci_devices@),
                corpus_of(*config, is_ai_sdk),
                corpus_of(*database, is_ai_sdk),
                system@,
            ),
    {
        let mut res = Data {
            environment: Environment::default(),
            is_ai_sdk,
            system,
            pci_devices,
            installed_pci_profiles: Vec::new(),
            all_pci_profiles: Vec::new(),
            invalid_profiles: Vec::new(),
        };
        assert(texts(res.invalid_profiles@) =~= Seq::<Seq<char>>::empty());
        res.update_profiles_data(config, database);
        assert(texts(res.invalid_profiles@) =~= invalid_of(*config) + invalid_of(*database));
        res
    }
}

proof fn lemma_loaded_keeps(init: Seq<ProfileView>, files: Seq<ProfileFile>, ids: Seq<(String, String)>, is_ai_sdk: bool, k: int)
    requires
        sorted_by_priority(init),
        unique_names(init),
    ensures
        sorted_by_priority(loaded(init, files, ids, is_ai_sdk, k)),
        unique_names(loaded(init, files, ids, is_ai_sdk, k)),
    decreases k,
{
    if k > 0 {
        lemma_loaded_keeps(init, files, ids, is_ai_sdk, k - 1);
        lemma_add_all_keeps(loaded(init, files, ids, is_ai_sdk, k - 1), kept(file_profiles(files[k - 1], ids), is_ai_sdk));
    }
}

/// A loaded corpus never holds two profiles of one name, however many files
/// declare it, and lists the highest priorities first.
pub proof fn lemma_corpus_unique_names(source: ProfileSource, is_ai_sdk: bool)
    ensures
        unique_names(corpus_of(source, is_ai_sdk)),
        sorted_by_priority(corpus_of(source, is_ai_sdk)),
{
    lemma_loaded_keeps(Seq::empty(), source.files@, source.id_files@, is_ai_sdk, source.files@.len() as int);
}

proof fn lemma_profiles_for_members(corpus: Seq<ProfileView>, devs: Seq<DeviceView>, sys: SystemInfoView, d: int, k: int)
    requires
        k <= corpus.len(),
    ensures
        forall|x: ProfileView| #[trigger] profiles_for(corpus, devs, sys, d, k).contains(x) ==> exists|m: int| 0 <= m < k && corpus[m] == x,
    decreases k,
{
    if k > 0 {
        lemma_profiles_for_members(corpus, devs, sys, d, k - 1);
        let prev = profiles_for(corpus, devs, sys, d, k - 1);
        assert forall|x: ProfileView| #[trigger] profiles_for(corpus, devs, sys, d, k).contains(x) implies exists|m: int| 0 <= m < k && corpus[m] == x by {
            if prev.contains(x) {
                let m = choose|m: int| 0 <= m < k - 1 && corpus[m] == x;
                assert(corpus[m] == x);
            } else {
                let t = profiles_for(corpus, devs, sys, d, k);
                let i = choose|i: int| 0 <= i < t.len() && t[i] == x;
                if i < prev.len() {
                    assert(prev[i] == x);
                } else {
                    assert(corpus[k - 1] == x);
                }
            }
        }
    }
}

proof fn lemma_profiles_for_has(corpus: Seq<ProfileView>, devs: Seq<DeviceView>, sys: SystemInfoView, d: int, k: int, a: int)
    requires
        0 <= a < k <= corpus.len(),
        matching_devices(corpus[a], devs, sys).contains(d as usize),
    ensures
        profiles_for(corpus, devs, sys, d, k).contains(corpus[a]),
    decreases k,
{
    let prev = profiles_for(corpus, devs, sys, d, k - 1);
    if a < k - 1 {
        lemma_profiles_for_has(corpus, devs, sys, d, k - 1, a);
        let i = choose|i: int| 0 <= i < prev.len() && prev[i] == corpus[a];
        if matching_devices(corpus[k - 1], devs, sys).contains(d as usize) {
            assert(prev.push(corpus[k - 1])[i] == corpus[a]);
        }
    } else {
        assert(prev.push(corpus[k - 1])[prev.len() as int] == corpus[a]);
    }
}

proof fn lemma_attached_finds(corpus: Seq<ProfileView>, devs: Seq<DeviceView>, sys: SystemInfoView, d: int, a: int) -> (i: int)
    requires
        unique_names(corpus),
        0 <= a < corpus.len(),
        matching_devices(corpus[a], devs, sys).contains(d as usize),
    ensures
        0 <= i < attached(corpus, devs, sys, d).len(),
        attached(corpus, devs, sys, d)[i] == corpus[a],
{
    let ps = profiles_for(corpus, devs, sys, d, corpus.len() as int);
    let l = attached(corpus, devs, sys, d);
    lemma_profiles_for_has(corpus, devs, sys, d, corpus.len() as int, a);
    let ia = choose|ia: int| 0 <= ia < ps.len() && ps[ia] == corpus[a];
    lemma_add_all_has(Seq::empty(), ps, ia);
    let i = choose|i: int| 0 <= i < l.len() && (#[trigger] l[i]).name == corpus[a].name;
    lemma_add_all_members(Seq::empty(), ps);
    assert(l.contains(l[i]));
    lemma_profiles_for_members(corpus, devs, sys, d, corpus.len() as int);
    let m = choose|m: int| 0 <= m < corpus.len() && corpus[m] == l[i];
    if m != a {
        if m < a {
            assert(corpus[m].name != corpus[a].name);
        } else {
            assert(corpus[a].name != corpus[m].name);
        }
    }
    i
}

/// Where two profiles of different priority both match a device, the one of
/// higher priority comes first in the device's list.
pub proof fn lemma_priority_order(corpus: Seq<ProfileView>, devs: Seq<DeviceView>, sys: SystemInfoView, d: int, a: int, b: int)
    requires
        unique_names(corpus),
        0 <= a < corpus.len(),
        0 <= b < corpus.len(),
        matching_devices(corpus[a], devs, sys).contains(d as usize),
        matching_devices(corpus[b], devs, sys).contains(d as usize),
        corpus[a].priority > corpus[b].priority,
    ensures
        exists|i: int, j: int|
            0 <= i < j < attached(corpus, devs, sys, d).len() && (#[trigger] attached(corpus, devs, sys, d)[i]) == corpus[a]
                && (#[trigger] attached(corpus, devs, sys, d)[j]) == corpus[b],
{
    let l = attached(corpus, devs, sys, d);
    lemma_add_all_keeps(Seq::empty(), profiles_for(corpus, devs, sys, d, corpus.len() as int));
    let i = lemma_attached_finds(corpus, devs, sys, d, a);
    let j = lemma_attached_finds(corpus, devs, sys, d, b);
    if j < i {
        assert(l[j].priority >= l[i].priority);
    }
    assert(i < j);
}

impl Data {
    /// The devices a profile applies to, as indices into `pci_devices`.
    pub fn get_all_devices_of_profile(&self, profile: &Profile) -> (r: Vec<usize>)
        ensures
            r@ == matching_devices(profile@, device_views(self.pci_devices@), self.system@),
            forall|i: int| 0 <= i < r@.len() ==> r@[i] < self.pci_devices@.len(),
    {
        get_all_devices_of_profile(&self.pci_devices, profile, &self.system)
    }

    /// The devices that profiles are matched against.
    pub fn get_associated_devices_for_profile(&self, profile: &Profile) -> (r: &Vec<Device>)
        ensures
            r@ == self.pci_devices@,
    {
        &self.pci_devices
    }

    /// Replaces the content of `found_devices` with copies of the devices the
    /// profile applies to, in match order.
    pub fn get_all_devices_of_profile_ffi(&self, profile: &Profile, found_devices: &mut Vec<Device>)
        ensures
            device_views(final(found_devices)@) == matching_devices(profile@, device_views(self.pci_devices@), self.system@).map_values(
                |i: usize| device_views(self.pci_devices@)[i as int],
            ),
    {
        found_devices.clear();
        let devices = self.get_associated_devices_for_profile(profile);
        let hits = self.get_all_devices_of_profile(profile);
        let ghost devs = device_views(self.pci_devices@);
        let mut k: usize = 0;
        while k < hits.len()
            invariant
                k <= hits.len(),
                devices@ == self.pci_devices@,
                devs == device_views(self.pci_devices@),
                forall|i: int| 0 <= i < hits@.len() ==> hits@[i] < devices@.len(),
                found_devices@.len() == k,
                forall|j: int| 0 <= j < k ==> (#[trigger] found_devices@[j])@ == devs[hits@[j] as int],
            decreases hits.len() - k,
        {
            let d = devices[hits[k]].clone();
            found_devices.push(d);
            k = k + 1;
        }
        assert(device_views(found_devices@) =~= hits@.map_values(|i: usize| devs[i as int]));
    }

    /// The names of the profiles that failed to load.
    pub fn get_invalid_profiles(&self) -> (r: &Vec<String>)
        ensures
            r@ == self.invalid_profiles@,
    {
        &self.invalid_profiles
    }

    /// The candidate corpus.
    pub fn get_all_pci_profiles(&self) -> (r: &Vec<Profile>)
        ensures
            r@ == self.all_pci_profiles@,
    {
        &self.all_pci_profiles
    }

    /// The installed corpus.
    pub fn get_installed_pci_profiles(&self) -> (r: &Vec<Profile>)
        ensures
            r@ == self.installed_pci_profiles@,
    {
        &self.installed_pci_profiles
    }

    /// The devices with their profile lists.
    pub fn get_pci_devices(&self) -> (r: &Vec<Device>)
        ensures
            r@ == self.pci_devices@,
    {
        &self.pci_devices
    }

    /// The installer settings, for changing them in place.
    pub fn get_env_mut(&mut self) -> (r: &mut Environment)
        ensures
            *r == old(self).environment,
            *final(self) == (Data { environment: *final(r), ..*old(self) }),
    {
        &mut self.environment
    }
}

/// Loads the data for `pci_devices` on the heap.
pub fn initialize_data_obj(
    pci_devices: Vec<Device>,
    system: SystemInfo,
    config: &ProfileSource,
    database: &ProfileSource,
    is_ai_sdk: bool,
) -> (r: Box<Data>)
    ensures
        r.is_ai_sdk == is_ai_sdk,
        r.system == system,
        profile_views(r.all_pci_profiles@) == corpus_of(*config, is_ai_sdk),
        profile_views(r.installed_pci_profiles@) == corpus_of(*database, is_ai_sdk),
        texts(r.invalid_profiles@) == invalid_of(*config) + invalid_of(*database),
        full_result(
            device_views(pci_devices@),
            device_views(r.pci_devices@),
            corpus_of(*config, is_ai_sdk),
            corpus_of(*database, is_ai_sdk),
            system@,
        ),
{
    Box::new(Data::new(pci_devices, system, config, database, is_ai_sdk))
}

} // verus!
