//! Which devices a profile applies to.

use vstd::prelude::*;

use crate::device::{device_views, Device, DeviceView};
use crate::profile::{texts, HardwareID, HardwareIDView, Profile, ProfileView};
use crate::text::{lower_of, lowercase, pattern_matches, regex_match};

verus! {

/// Facts about the whole machine that some profiles match on.
#[derive(Debug)]
pub struct SystemInfo {
    /// The machine's product name.
    pub product_name: String,
    /// The graphics-core versions found, each with the bus id of its device.
    pub gc_versions: Vec<(String, String)>,
}

pub struct SystemInfoView {
    pub product_name: Seq<char>,
    pub gc_versions: Seq<(Seq<char>, Seq<char>)>,
}

impl View for SystemInfo {
    type V = SystemInfoView;

    open spec fn view(&self) -> SystemInfoView {
        SystemInfoView {
            product_name: self.product_name@,
            gc_versions: self.gc_versions@.map_values(|t: (String, String)| (t.0@, t.1@)),
        }
    }
}

/// The wildcard entry `*`, which accepts any id.
pub open spec fn is_wildcard(s: Seq<char>) -> bool {
    s == seq!['*']
}

/// True when `list` holds the wildcard or `id`, compared case-insensitively.
pub open spec fn id_accepted(list: Seq<Seq<char>>, id: Seq<char>) -> bool {
    exists|i: int|
        0 <= i < list.len() && (is_wildcard(#[trigger] list[i]) || lower_of(list[i]) == lower_of(id))
}

/// True when `list` holds `id`, compared case-insensitively.
pub open spec fn id_listed(list: Seq<Seq<char>>, id: Seq<char>) -> bool {
    exists|i: int| 0 <= i < list.len() && lower_of(#[trigger] list[i]) == lower_of(id)
}

/// One axis of a group: the id is accepted and not blacklisted.
pub open spec fn axis_accepts(ids: Seq<Seq<char>>, blacklist: Seq<Seq<char>>, id: Seq<char>) -> bool {
    id_accepted(ids, id) && !id_listed(blacklist, id)
}

/// True when group `g` accepts device `d`; with a device-name pattern the
/// name stands in for the device-id axis.
pub open spec fn group_accepts(g: HardwareIDView, pattern: Option<Seq<char>>, d: DeviceView) -> bool {
    &&& axis_accepts(g.class_ids, g.blacklisted_class_ids, d.class_id)
    &&& axis_accepts(g.vendor_ids, g.blacklisted_vendor_ids, d.vendor_id)
    &&& match pattern {
        Some(p) => pattern_matches(p, d.device_name),
        None => axis_accepts(g.device_ids, g.blacklisted_device_ids, d.device_id),
    }
}

/// The indices, ascending, of the first `n` devices that group `g` accepts.
pub open spec fn group_hits(
    g: HardwareIDView,
    pattern: Option<Seq<char>>,
    devs: Seq<DeviceView>,
    n: int,
) -> Seq<usize>
    decreases n,
{
    if n <= 0 {
        Seq::empty()
    } else {
        let prev = group_hits(g, pattern, devs, n - 1);
        if group_accepts(g, pattern, devs[n - 1]) {
            prev.push((n - 1) as usize)
        } else {
            prev
        }
    }
}

/// The hits of a group over all devices.
pub open spec fn all_group_hits(g: HardwareIDView, pattern: Option<Seq<char>>, devs: Seq<DeviceView>) -> Seq<usize> {
    group_hits(g, pattern, devs, devs.len() as int)
}

/// True when each of the first `k` groups of `p` accepts some device.
pub open spec fn groups_hit(p: ProfileView, devs: Seq<DeviceView>, k: int) -> bool {
    forall|j: int|
        0 <= j < k ==> (#[trigger] all_group_hits(p.hwd_ids[j], p.device_name_pattern, devs)).len() > 0
}

/// The hits of the first `k` groups of `p`, one group after the other.
pub open spec fn concat_hits(p: ProfileView, devs: Seq<DeviceView>, k: int) -> Seq<usize>
    decreases k,
{
    if k <= 0 {
        Seq::empty()
    } else {
        concat_hits(p, devs, k - 1) + all_group_hits(p.hwd_ids[k - 1], p.device_name_pattern, devs)
    }
}

/// Matching by groups: every group must accept some device, and then the
/// hits of all groups count; else no device matches.
pub open spec fn id_hits(p: ProfileView, devs: Seq<DeviceView>) -> Seq<usize> {
    if groups_hit(p, devs, p.hwd_ids.len() as int) {
        concat_hits(p, devs, p.hwd_ids.len() as int)
    } else {
        Seq::empty()
    }
}

/// Index of the first of the first `n` devices at bus id `b`.
pub open spec fn busid_index(devs: Seq<DeviceView>, b: Seq<char>, n: int) -> Option<int>
    decreases n,
{
    if n <= 0 {
        None
    } else {
        match busid_index(devs, b, n - 1) {
            Some(i) => Some(i),
            None => if devs[n - 1].sysfs_busid == b {
                Some(n - 1)
            } else {
                None
            },
        }
    }
}

/// Matching by graphics-core version, over the first `k` discovered pairs:
/// each pair whose version is listed adds the first device at its bus id.
pub open spec fn gc_hits(
    versions: Seq<Seq<char>>,
    found: Seq<(Seq<char>, Seq<char>)>,
    devs: Seq<DeviceView>,
    k: int,
) -> Seq<usize>
    decreases k,
{
    if k <= 0 {
        Seq::empty()
    } else {
        let prev = gc_hits(versions, found, devs, k - 1);
        let pair = found[k - 1];
        if versions.contains(pair.1) {
            match busid_index(devs, pair.0, devs.len() as int) {
                Some(i) => prev.push(i as usize),
                None => prev,
            }
        } else {
            prev
        }
    }
}

/// The indices of the devices that profile `p` applies to.
pub open spec fn matching_devices(p: ProfileView, devs: Seq<DeviceView>, sys: SystemInfoView) -> Seq<usize> {
    if p.hwd_product_name_pattern is Some && !pattern_matches(
        p.hwd_product_name_pattern->0,
        sys.product_name,
    ) {
        Seq::empty()
    } else {
        match p.gc_versions {
            Some(v) => gc_hits(v, sys.gc_versions, devs, sys.gc_versions.len() as int),
            None => id_hits(p, devs),
        }
    }
}

fn is_star(s: &String) -> (r: bool)
    ensures
        r == is_wildcard(s@),
{
    let t = s.as_str();
    let n = t.unicode_len();
    if n == 1 && t.get_char(0) == '*' {
        assert(s@ =~= seq!['*']);
        true
    } else {
        false
    }
}

/// Whether `list` holds `id` (given folded), or the wildcard where that counts.
fn list_has(list: &Vec<String>, id: Ghost<Seq<char>>, id_lower: &String, with_wildcard: bool) -> (r: bool)
    requires
        id_lower@ == lower_of(id@),
    ensures
        with_wildcard ==> r == id_accepted(texts(list@), id@),
        !with_wildcard ==> r == id_listed(texts(list@), id@),
{
    let ghost l = texts(list@);
    let mut i: usize = 0;
    while i < list.len()
        invariant
            i <= list.len(),
            l == texts(list@),
            id_lower@ == lower_of(id@),
            forall|j: int| 0 <= j < i ==> !(with_wildcard && is_wildcard(#[trigger] l[j])) && lower_of(l[j]) != lower_of(id@),
        decreases list.len() - i,
    {
        let x = &list[i];
        assert(l[i as int] == x@);
        if with_wildcard && is_star(x) {
            return true;
        }
        let folded = lowercase(x.as_str());
        if folded == *id_lower {
            return true;
        }
        i = i + 1;
    }
    false
}

/// Whether group `g` accepts device `d`.
fn group_accepts_exec(g: &HardwareID, pattern: &Option<String>, d: &Device) -> (r: bool)
    ensures
        r == group_accepts(g@, crate::profile::opt_text(*pattern), d@),
{
    let class_lower = lowercase(d.class_id.as_str());
    if !list_has(&g.class_ids, Ghost(d.class_id@), &class_lower, true) {
        return false;
    }
    if list_has(&g.blacklisted_class_ids, Ghost(d.class_id@), &class_lower, false) {
        return false;
    }
    let vendor_lower = lowercase(d.vendor_id.as_str());
    if !list_has(&g.vendor_ids, Ghost(d.vendor_id@), &vendor_lower, true) {
        return false;
    }
    if list_has(&g.blacklisted_vendor_ids, Ghost(d.vendor_id@), &vendor_lower, false) {
        return false;
    }
    match pattern {
        Some(p) => regex_match(p.as_str(), d.device_name.as_str()) == Some(true),
        None => {
            let device_lower = lowercase(d.device_id.as_str());
            list_has(&g.device_ids, Ghost(d.device_id@), &device_lower, true) && !list_has(
                &g.blacklisted_device_ids,
                Ghost(d.device_id@),
                &device_lower,
                false,
            )
        },
    }
}

/// The indices, ascending, of the devices that group `g` accepts.
fn group_hits_exec(g: &HardwareID, pattern: &Option<String>, devices: &Vec<Device>) -> (r: Vec<usize>)
    ensures
        r@ == all_group_hits(g@, crate::profile::opt_text(*pattern), device_views(devices@)),
{
    let ghost devs = device_views(devices@);
    let mut r: Vec<usize> = Vec::new();
    let mut i: usize = 0;
    while i < devices.len()
        invariant
            i <= devices.len(),
            devs == device_views(devices@),
            r@ == group_hits(g@, crate::profile::opt_text(*pattern), devs, i as int),
        decreases devices.len() - i,
    {
        if group_accepts_exec(g, pattern, &devices[i]) {
            r.push(i);
        }
        i = i + 1;
    }
    r
}

/// The first index of a device at bus id `busid`.
fn busid_index_exec(devices: &Vec<Device>, busid: &String) -> (r: Option<usize>)
    ensures
        match busid_index(device_views(devices@), busid@, devices@.len() as int) {
            Some(i) => r == Some(i as usize),
            None => r is None,
        },
{
    let ghost devs = device_views(devices@);
    let mut i: usize = 0;
    while i < devices.len()
        invariant
            i <= devices.len(),
            devs == device_views(devices@),
            busid_index(devs, busid@, i as int) is None,
        decreases devices.len() - i,
    {
        if devices[i].sysfs_busid == *busid {
            proof {
                lemma_busid_index_stable(devs, busid@, i as int + 1, devs.len() as int);
            }
            return Some(i);
        }
        i = i + 1;
    }
    None
}

proof fn lemma_busid_index_stable(devs: Seq<DeviceView>, b: Seq<char>, n: int, m: int)
    requires
        0 <= n <= m,
        busid_index(devs, b, n) is Some,
    ensures
        busid_index(devs, b, m) == busid_index(devs, b, n),
    decreases m - n,
{
    if m > n {
        lemma_busid_index_stable(devs, b, n, m - 1);
    }
}

fn contains_text(list: &Vec<String>, s: &String) -> (r: bool)
    ensures
        r == texts(list@).contains(s@),
{
    let mut i: usize = 0;
    while i < list.len()
        invariant
            i <= list.len(),
            forall|j: int| 0 <= j < i ==> list@[j]@ != s@,
        decreases list.len() - i,
    {
        if list[i] == *s {
            assert(texts(list@)[i as int] == s@);
            return true;
        }
        i = i + 1;
    }
    assert(!texts(list@).contains(s@)) by {
        if texts(list@).contains(s@) {
            let j = choose|j: int| 0 <= j < texts(list@).len() && texts(list@)[j] == s@;
            assert(list@[j]@ == s@);
        }
    }
    false
}

/// The devices matched through graphics-core versions.
fn gc_hits_exec(devices: &Vec<Device>, versions: &Vec<String>, found: &Vec<(String, String)>) -> (r: Vec<usize>)
    ensures
        r@ == gc_hits(
            texts(versions@),
            found@.map_values(|t: (String, String)| (t.0@, t.1@)),
            device_views(devices@),
            found@.len() as int,
        ),
{
    let ghost pairs = found@.map_values(|t: (String, String)| (t.0@, t.1@));
    let mut r: Vec<usize> = Vec::new();
    let mut k: usize = 0;
    while k < found.len()
        invariant
            k <= found.len(),
            pairs == found@.map_values(|t: (String, String)| (t.0@, t.1@)),
            r@ == gc_hits(texts(versions@), pairs, device_views(devices@), k as int),
        decreases found.len() - k,
    {
        let pair = &found[k];
        assert(pairs[k as int] == (pair.0@, pair.1@));
        if contains_text(versions, &pair.1) {
            match busid_index_exec(devices, &pair.0) {
                Some(i) => r.push(i),
                None => {},
            }
        }
        k = k + 1;
    }
    r
}

/// The indices of the devices that `profile` applies to. A product-name
/// pattern that does not match the machine rules every device out; a list of
/// graphics-core versions decides alone; otherwise every group has to accept
/// some device, and the hits of all groups are returned one group after the
/// other.
pub fn get_all_devices_of_profile(devices: &Vec<Device>, profile: &Profile, system: &SystemInfo) -> (r: Vec<usize>)
    ensures
        r@ == matching_devices(profile@, device_views(devices@), system@),
        forall|i: int| 0 <= i < r@.len() ==> r@[i] < devices@.len(),
{
    let ghost devs = device_views(devices@);
    let ghost p = profile@;
    assert(devs.len() == devices.len());
    match &profile.hwd_product_name_pattern {
        Some(pattern) => {
            if regex_match(pattern.as_str(), system.product_name.as_str()) != Some(true) {
                return Vec::new();
            }
        },
        None => {},
    }
    match &profile.gc_versions {
        Some(versions) => {
            let r = gc_hits_exec(devices, versions, &system.gc_versions);
            proof {
                lemma_gc_hits_bound(texts(versions@), system@.gc_versions, devs, system@.gc_versions.len() as int);
            }
            return r;
        },
        None => {},
    }
    let mut found: Vec<usize> = Vec::new();
    let mut k: usize = 0;
    while k < profile.hwd_ids.len()
        invariant
            k <= profile.hwd_ids.len(),
            devs == device_views(devices@),
            p == profile@,
            p.gc_versions is None,
            found@ == concat_hits(p, devs, k as int),
            groups_hit(p, devs, k as int),
        decreases profile.hwd_ids.len() - k,
    {
        let g = &profile.hwd_ids[k];
        assert(p.hwd_ids[k as int] == g@);
        let mut hits = group_hits_exec(g, &profile.device_name_pattern, devices);
        if hits.len() == 0 {
            assert(!groups_hit(p, devs, p.hwd_ids.len() as int));
            return Vec::new();
        }
        found.append(&mut hits);
        k = k + 1;
    }
    proof {
        lemma_concat_hits_bound(p, devs, p.hwd_ids.len() as int);
    }
    found
}

proof fn lemma_group_hits_bound(g: HardwareIDView, pattern: Option<Seq<char>>, devs: Seq<DeviceView>, n: int)
    requires
        n <= devs.len() <= usize::MAX,
    ensures
        forall|i: int| 0 <= i < group_hits(g, pattern, devs, n).len() ==> group_hits(g, pattern, devs, n)[i] < devs.len(),
    decreases n,
{
    if n > 0 {
        lemma_group_hits_bound(g, pattern, devs, n - 1);
        let prev = group_hits(g, pattern, devs, n - 1);
        if group_accepts(g, pattern, devs[n - 1]) {
            let next = prev.push((n - 1) as usize);
            assert forall|i: int| 0 <= i < next.len() implies #[trigger] next[i] < devs.len() by {
                if i < prev.len() {
                    assert(next[i] == prev[i]);
                }
            }
        }
    }
}

proof fn lemma_concat_hits_bound(p: ProfileView, devs: Seq<DeviceView>, k: int)
    requires
        k <= p.hwd_ids.len(),
        devs.len() <= usize::MAX,
    ensures
        forall|i: int| 0 <= i < concat_hits(p, devs, k).len() ==> concat_hits(p, devs, k)[i] < devs.len(),
    decreases k,
{
    if k > 0 {
        lemma_concat_hits_bound(p, devs, k - 1);
        lemma_group_hits_bound(p.hwd_ids[k - 1], p.device_name_pattern, devs, devs.len() as int);
        let a = concat_hits(p, devs, k - 1);
        let b = all_group_hits(p.hwd_ids[k - 1], p.device_name_pattern, devs);
        assert forall|i: int| 0 <= i < (a + b).len() implies (a + b)[i] < devs.len() by {
            if i < a.len() {
                assert((a + b)[i] == a[i]);
            } else {
                assert((a + b)[i] == b[i - a.len()]);
            }
        }
    }
}

proof fn lemma_busid_index_bound(devs: Seq<DeviceView>, b: Seq<char>, n: int)
    requires
        n <= devs.len(),
    ensures
        busid_index(devs, b, n) matches Some(i) ==> 0 <= i < n,
    decreases n,
{
    if n > 0 {
        lemma_busid_index_bound(devs, b, n - 1);
    }
}

proof fn lemma_gc_hits_bound(
    versions: Seq<Seq<char>>,
    found: Seq<(Seq<char>, Seq<char>)>,
    devs: Seq<DeviceView>,
    k: int,
)
    requires
        k <= found.len(),
        devs.len() <= usize::MAX,
    ensures
        forall|i: int| 0 <= i < gc_hits(versions, found, devs, k).len() ==> gc_hits(versions, found, devs, k)[i] < devs.len(),
    decreases k,
{
    if k > 0 {
        lemma_gc_hits_bound(versions, found, devs, k - 1);
        lemma_busid_index_bound(devs, found[k - 1].0, devs.len() as int);
        let prev = gc_hits(versions, found, devs, k - 1);
        let pair = found[k - 1];
        if versions.contains(pair.1) {
            match busid_index(devs, pair.0, devs.len() as int) {
                Some(j) => {
                    let next = prev.push(j as usize);
                    assert forall|i: int| 0 <= i < next.len() implies #[trigger] next[i] < devs.len() by {
                        if i < prev.len() {
                            assert(next[i] == prev[i]);
                        }
                    }
                },
                None => {},
            }
        }
    }
}

/// True when two device sequences describe the same hardware, position by
/// position: the fields that matching reads agree.
pub open spec fn same_hardware(a: Seq<DeviceView>, b: Seq<DeviceView>) -> bool {
    &&& a.len() == b.len()
    &&& forall|i: int|
        0 <= i < a.len() ==> {
            &&& (#[trigger] a[i]).class_id == b[i].class_id
            &&& a[i].vendor_id == b[i].vendor_id
            &&& a[i].device_id == b[i].device_id
            &&& a[i].device_name == b[i].device_name
            &&& a[i].sysfs_busid == b[i].sysfs_busid
        }
}

proof fn lemma_group_hits_same(g: HardwareIDView, pattern: Option<Seq<char>>, a: Seq<DeviceView>, b: Seq<DeviceView>, n: int)
    requires
        same_hardware(a, b),
        n <= a.len(),
    ensures
        group_hits(g, pattern, a, n) == group_hits(g, pattern, b, n),
    decreases n,
{
    if n > 0 {
        lemma_group_hits_same(g, pattern, a, b, n - 1);
        assert(a[n - 1].class_id == b[n - 1].class_id);
    }
}

proof fn lemma_busid_index_same(a: Seq<DeviceView>, b: Seq<DeviceView>, x: Seq<char>, n: int)
    requires
        same_hardware(a, b),
        n <= a.len(),
    ensures
        busid_index(a, x, n) == busid_index(b, x, n),
    decreases n,
{
    if n > 0 {
        lemma_busid_index_same(a, b, x, n - 1);
        assert(a[n - 1].sysfs_busid == b[n - 1].sysfs_busid);
    }
}

proof fn lemma_gc_hits_same(
    versions: Seq<Seq<char>>,
    found: Seq<(Seq<char>, Seq<char>)>,
    a: Seq<DeviceView>,
    b: Seq<DeviceView>,
    k: int,
)
    requires
        same_hardware(a, b),
    ensures
        gc_hits(versions, found, a, k) == gc_hits(versions, found, b, k),
    decreases k,
{
    if k > 0 {
        lemma_gc_hits_same(versions, found, a, b, k - 1);
        lemma_busid_index_same(a, b, found[k - 1].0, a.len() as int);
    }
}

proof fn lemma_concat_hits_same(p: ProfileView, a: Seq<DeviceView>, b: Seq<DeviceView>, k: int)
    requires
        same_hardware(a, b),
    ensures
        concat_hits(p, a, k) == concat_hits(p, b, k),
    decreases k,
{
    if k > 0 {
        lemma_concat_hits_same(p, a, b, k - 1);
        lemma_group_hits_same(p.hwd_ids[k - 1], p.device_name_pattern, a, b, a.len() as int);
    }
}

/// Matching reads only the hardware identity of the devices.
pub proof fn lemma_matching_same_hardware(p: ProfileView, a: Seq<DeviceView>, b: Seq<DeviceView>, sys: SystemInfoView)
    requires
        same_hardware(a, b),
    ensures
        matching_devices(p, a, sys) == matching_devices(p, b, sys),
{
    lemma_gc_hits_same(p.gc_versions->0, sys.gc_versions, a, b, sys.gc_versions.len() as int);
    lemma_concat_hits_same(p, a, b, p.hwd_ids.len() as int);
    assert forall|j: int| 0 <= j < p.hwd_ids.len() implies all_group_hits(p.hwd_ids[j], p.device_name_pattern, a)
        == all_group_hits(p.hwd_ids[j], p.device_name_pattern, b) by {
        lemma_group_hits_same(p.hwd_ids[j], p.device_name_pattern, a, b, a.len() as int);
    }
    assert(groups_hit(p, a, p.hwd_ids.len() as int) == groups_hit(p, b, p.hwd_ids.len() as int));
}

/// Device `i` is among the hits of a group exactly when the group accepts it.
pub proof fn lemma_group_hits_contains(g: HardwareIDView, pattern: Option<Seq<char>>, devs: Seq<DeviceView>, n: int, i: int)
    requires
        0 <= n <= devs.len() <= usize::MAX,
        0 <= i < devs.len(),
    ensures
        group_hits(g, pattern, devs, n).contains(i as usize) <==> (i < n && group_accepts(g, pattern, devs[i])),
    decreases n,
{
    if n > 0 {
        lemma_group_hits_contains(g, pattern, devs, n - 1, i);
        lemma_group_hits_bound(g, pattern, devs, n - 1);
        let prev = group_hits(g, pattern, devs, n - 1);
        if group_accepts(g, pattern, devs[n - 1]) {
            let next = prev.push((n - 1) as usize);
            if i == n - 1 {
                assert(next[prev.len() as int] == i as usize);
            } else if next.contains(i as usize) {
                let k = choose|k: int| 0 <= k < next.len() && next[k] == i as usize;
                if k < prev.len() {
                    assert(prev[k] == next[k]);
                }
            }
            if prev.contains(i as usize) {
                let k = choose|k: int| 0 <= k < prev.len() && prev[k] == i as usize;
                assert(next[k] == prev[k]);
            }
        }
    }
}

/// A group whose lists are all the wildcard alone and whose blacklists are
/// empty accepts every device.
pub open spec fn all_wildcard(g: HardwareIDView) -> bool {
    &&& g.class_ids == seq![seq!['*']]
    &&& g.vendor_ids == seq![seq!['*']]
    &&& g.device_ids == seq![seq!['*']]
    &&& g.blacklisted_class_ids.len() == 0
    &&& g.blacklisted_vendor_ids.len() == 0
    &&& g.blacklisted_device_ids.len() == 0
}

/// A profile made of wildcard groups only, and matching on nothing else,
/// matches every device of the registry.
pub proof fn lemma_wildcard_profile_matches_all(p: ProfileView, devs: Seq<DeviceView>, sys: SystemInfoView)
    requires
        p.hwd_ids.len() > 0,
        forall|j: int| 0 <= j < p.hwd_ids.len() ==> all_wildcard(#[trigger] p.hwd_ids[j]),
        p.device_name_pattern is None,
        p.hwd_product_name_pattern is None,
        p.gc_versions is None,
        devs.len() <= usize::MAX,
    ensures
        forall|i: usize| (i as int) < devs.len() ==> #[trigger] matching_devices(p, devs, sys).contains(i),
{
    assert forall|j: int, i: usize| 0 <= j < p.hwd_ids.len() && (i as int) < devs.len() implies
        #[trigger] all_group_hits(p.hwd_ids[j], None, devs).contains(i) by {
        let g = p.hwd_ids[j];
        assert(is_wildcard(g.class_ids[0]) && is_wildcard(g.vendor_ids[0]) && is_wildcard(g.device_ids[0]));
        assert(group_accepts(g, None, devs[i as int]));
        lemma_group_hits_contains(g, None, devs, devs.len() as int, i as int);
    }
    if devs.len() > 0 {
        assert forall|j: int| 0 <= j < p.hwd_ids.len() implies (#[trigger] all_group_hits(p.hwd_ids[j], p.device_name_pattern, devs)).len() > 0 by {
            assert(all_group_hits(p.hwd_ids[j], None, devs).contains(0usize));
            assert(all_group_hits(p.hwd_ids[j], None, devs).len() > 0);
        }
        assert forall|i: usize| (i as int) < devs.len() implies #[trigger] matching_devices(p, devs, sys).contains(i) by {
            assert(all_group_hits(p.hwd_ids[0], None, devs).contains(i));
            lemma_concat_hits_contains_first(p, devs, p.hwd_ids.len() as int, i);
        }
    }
}

proof fn lemma_concat_hits_contains_first(p: ProfileView, devs: Seq<DeviceView>, k: int, x: usize)
    requires
        1 <= k <= p.hwd_ids.len(),
        all_group_hits(p.hwd_ids[0], p.device_name_pattern, devs).contains(x),
    ensures
        concat_hits(p, devs, k).contains(x),
    decreases k,
{
    let a = concat_hits(p, devs, k - 1);
    let b = all_group_hits(p.hwd_ids[k - 1], p.device_name_pattern, devs);
    if k == 1 {
        assert(a =~= Seq::<usize>::empty());
        assert(a + b =~= b);
    } else {
        lemma_concat_hits_contains_first(p, devs, k - 1, x);
        let i = choose|i: int| 0 <= i < a.len() && a[i] == x;
        assert((a + b)[i] == x);
    }
}

/// A group that no device passes on the class axis voids the whole profile,
/// whatever the other groups match.
pub proof fn lemma_unmatched_class_voids_profile(p: ProfileView, devs: Seq<DeviceView>, sys: SystemInfoView, j: int)
    requires
        p.gc_versions is None,
        0 <= j < p.hwd_ids.len(),
        forall|i: int| 0 <= i < devs.len() ==> !id_accepted(p.hwd_ids[j].class_ids, (#[trigger] devs[i]).class_id),
        devs.len() <= usize::MAX,
    ensures
        matching_devices(p, devs, sys) == Seq::<usize>::empty(),
{
    let g = p.hwd_ids[j];
    if all_group_hits(g, p.device_name_pattern, devs).len() > 0 {
        let h = all_group_hits(g, p.device_name_pattern, devs);
        lemma_group_hits_bound(g, p.device_name_pattern, devs, devs.len() as int);
        let i = h[0] as int;
        lemma_group_hits_contains(g, p.device_name_pattern, devs, devs.len() as int, i);
        assert(h.contains(i as usize));
    }
    assert(!groups_hit(p, devs, p.hwd_ids.len() as int));
}

/// A device whose vendor id a group blacklists is never among that group's
/// hits, whatever its vendor list says.
pub proof fn lemma_blacklisted_vendor_never_matches(
    g: HardwareIDView,
    pattern: Option<Seq<char>>,
    devs: Seq<DeviceView>,
    i: int,
)
    requires
        0 <= i < devs.len() <= usize::MAX,
        id_listed(g.blacklisted_vendor_ids, devs[i].vendor_id),
    ensures
        !group_accepts(g, pattern, devs[i]),
        !all_group_hits(g, pattern, devs).contains(i as usize),
{
    lemma_group_hits_contains(g, pattern, devs, devs.len() as int, i);
}

} // verus!
