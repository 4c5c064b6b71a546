//! Detected hardware functions and the profiles attached to them.

use std::sync::Arc;

use vstd::prelude::*;

use crate::profile::{Profile, ProfileView};

verus! {

/// One physical hardware function, with the profiles that match it.
#[derive(Debug)]
pub struct Device {
    pub dev_type: String,
    pub class_name: String,
    pub device_name: String,
    pub vendor_name: String,
    pub class_id: String,
    pub device_id: String,
    pub vendor_id: String,
    pub sysfs_busid: String,
    pub sysfs_id: String,
    pub available_profiles: Vec<Arc<Profile>>,
    pub installed_profiles: Vec<Arc<Profile>>,
}

pub struct DeviceView {
    pub dev_type: Seq<char>,
    pub class_name: Seq<char>,
    pub device_name: Seq<char>,
    pub vendor_name: Seq<char>,
    pub class_id: Seq<char>,
    pub device_id: Seq<char>,
    pub vendor_id: Seq<char>,
    pub sysfs_busid: Seq<char>,
    pub sysfs_id: Seq<char>,
    pub available_profiles: Seq<ProfileView>,
    pub installed_profiles: Seq<ProfileView>,
}

/// The profiles behind a list of shared handles.
pub open spec fn shared_views(v: Seq<Arc<Profile>>) -> Seq<ProfileView> {
    v.map_values(|p: Arc<Profile>| p@)
}

impl View for Device {
    type V = DeviceView;

    open spec fn view(&self) -> DeviceView {
        DeviceView {
            dev_type: self.dev_type@,
            class_name: self.class_name@,
            device_name: self.device_name@,
            vendor_name: self.vendor_name@,
            class_id: self.class_id@,
            device_id: self.device_id@,
            vendor_id: self.vendor_id@,
            sysfs_busid: self.sysfs_busid@,
            sysfs_id: self.sysfs_id@,
            available_profiles: shared_views(self.available_profiles@),
            installed_profiles: shared_views(self.installed_profiles@),
        }
    }
}

/// The devices of a vector, as a sequence of their views.
pub open spec fn device_views(v: Seq<Device>) -> Seq<DeviceView> {
    v.map_values(|d: Device| d@)
}

/// Relies on `Arc::clone`: the new handle shares the value of the old one.
#[verifier::external_body]
pub(crate) fn share(p: &Arc<Profile>) -> (r: Arc<Profile>)
    ensures
        r@ == p@,
{
    Arc::clone(p)
}

fn share_all(v: &Vec<Arc<Profile>>) -> (r: Vec<Arc<Profile>>)
    ensures
        shared_views(r@) == shared_views(v@),
{
    let mut r: Vec<Arc<Profile>> = Vec::new();
    let mut i: usize = 0;
    while i < v.len()
        invariant
            i <= v.len(),
            r@.len() == i,
            forall|j: int| 0 <= j < i ==> #[trigger] r@[j]@ == v@[j]@,
        decreases v.len() - i,
    {
        r.push(share(&v[i]));
        i = i + 1;
    }
    assert(shared_views(r@) =~= shared_views(v@));
    r
}

impl Clone for Device {
    fn clone(&self) -> (r: Self)
        ensures
            r@ == self@,
    {
        Device {
            dev_type: self.dev_type.clone(),
            class_name: self.class_name.clone(),
            device_name: self.device_name.clone(),
            vendor_name: self.vendor_name.clone(),
            class_id: self.class_id.clone(),
            device_id: self.device_id.clone(),
            vendor_id: self.vendor_id.clone(),
            sysfs_busid: self.sysfs_busid.clone(),
            sysfs_id: self.sysfs_id.clone(),
            available_profiles: share_all(&self.available_profiles),
            installed_profiles: share_all(&self.installed_profiles),
        }
    }
}

impl Device {
    /// Copies of the profiles that match this device, best first.
    pub fn get_available_profiles(&self) -> (r: Vec<Profile>)
        ensures
            r@.map_values(|p: Profile| p@) == self@.available_profiles,
    {
        let mut r: Vec<Profile> = Vec::new();
        let mut i: usize = 0;
        while i < self.available_profiles.len()
            invariant
                i <= self.available_profiles.len(),
                r@.len() == i,
                forall|j: int| 0 <= j < i ==> #[trigger] r@[j]@ == self.available_profiles@[j]@,
            decreases self.available_profiles.len() - i,
        {
            let p: &Profile = &self.available_profiles[i];
            r.push(p.clone());
            i = i + 1;
        }
        assert(r@.map_values(|p: Profile| p@) =~= self@.available_profiles);
        r
    }
}

/// True when two devices sit at the same place: same bus id and same sysfs id.
pub open spec fn same_place(a: DeviceView, b: DeviceView) -> bool {
    a.sysfs_busid == b.sysfs_busid && a.sysfs_id == b.sysfs_id
}

/// The devices of `s` whose place no earlier device of `s` has, in order.
pub open spec fn unique_places(s: Seq<DeviceView>) -> Seq<DeviceView>
    decreases s.len(),
{
    if s.len() == 0 {
        Seq::empty()
    } else {
        let prev = unique_places(s.drop_last());
        if exists|j: int| 0 <= j < prev.len() && same_place(prev[j], s.last()) {
            prev
        } else {
            prev.push(s.last())
        }
    }
}

/// Copies of `devices`, keeping only the first device at each place.
pub fn get_unique_devices(devices: &[Device]) -> (r: Vec<Device>)
    ensures
        device_views(r@) == unique_places(device_views(devices@)),
{
    let mut r: Vec<Device> = Vec::new();
    let mut i: usize = 0;
    while i < devices.len()
        invariant
            i <= devices.len(),
            device_views(r@) == unique_places(device_views(devices@.subrange(0, i as int))),
        decreases devices.len() - i,
    {
        let d = &devices[i];
        let mut found = false;
        let mut j: usize = 0;
        while j < r.len()
            invariant
                j <= r.len(),
                found == exists|k: int| 0 <= k < j && same_place(r@[k]@, d@),
            decreases r.len() - j,
        {
            if r[j].sysfs_busid == d.sysfs_busid && r[j].sysfs_id == d.sysfs_id {
                found = true;
            }
            j = j + 1;
        }
        let ghost prev = device_views(r@);
        let ghost s = device_views(devices@.subrange(0, i as int + 1));
        assert(device_views(devices@.subrange(0, i as int)) =~= s.drop_last());
        assert(s.last() == d@);
        if found {
            let ghost k = choose|k: int| 0 <= k < r.len() && same_place(r@[k]@, d@);
            assert(prev[k] == r@[k]@);
        } else {
            assert forall|k: int| 0 <= k < prev.len() implies !same_place(prev[k], s.last()) by {
                assert(prev[k] == r@[k]@);
            }
        }
        if !found {
            r.push(d.clone());
            assert(device_views(r@) =~= prev.push(s.last()));
        }
        i = i + 1;
    }
    assert(devices@.subrange(0, i as int) =~= devices@);
    r
}

} // verus!
