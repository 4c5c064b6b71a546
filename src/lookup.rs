//! Finding profiles by name for install and remove.

use std::sync::Arc;

use vstd::prelude::*;

use crate::data::Data;
use crate::device::{device_views, share, shared_views, DeviceView};
use crate::profile::{profile_views, Profile, ProfileView};

verus! {

/// The first profile of `s` named `name`.
pub open spec fn first_named(s: Seq<ProfileView>, name: Seq<char>) -> Option<ProfileView>
    decreases s.len(),
{
    if s.len() == 0 {
        None
    } else if s[0].name == name {
        Some(s[0])
    } else {
        first_named(s.drop_first(), name)
    }
}

fn first_named_index(profiles: &[Profile], name: &String) -> (r: Option<usize>)
    ensures
        match first_named(profile_views(profiles@), name@) {
            Some(p) => r matches Some(i) && i < profiles@.len() && profiles@[i as int]@ == p,
            None => r is None,
        },
{
    let ghost s = profile_views(profiles@);
    let mut i: usize = 0;
    assert(s.subrange(0, s.len() as int) =~= s);
    while i < profiles.len()
        invariant
            i <= profiles.len(),
            s == profile_views(profiles@),
            first_named(s, name@) == first_named(s.subrange(i as int, s.len() as int), name@),
        decreases profiles.len() - i,
    {
        let ghost rest = s.subrange(i as int, s.len() as int);
        assert(rest[0] == profiles@[i as int]@);
        assert(rest.drop_first() =~= s.subrange(i as int + 1, s.len() as int));
        if profiles[i].name == *name {
            return Some(i);
        }
        i = i + 1;
    }
    None
}

/// A shared copy of the first profile of `profiles` named `profile_name`.
pub fn find_profile(profile_name: &str, profiles: &[Profile]) -> (r: Option<Arc<Profile>>)
    ensures
        match first_named(profile_views(profiles@), profile_name@) {
            Some(p) => r matches Some(x) && x@ == p,
            None => r is None,
        },
{
    let name = String::from_str(profile_name);
    match first_named_index(profiles, &name) {
        Some(i) => Some(Arc::new(profiles[i].clone())),
        None => None,
    }
}

/// The first profile named `name` in the available list of the first device
/// whose list has one.
pub open spec fn available_named(devs: Seq<DeviceView>, name: Seq<char>) -> Option<ProfileView>
    decreases devs.len(),
{
    if devs.len() == 0 {
        None
    } else {
        match first_named(devs[0].available_profiles, name) {
            Some(p) => Some(p),
            None => available_named(devs.drop_first(), name),
        }
    }
}

fn first_named_shared(profiles: &Vec<Arc<Profile>>, name: &String) -> (r: Option<Arc<Profile>>)
    ensures
        match first_named(shared_views(profiles@), name@) {
            Some(p) => r matches Some(x) && x@ == p,
            None => r is None,
        },
{
    let ghost s = shared_views(profiles@);
    let mut i: usize = 0;
    assert(s.subrange(0, s.len() as int) =~= s);
    while i < profiles.len()
        invariant
            i <= profiles.len(),
            s == shared_views(profiles@),
            first_named(s, name@) == first_named(s.subrange(i as int, s.len() as int), name@),
        decreases profiles.len() - i,
    {
        let ghost rest = s.subrange(i as int, s.len() as int);
        assert(rest[0] == profiles@[i as int]@);
        assert(rest.drop_first() =~= s.subrange(i as int + 1, s.len() as int));
        let p: &Profile = &profiles[i];
        if p.name == *name {
            return Some(share(&profiles[i]));
        }
        i = i + 1;
    }
    None
}

/// Why a profile cannot be installed.
#[derive(Debug, PartialEq, Eq)]
pub enum CandidateError {
    /// No profile of that name exists.
    NotFound,
    /// The profile exists but matches no device of this machine.
    NoMatchingDevice,
}

impl Data {
    /// The profile named `profile_name` as available for some device.
    pub fn get_available_profile(&self, profile_name: &str) -> (r: Option<Arc<Profile>>)
        ensures
            match available_named(device_views(self.pci_devices@), profile_name@) {
                Some(p) => r matches Some(x) && x@ == p,
                None => r is None,
            },
    {
        let name = String::from_str(profile_name);
        let ghost devs = device_views(self.pci_devices@);
        let mut i: usize = 0;
        assert(devs.subrange(0, devs.len() as int) =~= devs);
        while i < self.pci_devices.len()
            invariant
                i <= self.pci_devices.len(),
                name@ == profile_name@,
                devs == device_views(self.pci_devices@),
                available_named(devs, name@) == available_named(devs.subrange(i as int, devs.len() as int), name@),
            decreases self.pci_devices.len() - i,
        {
            let ghost rest = devs.subrange(i as int, devs.len() as int);
            assert(rest[0] == self.pci_devices@[i as int]@);
            assert(rest.drop_first() =~= devs.subrange(i as int + 1, devs.len() as int));
            let found = first_named_shared(&self.pci_devices[i].available_profiles, &name);
            if found.is_some() {
                return found;
            }
            i = i + 1;
        }
        None
    }

    /// The candidate profile named `profile_name`, whether or not it matches.
    pub fn get_db_profile(&self, profile_name: &str) -> (r: Option<Arc<Profile>>)
        ensures
            match first_named(profile_views(self.all_pci_profiles@), profile_name@) {
                Some(p) => r matches Some(x) && x@ == p,
                None => r is None,
            },
    {
        find_profile(profile_name, self.all_pci_profiles.as_slice())
    }

    /// The installed profile named `profile_name`.
    pub fn get_installed_profile(&self, profile_name: &str) -> (r: Option<Arc<Profile>>)
        ensures
            match first_named(profile_views(self.installed_pci_profiles@), profile_name@) {
                Some(p) => r matches Some(x) && x@ == p,
                None => r is None,
            },
    {
        find_profile(profile_name, self.installed_pci_profiles.as_slice())
    }

    /// The profile to install under `profile_name`: one available for some
    /// device; else an error telling a profile that matches no device from
    /// one that does not exist.
    pub fn get_install_candidate(&self, profile_name: &str) -> (r: Result<Arc<Profile>, CandidateError>)
        ensures
            match available_named(device_views(self.pci_devices@), profile_name@) {
                Some(p) => r matches Ok(x) && x@ == p,
                None => match first_named(profile_views(self.all_pci_profiles@), profile_name@) {
                    Some(_) => r == Err::<Arc<Profile>, CandidateError>(CandidateError::NoMatchingDevice),
                    None => r == Err::<Arc<Profile>, CandidateError>(CandidateError::NotFound),
                },
            },
    {
        match self.get_available_profile(profile_name) {
            Some(p) => Ok(p),
            None => match self.get_db_profile(profile_name) {
                Some(_) => Err(CandidateError::NoMatchingDevice),
                None => Err(CandidateError::NotFound),
            },
        }
    }
}

/// The available profiles of all devices, device after device.
pub open spec fn all_available(devs: Seq<DeviceView>) -> Seq<ProfileView>
    decreases devs.len(),
{
    if devs.len() == 0 {
        Seq::empty()
    } else {
        all_available(devs.drop_last()) + devs.last().available_profiles
    }
}

/// Copies of the available profiles of every device, device after device.
pub fn get_available_profiles(data: &Data) -> (r: Vec<Profile>)
    ensures
        profile_views(r@) == all_available(device_views(data.pci_devices@)),
{
    let ghost devs = device_views(data.pci_devices@);
    let mut r: Vec<Profile> = Vec::new();
    let mut i: usize = 0;
    while i < data.pci_devices.len()
        invariant
            i <= data.pci_devices.len(),
            devs == device_views(data.pci_devices@),
            profile_views(r@) == all_available(devs.subrange(0, i as int)),
        decreases data.pci_devices.len() - i,
    {
        let mut profiles = data.pci_devices[i].get_available_profiles();
        assert(devs.subrange(0, i as int + 1).drop_last() =~= devs.subrange(0, i as int));
        assert(devs[i as int] == data.pci_devices@[i as int]@);
        let ghost before = r@;
        let ghost added = profiles@;
        r.append(&mut profiles);
        assert(profile_views(r@) =~= profile_views(before) + profile_views(added));
        i = i + 1;
    }
    assert(devs.subrange(0, i as int) =~= devs);
    r
}

/// True when some NVIDIA device (vendor `10de`) has a profile available.
pub open spec fn nvidia_card_present(devs: Seq<DeviceView>) -> bool {
    exists|i: int| 0 <= i < devs.len() && (#[trigger] devs[i]).vendor_id == "10de"@ && devs[i].available_profiles.len() > 0
}

/// Whether an NVIDIA card with an available profile is present.
pub fn check_nvidia_card(data: &Data) -> (r: bool)
    ensures
        r == nvidia_card_present(device_views(data.pci_devices@)),
{
    let ghost devs = device_views(data.pci_devices@);
    let nvidia = String::from_str("10de");
    let mut i: usize = 0;
    while i < data.pci_devices.len()
        invariant
            i <= data.pci_devices.len(),
            devs == device_views(data.pci_devices@),
            nvidia@ == "10de"@,
            forall|j: int| 0 <= j < i ==> !((#[trigger] devs[j]).vendor_id == "10de"@ && devs[j].available_profiles.len() > 0),
        decreases data.pci_devices.len() - i,
    {
        let device = &data.pci_devices[i];
        assert(devs[i as int] == device@);
        if device.vendor_id == nvidia && device.available_profiles.len() > 0 {
            return true;
        }
        i = i + 1;
    }
    false
}

} // verus!
