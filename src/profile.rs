//! Driver profiles and the hardware-id groups they match on.

use vstd::prelude::*;

verus! {

/// The strings of a vector, as a sequence of texts.
pub open spec fn texts(v: Seq<String>) -> Seq<Seq<char>> {
    v.map_values(|s: String| s@)
}

pub proof fn lemma_texts_push(s: Seq<String>, x: String)
    ensures
        texts(s.push(x)) == texts(s).push(x@),
{
    assert(texts(s.push(x)) =~= texts(s).push(x@));
}

pub proof fn lemma_texts_concat(a: Seq<String>, b: Seq<String>)
    ensures
        texts(a + b) == texts(a) + texts(b),
{
    assert(texts(a + b) =~= texts(a) + texts(b));
}

/// One group of match constraints of a profile: every axis of it has to
/// accept a device for the group to accept it.
#[derive(Debug, PartialEq)]
pub struct HardwareID {
    pub class_ids: Vec<String>,
    pub vendor_ids: Vec<String>,
    pub device_ids: Vec<String>,
    pub blacklisted_class_ids: Vec<String>,
    pub blacklisted_vendor_ids: Vec<String>,
    pub blacklisted_device_ids: Vec<String>,
}

pub struct HardwareIDView {
    pub class_ids: Seq<Seq<char>>,
    pub vendor_ids: Seq<Seq<char>>,
    pub device_ids: Seq<Seq<char>>,
    pub blacklisted_class_ids: Seq<Seq<char>>,
    pub blacklisted_vendor_ids: Seq<Seq<char>>,
    pub blacklisted_device_ids: Seq<Seq<char>>,
}

impl View for HardwareID {
    type V = HardwareIDView;

    open spec fn view(&self) -> HardwareIDView {
        HardwareIDView {
            class_ids: texts(self.class_ids@),
            vendor_ids: texts(self.vendor_ids@),
            device_ids: texts(self.device_ids@),
            blacklisted_class_ids: texts(self.blacklisted_class_ids@),
            blacklisted_vendor_ids: texts(self.blacklisted_vendor_ids@),
            blacklisted_device_ids: texts(self.blacklisted_device_ids@),
        }
    }
}

/// A copy of a vector of strings.
pub(crate) fn copy_strings(v: &Vec<String>) -> (r: Vec<String>)
    ensures
        r@ == v@,
{
    let mut r: Vec<String> = Vec::new();
    let mut i: usize = 0;
    while i < v.len()
        invariant
            i <= v.len(),
            r@ == v@.subrange(0, i as int),
        decreases v.len() - i,
    {
        r.push(v[i].clone());
        i = i + 1;
        assert(r@ =~= v@.subrange(0, i as int));
    }
    assert(r@ =~= v@);
    r
}

/// A copy of an optional string.
pub(crate) fn copy_opt_string(v: &Option<String>) -> (r: Option<String>)
    ensures
        r == *v,
{
    match v {
        Some(s) => Some(s.clone()),
        None => None,
    }
}

impl Clone for HardwareID {
    fn clone(&self) -> (r: Self)
        ensures
            r@ == self@,
    {
        HardwareID {
            class_ids: copy_strings(&self.class_ids),
            vendor_ids: copy_strings(&self.vendor_ids),
            device_ids: copy_strings(&self.device_ids),
            blacklisted_class_ids: copy_strings(&self.blacklisted_class_ids),
            blacklisted_vendor_ids: copy_strings(&self.blacklisted_vendor_ids),
            blacklisted_device_ids: copy_strings(&self.blacklisted_device_ids),
        }
    }
}

/// A group with no constraint listed on any axis.
pub open spec fn empty_group() -> HardwareIDView {
    HardwareIDView {
        class_ids: Seq::empty(),
        vendor_ids: Seq::empty(),
        device_ids: Seq::empty(),
        blacklisted_class_ids: Seq::empty(),
        blacklisted_vendor_ids: Seq::empty(),
        blacklisted_device_ids: Seq::empty(),
    }
}

impl Default for HardwareID {
    fn default() -> (r: Self)
        ensures
            r@ == empty_group(),
    {
        let r = HardwareID {
            class_ids: Vec::new(),
            vendor_ids: Vec::new(),
            device_ids: Vec::new(),
            blacklisted_class_ids: Vec::new(),
            blacklisted_vendor_ids: Vec::new(),
            blacklisted_device_ids: Vec::new(),
        };
        assert(texts(Seq::<String>::empty()) =~= Seq::<Seq<char>>::empty());
        r
    }
}

/// A driver configuration: which packages to install, and on which hardware.
#[derive(Debug, PartialEq)]
pub struct Profile {
    pub is_ai_sdk: bool,
    pub prof_path: String,
    pub name: String,
    pub desc: String,
    pub priority: i32,
    pub packages: String,
    pub post_install: String,
    pub post_remove: String,
    pub pre_install: String,
    pub pre_remove: String,
    pub conditional_packages: String,
    pub device_name_pattern: Option<String>,
    pub hwd_product_name_pattern: Option<String>,
    pub gc_versions: Option<Vec<String>>,
    pub hwd_ids: Vec<HardwareID>,
}

pub struct ProfileView {
    pub is_ai_sdk: bool,
    pub prof_path: Seq<char>,
    pub name: Seq<char>,
    pub desc: Seq<char>,
    pub priority: int,
    pub packages: Seq<char>,
    pub post_install: Seq<char>,
    pub post_remove: Seq<char>,
    pub pre_install: Seq<char>,
    pub pre_remove: Seq<char>,
    pub conditional_packages: Seq<char>,
    pub device_name_pattern: Option<Seq<char>>,
    pub hwd_product_name_pattern: Option<Seq<char>>,
    pub gc_versions: Option<Seq<Seq<char>>>,
    pub hwd_ids: Seq<HardwareIDView>,
}

pub open spec fn opt_text(o: Option<String>) -> Option<Seq<char>> {
    match o {
        Some(s) => Some(s@),
        None => None,
    }
}

/// The views of a sequence of profiles.
pub open spec fn profile_views(s: Seq<Profile>) -> Seq<ProfileView> {
    s.map_values(|p: Profile| p@)
}

pub proof fn lemma_profile_views_push(s: Seq<Profile>, p: Profile)
    ensures
        profile_views(s.push(p)) == profile_views(s).push(p@),
{
    assert(profile_views(s.push(p)) =~= profile_views(s).push(p@));
}

impl View for Profile {
    type V = ProfileView;

    open spec fn view(&self) -> ProfileView {
        ProfileView {
            is_ai_sdk: self.is_ai_sdk,
            prof_path: self.prof_path@,
            name: self.name@,
            desc: self.desc@,
            priority: self.priority as int,
            packages: self.packages@,
            post_install: self.post_install@,
            post_remove: self.post_remove@,
            pre_install: self.pre_install@,
            pre_remove: self.pre_remove@,
            conditional_packages: self.conditional_packages@,
            device_name_pattern: opt_text(self.device_name_pattern),
            hwd_product_name_pattern: opt_text(self.hwd_product_name_pattern),
            gc_versions: match self.gc_versions {
                Some(v) => Some(texts(v@)),
                None => None,
            },
            hwd_ids: self.hwd_ids@.map_values(|h: HardwareID| h@),
        }
    }
}

fn copy_groups(v: &Vec<HardwareID>) -> (r: Vec<HardwareID>)
    ensures
        r@.map_values(|h: HardwareID| h@) == v@.map_values(|h: HardwareID| h@),
{
    let mut r: Vec<HardwareID> = Vec::new();
    let mut i: usize = 0;
    while i < v.len()
        invariant
            i <= v.len(),
            r@.len() == i,
            forall|j: int| 0 <= j < i ==> #[trigger] r@[j]@ == v@[j]@,
        decreases v.len() - i,
    {
        r.push(v[i].clone());
        i = i + 1;
    }
    assert(r@.map_values(|h: HardwareID| h@) =~= v@.map_values(|h: HardwareID| h@));
    r
}

impl Clone for Profile {
    fn clone(&self) -> (r: Self)
        ensures
            r@ == self@,
    {
        Profile {
            is_ai_sdk: self.is_ai_sdk,
            prof_path: self.prof_path.clone(),
            name: self.name.clone(),
            desc: self.desc.clone(),
            priority: self.priority,
            packages: self.packages.clone(),
            post_install: self.post_install.clone(),
            post_remove: self.post_remove.clone(),
            pre_install: self.pre_install.clone(),
            pre_remove: self.pre_remove.clone(),
            conditional_packages: self.conditional_packages.clone(),
            device_name_pattern: copy_opt_string(&self.device_name_pattern),
            hwd_product_name_pattern: copy_opt_string(&self.hwd_product_name_pattern),
            gc_versions: match &self.gc_versions {
                Some(v) => Some(copy_strings(v)),
                None => None,
            },
            hwd_ids: copy_groups(&self.hwd_ids),
        }
    }
}

/// The profile that `Profile::new` makes: no name, no payload, priority 0
/// and one group with nothing listed.
pub open spec fn blank_profile() -> ProfileView {
    ProfileView {
        is_ai_sdk: false,
        prof_path: Seq::empty(),
        name: Seq::empty(),
        desc: Seq::empty(),
        priority: 0,
        packages: Seq::empty(),
        post_install: Seq::empty(),
        post_remove: Seq::empty(),
        pre_install: Seq::empty(),
        pre_remove: Seq::empty(),
        conditional_packages: Seq::empty(),
        device_name_pattern: None,
        hwd_product_name_pattern: None,
        gc_versions: None,
        hwd_ids: seq![empty_group()],
    }
}

impl Profile {
    pub fn new() -> (r: Self)
        ensures
            r@ == blank_profile(),
    {
        let mut hwd_ids: Vec<HardwareID> = Vec::new();
        hwd_ids.push(HardwareID::default());
        let r = Profile {
            is_ai_sdk: false,
            prof_path: String::new(),
            name: String::new(),
            desc: String::new(),
            priority: 0,
            packages: String::new(),
            post_install: String::new(),
            post_remove: String::new(),
            pre_install: String::new(),
            pre_remove: String::new(),
            conditional_packages: String::new(),
            device_name_pattern: None,
            hwd_product_name_pattern: None,
            gc_versions: None,
            hwd_ids,
        };
        assert(r@.hwd_ids =~= seq![empty_group()]);
        r
    }
}

impl Default for Profile {
    fn default() -> (r: Self)
        ensures
            r@ == blank_profile(),
    {
        Profile::new()
    }
}

} // verus!
