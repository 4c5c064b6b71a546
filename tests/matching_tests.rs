use std::sync::Arc;

use chwd::device::{get_unique_devices, Device};
use chwd::matcher::{get_all_devices_of_profile, SystemInfo};
use chwd::profile::{HardwareID, Profile};

fn strings(v: &[&str]) -> Vec<String> {
    v.iter().map(|s| s.to_string()).collect()
}

fn device(class_id: &str, vendor_id: &str, device_id: &str, name: &str, busid: &str) -> Device {
    Device {
        dev_type: "PCI".to_string(),
        class_name: "Display controller".to_string(),
        device_name: name.to_string(),
        vendor_name: "Vendor".to_string(),
        class_id: class_id.to_string(),
        device_id: device_id.to_string(),
        vendor_id: vendor_id.to_string(),
        sysfs_busid: busid.to_string(),
        sysfs_id: String::new(),
        available_profiles: vec![],
        installed_profiles: vec![],
    }
}

fn group(class_ids: &[&str], vendor_ids: &[&str], device_ids: &[&str]) -> HardwareID {
    HardwareID {
        class_ids: strings(class_ids),
        vendor_ids: strings(vendor_ids),
        device_ids: strings(device_ids),
        blacklisted_class_ids: vec![],
        blacklisted_vendor_ids: vec![],
        blacklisted_device_ids: vec![],
    }
}

fn profile_with(groups: Vec<HardwareID>) -> Profile {
    let mut p = Profile::new();
    p.name = "test".to_string();
    p.hwd_ids = groups;
    p
}

fn no_system() -> SystemInfo {
    SystemInfo { product_name: String::new(), gc_versions: vec![] }
}

fn nvidia() -> Device {
    device("0300", "10de", "2684", "AD102", "0000:01:00.0")
}

#[test]
fn class_and_vendor_group_matches_device() {
    let devices = vec![nvidia()];
    let p = profile_with(vec![group(&["0300"], &["10de"], &["*"])]);
    assert_eq!(get_all_devices_of_profile(&devices, &p, &no_system()), vec![0]);
}

#[test]
fn device_name_pattern_decides_device_axis() {
    let mut p = profile_with(vec![group(&["0300"], &["10de"], &["2684"])]);
    p.device_name_pattern = Some("(AD)\\w+".to_string());
    let devices = vec![nvidia()];
    assert_eq!(get_all_devices_of_profile(&devices, &p, &no_system()), vec![0]);
    let turing = vec![device("0300", "10de", "2684", "TU104", "0000:01:00.0")];
    assert_eq!(get_all_devices_of_profile(&turing, &p, &no_system()), Vec::<usize>::new());
}

#[test]
fn invalid_device_name_pattern_matches_nothing() {
    let mut p = profile_with(vec![group(&["*"], &["*"], &["*"])]);
    p.device_name_pattern = Some("(AD".to_string());
    assert_eq!(get_all_devices_of_profile(&vec![nvidia()], &p, &no_system()), Vec::<usize>::new());
}

#[test]
fn gc_versions_match_by_bus_id() {
    let mut p = profile_with(vec![group(&["*"], &["*"], &["*"])]);
    p.gc_versions = Some(strings(&["10.1.1"]));
    let devices = vec![nvidia(), device("0300", "1002", "73bf", "Navi 21", "0000:03:00.0")];
    let sys = SystemInfo {
        product_name: String::new(),
        gc_versions: vec![("0000:03:00.0".to_string(), "10.1.1".to_string())],
    };
    assert_eq!(get_all_devices_of_profile(&devices, &p, &sys), vec![1]);
    let other = SystemInfo {
        product_name: String::new(),
        gc_versions: vec![("0000:03:00.0".to_string(), "11.0.0".to_string())],
    };
    assert_eq!(get_all_devices_of_profile(&devices, &p, &other), Vec::<usize>::new());
    let nowhere = SystemInfo {
        product_name: String::new(),
        gc_versions: vec![("0000:09:00.0".to_string(), "10.1.1".to_string())],
    };
    assert_eq!(get_all_devices_of_profile(&devices, &p, &nowhere), Vec::<usize>::new());
}

#[test]
fn wildcard_profile_matches_every_device() {
    let devices = vec![nvidia(), device("0200", "8086", "15f3", "I225-V", "0000:05:00.0")];
    let p = profile_with(vec![group(&["*"], &["*"], &["*"])]);
    assert_eq!(get_all_devices_of_profile(&devices, &p, &no_system()), vec![0, 1]);
}

#[test]
fn empty_registry_matches_nothing() {
    let p = profile_with(vec![group(&["*"], &["*"], &["*"])]);
    assert_eq!(get_all_devices_of_profile(&vec![], &p, &no_system()), Vec::<usize>::new());
}

#[test]
fn unsatisfiable_group_voids_profile() {
    let devices = vec![nvidia()];
    let p = profile_with(vec![group(&["0300"], &["*"], &["*"]), group(&["0c03"], &["*"], &["*"])]);
    assert_eq!(get_all_devices_of_profile(&devices, &p, &no_system()), Vec::<usize>::new());
}

#[test]
fn groups_accumulate_with_duplicates() {
    let devices = vec![nvidia(), device("0200", "8086", "15f3", "I225-V", "0000:05:00.0")];
    let p = profile_with(vec![group(&["*"], &["*"], &["*"]), group(&["0300"], &["*"], &["*"])]);
    assert_eq!(get_all_devices_of_profile(&devices, &p, &no_system()), vec![0, 1, 0]);
}

#[test]
fn blacklisted_vendor_never_matches() {
    let devices = vec![nvidia()];
    let mut g = group(&["0300"], &["10de"], &["*"]);
    g.blacklisted_vendor_ids = strings(&["10DE"]);
    let p = profile_with(vec![g]);
    assert_eq!(get_all_devices_of_profile(&devices, &p, &no_system()), Vec::<usize>::new());
}

#[test]
fn ids_compare_without_case() {
    let devices = vec![device("0300", "10de", "2684", "AD102", "0000:01:00.0")];
    let p = profile_with(vec![group(&["0300"], &["10DE"], &["2684"])]);
    assert_eq!(get_all_devices_of_profile(&devices, &p, &no_system()), vec![0]);
    let blacklisted = {
        let mut g = group(&["0300"], &["10de"], &["*"]);
        g.blacklisted_device_ids = strings(&["2684"]);
        profile_with(vec![g])
    };
    assert_eq!(get_all_devices_of_profile(&devices, &blacklisted, &no_system()), Vec::<usize>::new());
}

#[test]
fn product_name_pattern_gates_whole_profile() {
    let devices = vec![nvidia()];
    let mut p = profile_with(vec![group(&["*"], &["*"], &["*"])]);
    p.hwd_product_name_pattern = Some("(Ally)\\w+".to_string());
    let ally = SystemInfo { product_name: "ROG Allyx RC71L".to_string(), gc_versions: vec![] };
    assert_eq!(get_all_devices_of_profile(&devices, &p, &ally), vec![0]);
    let other = SystemInfo { product_name: "ThinkPad".to_string(), gc_versions: vec![] };
    assert_eq!(get_all_devices_of_profile(&devices, &p, &other), Vec::<usize>::new());
}

#[test]
fn unique_devices_by_place() {
    let mut a = nvidia();
    a.sysfs_id = "/devices/pci0000:00/0000:01:00.0".to_string();
    let b = a.clone();
    let mut c = nvidia();
    c.sysfs_busid = "0000:02:00.0".to_string();
    let uniq = get_unique_devices(&[a, b, c]);
    assert_eq!(uniq.len(), 2);
    assert_eq!(uniq[0].sysfs_busid, "0000:01:00.0");
    assert_eq!(uniq[1].sysfs_busid, "0000:02:00.0");
}

#[test]
fn device_available_profiles_are_copies() {
    let mut d = nvidia();
    let mut p = Profile::new();
    p.name = "nvidia-dkms".to_string();
    d.available_profiles.push(Arc::new(p));
    let list = d.get_available_profiles();
    assert_eq!(list.len(), 1);
    assert_eq!(list[0].name, "nvidia-dkms");
}

#[test]
fn new_profile_has_one_empty_group() {
    let p = Profile::new();
    assert_eq!(p.hwd_ids, vec![HardwareID::default()]);
    assert_eq!(p.priority, 0);
    assert!(p.name.is_empty());
    assert_eq!(Profile::default(), p);
}

#[test]
fn cloned_device_shares_profiles() {
    let mut d = nvidia();
    let mut p = Profile::new();
    p.name = "nvidia-dkms".to_string();
    p.priority = 9;
    d.installed_profiles.push(Arc::new(p));
    let copy = d.clone();
    assert_eq!(copy.installed_profiles.len(), 1);
    assert_eq!(copy.installed_profiles[0].name, "nvidia-dkms");
    assert_eq!(copy.installed_profiles[0].priority, 9);
    assert!(Arc::ptr_eq(&copy.installed_profiles[0], &d.installed_profiles[0]));
}
