use chwd::text::{get_current_cmdname, get_sysfs_busid_from_amdgpu_path, hex_id};

#[test]
fn cmdline() {
    assert_eq!(get_current_cmdname("../../../testchwd"), "testchwd");
    assert_eq!(get_current_cmdname("/usr/bin/testchwd"), "testchwd");
    assert_eq!(get_current_cmdname("testchwd"), "testchwd");
}

fn check_amdgpu_paths() {
    assert_eq!(
        get_sysfs_busid_from_amdgpu_path(
            "/sys/bus/pci/drivers/amdgpu/0000:c2:00.0/ip_discovery/die/0/GC/0/"
        ),
        "0000:c2:00.0"
    );
    assert_eq!(
        get_sysfs_busid_from_amdgpu_path("/sys/bus/pci/drivers/amdgpu/0000:c2:00.0/ip_discovery/die//"),
        "0000:c2:00.0"
    );
    assert_eq!(
        get_sysfs_busid_from_amdgpu_path("/sys/bus/pci/drivers/amdgpu/0000:c2:00.0/"),
        "0000:c2:00.0"
    );
    assert_eq!(
        get_sysfs_busid_from_amdgpu_path(
            "/sys/bus/pci/drivers/amdgpu/0000:30:00.0/ip_discovery/die/0/GC/0"
        ),
        "0000:30:00.0"
    );
    assert_eq!(
        get_sysfs_busid_from_amdgpu_path("/sys/bus/pci/drivers/amdgpu/0000:30:00.0/ip_discovery/die//"),
        "0000:30:00.0"
    );
    assert_eq!(
        get_sysfs_busid_from_amdgpu_path("/sys/bus/pci/drivers/amdgpu/0000:30:00.0/"),
        "0000:30:00.0"
    );
    assert_eq!(
        get_sysfs_busid_from_amdgpu_path(
            "/sys/bus/pci/drivers/amdgpu/0000:04:00.0/ip_discovery/die/0/GC/0"
        ),
        "0000:04:00.0"
    );
    assert_eq!(
        get_sysfs_busid_from_amdgpu_path("/sys/bus/pci/drivers/amdgpu/0000:04:00.0/ip_discovery/die//"),
        "0000:04:00.0"
    );
    assert_eq!(
        get_sysfs_busid_from_amdgpu_path("/sys/bus/pci/drivers/amdgpu/0000:04:00.0/"),
        "0000:04:00.0"
    );

    assert_eq!(get_sysfs_busid_from_amdgpu_path("/sys/bus/pci/drivers/amdgpu/"), "");
}

#[test]
fn hwd_misc_gpu_from_amdgpu_path() {
    check_amdgpu_paths();
}

#[test]
fn misc_gpu_from_amdgpu_path() {
    check_amdgpu_paths();
}

#[test]
fn cmdline_without_slash_and_trailing_slash() {
    assert_eq!(get_current_cmdname(""), "");
    assert_eq!(get_current_cmdname("/usr/bin/"), "");
}

#[test]
fn amdgpu_path_short_and_relative() {
    assert_eq!(get_sysfs_busid_from_amdgpu_path(""), "");
    assert_eq!(get_sysfs_busid_from_amdgpu_path("a/b/c/d/e/f/g/h"), "g");
}

#[test]
fn hex_ids_are_padded_lower_case() {
    assert_eq!(hex_id(0x10de, 4), "10de");
    assert_eq!(hex_id(0x300, 4), "0300");
    assert_eq!(hex_id(0, 2), "00");
    assert_eq!(hex_id(0x12345, 4), "12345");
    assert_eq!(hex_id(0xABCD, 0), "abcd");
}
