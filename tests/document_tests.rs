use chwd::document::{
    add_profile_to_document, get_invalid_profiles, parse_profile, parse_profiles, profile_into_toml,
    referenced_id_files, remove_profile_from_document, ConfigValue, DocumentError,
};
use chwd::profile::HardwareID;

fn text(s: &str) -> ConfigValue {
    ConfigValue::Text(s.to_string())
}

fn table(entries: Vec<(&str, ConfigValue)>) -> ConfigValue {
    ConfigValue::Table(entries.into_iter().map(|(k, v)| (k.to_string(), v)).collect())
}

fn doc(entries: Vec<(&str, ConfigValue)>) -> Vec<(String, ConfigValue)> {
    entries.into_iter().map(|(k, v)| (k.to_string(), v)).collect()
}

const PACKAGES: &str = "nvidia-utils egl-wayland nvidia-settings opencl-nvidia lib32-opencl-nvidia \
                        lib32-nvidia-utils libva-nvidia-driver vulkan-icd-loader lib32-vulkan-icd-loader";

fn graphics_document() -> Vec<(String, ConfigValue)> {
    doc(vec![(
        "nvidia-dkms",
        table(vec![
            (
                "40xxcards",
                table(vec![
                    ("desc", text("Closed source NVIDIA drivers(40xx series) for Linux (Latest)")),
                    ("priority", ConfigValue::Integer(9)),
                    ("device_name_pattern", text("(AD)\\w+")),
                ]),
            ),
            ("class_ids", text("0300 0380 0302")),
            ("conditional_packages", text("if true; then echo lib32; fi")),
            ("desc", text("Closed source NVIDIA drivers for Linux (Latest)")),
            ("device_ids", text("12 23 53 33")),
            ("hwd_product_name_pattern", text("(Ally)\\w+")),
            ("packages", text(PACKAGES)),
            ("post_install", text("echo installed")),
            ("post_remove", text("echo removed")),
            ("priority", ConfigValue::Integer(8)),
            ("vendor_ids", text("10de")),
        ]),
    )])
}

#[test]
fn graphics_profiles_correct() {
    let prof_path = "tests/profiles/graphic_drivers-profiles-test.toml";
    let parsed_profiles = parse_profiles(&graphics_document(), prof_path, &vec![]);
    assert!(parsed_profiles.is_ok());

    let hwd_ids = vec![HardwareID {
        class_ids: vec!["0300".to_owned(), "0380".to_owned(), "0302".to_owned()],
        vendor_ids: vec!["10de".to_owned()],
        device_ids: vec!["12".to_owned(), "23".to_owned(), "53".to_owned(), "33".to_owned()],
        blacklisted_class_ids: vec![],
        blacklisted_vendor_ids: vec![],
        blacklisted_device_ids: vec![],
    }];

    let parsed_profiles = parsed_profiles.unwrap();
    assert_eq!(parsed_profiles[0].prof_path, prof_path);
    assert_eq!(parsed_profiles[0].name, "nvidia-dkms.40xxcards");
    assert_eq!(parsed_profiles[0].desc, "Closed source NVIDIA drivers(40xx series) for Linux (Latest)");
    assert_eq!(parsed_profiles[0].priority, 9);
    assert_eq!(parsed_profiles[0].packages, PACKAGES);
    assert!(!parsed_profiles[0].conditional_packages.is_empty());
    assert_eq!(parsed_profiles[0].device_name_pattern, Some("(AD)\\w+".to_owned()));
    assert_eq!(parsed_profiles[0].hwd_ids, hwd_ids);
    assert!(!parsed_profiles[0].post_install.is_empty());
    assert!(!parsed_profiles[0].post_remove.is_empty());
    assert!(parsed_profiles[0].pre_install.is_empty());
    assert!(parsed_profiles[0].pre_remove.is_empty());

    assert_eq!(parsed_profiles[1].prof_path, prof_path);
    assert_eq!(parsed_profiles[1].name, "nvidia-dkms");
    assert_eq!(parsed_profiles[1].priority, 8);
    assert_eq!(parsed_profiles[1].packages, PACKAGES);
    assert!(!parsed_profiles[1].conditional_packages.is_empty());
    assert_eq!(parsed_profiles[1].device_name_pattern, None);
    assert_eq!(parsed_profiles[1].hwd_product_name_pattern, Some("(Ally)\\w+".to_owned()));
    assert_eq!(parsed_profiles[1].hwd_ids, hwd_ids);
    assert_eq!(parsed_profiles[1].gc_versions, None);
    assert!(!parsed_profiles[1].post_install.is_empty());
    assert!(!parsed_profiles[1].post_remove.is_empty());
    assert!(parsed_profiles[1].pre_install.is_empty());
    assert!(parsed_profiles[1].pre_remove.is_empty());
}

#[test]
fn profile_extra_check_parse_test() {
    let d = doc(vec![(
        "nvidia-dkms",
        table(vec![
            ("ai_sdk", ConfigValue::Boolean(false)),
            ("class_ids", text("0300 0302 0380")),
            ("desc", text("Closed source NVIDIA drivers for Linux (Latest)")),
            ("device_name_pattern", text("((GM|GP)+[0-9]+[^M]*\\s.*)")),
            ("packages", text(PACKAGES)),
            ("post_install", text("echo post")),
            ("post_remove", text("echo post")),
            ("pre_install", text("echo pre")),
            ("pre_remove", text("echo pre")),
            ("priority", ConfigValue::Integer(12)),
            ("vendor_ids", text("10de")),
        ]),
    )]);
    let parsed_profiles = parse_profiles(&d, "tests/profiles/extra-check-root-profile.toml", &vec![]);
    assert!(parsed_profiles.is_ok());
    let parsed_profiles = parsed_profiles.unwrap();

    let hwd_ids = vec![HardwareID {
        class_ids: vec!["0300".to_owned(), "0302".to_owned(), "0380".to_owned()],
        vendor_ids: vec!["10de".to_owned()],
        device_ids: vec!["*".to_owned()],
        blacklisted_class_ids: vec![],
        blacklisted_vendor_ids: vec![],
        blacklisted_device_ids: vec![],
    }];

    assert_eq!(parsed_profiles.len(), 1);
    assert_eq!(parsed_profiles[0].name, "nvidia-dkms");
    assert_eq!(parsed_profiles[0].desc, "Closed source NVIDIA drivers for Linux (Latest)");
    assert_eq!(parsed_profiles[0].priority, 12);
    assert!(!parsed_profiles[0].is_ai_sdk);
    assert_eq!(parsed_profiles[0].packages, PACKAGES);
    assert_eq!(parsed_profiles[0].device_name_pattern, Some("((GM|GP)+[0-9]+[^M]*\\s.*)".to_owned()));
    assert!(parsed_profiles[0].conditional_packages.is_empty());
    assert_eq!(parsed_profiles[0].hwd_product_name_pattern, None);
    assert_eq!(parsed_profiles[0].hwd_ids, hwd_ids);
    assert_eq!(parsed_profiles[0].gc_versions, None);
    assert!(!parsed_profiles[0].post_install.is_empty());
    assert!(!parsed_profiles[0].post_remove.is_empty());
    assert!(!parsed_profiles[0].pre_install.is_empty());
    assert!(!parsed_profiles[0].pre_remove.is_empty());
}

#[test]
fn graphics_profiles_invalid() {
    let d = doc(vec![(
        "nvidia-dkms",
        table(vec![
            ("desc", text("Closed source NVIDIA drivers for Linux (Latest)")),
            ("device_ids", text(">/var/lib/chwd/ids/nvidia-missing.ids")),
            ("packages", text(PACKAGES)),
        ]),
    )]);
    let parsed_profiles = get_invalid_profiles(&d, &vec![]);
    assert!(parsed_profiles.is_ok());
    let parsed_profiles = parsed_profiles.unwrap();

    assert_eq!(parsed_profiles.len(), 1);
    assert_eq!(parsed_profiles[0], "nvidia-dkms".to_owned());
}

#[test]
fn id_list_file_supplies_device_ids() {
    let d = doc(vec![(
        "nvidia",
        table(vec![("device_ids", text(">/ids/nvidia.ids")), ("packages", text("nvidia"))]),
    )]);
    let files = vec![(
        "/ids/nvidia.ids".to_string(),
        "# NVIDIA cards\n2684 2704\n\n   # indented comment\n\t2782  \r\n".to_string(),
    )];
    assert_eq!(referenced_id_files(&d), vec!["/ids/nvidia.ids".to_string()]);
    let profiles = parse_profiles(&d, "p.toml", &files).unwrap();
    assert_eq!(profiles[0].hwd_ids[0].device_ids, vec!["2684", "2704", "2782"]);
    assert_eq!(get_invalid_profiles(&d, &files).unwrap(), Vec::<String>::new());
}

#[test]
fn nested_table_inherits_parent_fields() {
    let d = doc(vec![(
        "case",
        table(vec![
            ("desc", text("parent")),
            ("packages", text("pkg")),
            ("test-profile", table(vec![("desc", text("child")), ("priority", ConfigValue::Integer(3))])),
            ("test-profile-2", table(vec![])),
        ]),
    )]);
    let profiles = parse_profiles(&d, "p.toml", &vec![]).unwrap();
    let names: Vec<&str> = profiles.iter().map(|p| p.name.as_str()).collect();
    assert_eq!(names, vec!["case.test-profile", "case.test-profile-2", "case"]);
    assert_eq!(profiles[0].desc, "child");
    assert_eq!(profiles[0].packages, "pkg");
    assert_eq!(profiles[0].priority, 3);
    assert_eq!(profiles[1].desc, "parent");
    assert_eq!(profiles[2].priority, 0);
}

#[test]
fn top_level_value_not_table_refuses_document() {
    let d = doc(vec![("name", text("x"))]);
    assert_eq!(parse_profiles(&d, "p.toml", &vec![]).unwrap_err(), DocumentError::NotATable);
    assert_eq!(get_invalid_profiles(&d, &vec![]).unwrap_err(), DocumentError::NotATable);
}

#[test]
fn gc_versions_split_on_whitespace() {
    let node = vec![("gc_versions".to_string(), text("10.1.1\t11.0.0  "))];
    let p = parse_profile(&node, None, "amd", &vec![]).unwrap();
    assert_eq!(p.gc_versions, Some(vec!["10.1.1".to_string(), "11.0.0".to_string()]));
    assert_eq!(p.hwd_ids[0].class_ids, vec!["*"]);
}

#[test]
fn priority_truncates_to_32_bits() {
    let node = vec![("priority".to_string(), ConfigValue::Integer(4294967297))];
    assert_eq!(parse_profile(&node, None, "p", &vec![]).unwrap().priority, 1);
}

#[test]
fn profile_table_holds_set_fields() {
    let d = graphics_document();
    let profiles = parse_profiles(&d, "p.toml", &vec![]).unwrap();
    let t = profile_into_toml(&profiles[1]);
    let keys: Vec<&str> = t.iter().map(|(k, _)| k.as_str()).collect();
    assert_eq!(
        keys,
        vec![
            "ai_sdk",
            "desc",
            "packages",
            "priority",
            "post_install",
            "post_remove",
            "conditional_packages",
            "hwd_product_name_pattern",
            "device_ids",
            "vendor_ids",
            "class_ids"
        ]
    );
    match &t[8].1 {
        ConfigValue::Text(s) => assert_eq!(s, "12 23 53 33"),
        other => panic!("unexpected {:?}", other),
    }
    match &t[3].1 {
        ConfigValue::Integer(i) => assert_eq!(*i, 8),
        other => panic!("unexpected {:?}", other),
    }
}

#[test]
fn add_and_remove_profiles_in_document() {
    let source = parse_profiles(&graphics_document(), "p.toml", &vec![]).unwrap();
    let mut d: Vec<(String, ConfigValue)> = vec![];
    assert!(add_profile_to_document(&mut d, &source[0], &vec![]));
    assert!(add_profile_to_document(&mut d, &source[1], &vec![]));
    assert!(!add_profile_to_document(&mut d, &source[0], &vec![]));
    assert_eq!(d.len(), 2);
    assert_eq!(d[0].0, "nvidia-dkms.40xxcards");

    let removed = remove_profile_from_document(&d, "nvidia-dkms.40xxcards", &vec![]).unwrap();
    assert_eq!(removed.len(), 1);
    assert_eq!(removed[0].0, "nvidia-dkms");
    assert!(remove_profile_from_document(&removed, "nvidia-dkms.40xxcards", &vec![]).is_none());
    let emptied = remove_profile_from_document(&removed, "nvidia-dkms", &vec![]).unwrap();
    assert!(emptied.is_empty());
}

#[test]
fn merged_profiles_leave_out_parents_with_children() {
    let d = doc(vec![
        (
            "case",
            table(vec![
                ("packages", text("pkg")),
                ("test-profile", table(vec![("priority", ConfigValue::Integer(3))])),
            ]),
        ),
        ("single", table(vec![])),
    ]);
    let merged = chwd::document::parse_profiles_merged(&d, "p.toml", &vec![]).unwrap();
    let names: Vec<&str> = merged.iter().map(|p| p.name.as_str()).collect();
    assert_eq!(names, vec!["case.test-profile", "single"]);
    assert_eq!(merged[0].packages, "pkg");
    assert_eq!(merged[1].prof_path, "p.toml");
}

#[test]
fn profile_find() {
    let profiles = parse_profiles(&graphics_document(), "graphic_drivers-profiles-test.toml", &vec![]).expect("failed");

    assert!(chwd::lookup::find_profile("nvidia-dkms", &profiles).is_some());
    assert!(chwd::lookup::find_profile("nvidia-dkm", &profiles).is_none());
    assert!(chwd::lookup::find_profile("nvidia-dkms.40xxcards", &profiles).is_some());
}
