use chwd::data::{initialize_data_obj, Data, ProfileFile, ProfileSource};
use chwd::device::Device;
use chwd::document::ConfigValue;
use chwd::lookup::{find_profile, get_available_profiles, CandidateError};
use chwd::matcher::SystemInfo;
use chwd::transaction::{
    check_environment, plan_transaction, prepare_autoconfigure, record_script_success, script_arguments, step_status,
    Arguments, Status, Transaction, TransactionPlan,
};

fn text(s: &str) -> ConfigValue {
    ConfigValue::Text(s.to_string())
}

fn table(entries: Vec<(&str, ConfigValue)>) -> ConfigValue {
    ConfigValue::Table(entries.into_iter().map(|(k, v)| (k.to_string(), v)).collect())
}

fn file(path: &str, entries: Vec<(&str, ConfigValue)>) -> ProfileFile {
    ProfileFile {
        path: path.to_string(),
        document: Some(entries.into_iter().map(|(k, v)| (k.to_string(), v)).collect()),
    }
}

fn source(files: Vec<ProfileFile>) -> ProfileSource {
    ProfileSource { files, id_files: vec![] }
}

fn device(class_id: &str, vendor_id: &str, device_id: &str, busid: &str) -> Device {
    Device {
        dev_type: "PCI".to_string(),
        class_name: "Display controller".to_string(),
        device_name: "AD102".to_string(),
        vendor_name: "NVIDIA".to_string(),
        class_id: class_id.to_string(),
        device_id: device_id.to_string(),
        vendor_id: vendor_id.to_string(),
        sysfs_busid: busid.to_string(),
        sysfs_id: String::new(),
        available_profiles: vec![],
        installed_profiles: vec![],
    }
}

fn devices() -> Vec<Device> {
    vec![device("0300", "10de", "2684", "0000:01:00.0"), device("0200", "8086", "15f3", "0000:05:00.0")]
}

fn system() -> SystemInfo {
    SystemInfo { product_name: String::new(), gc_versions: vec![] }
}

fn nvidia_profile(priority: i64) -> ConfigValue {
    table(vec![
        ("class_ids", text("0300")),
        ("vendor_ids", text("10de")),
        ("packages", text("nvidia-utils")),
        ("priority", ConfigValue::Integer(priority)),
    ])
}

fn config() -> ProfileSource {
    source(vec![
        file("/db/a/profiles.toml", vec![("nvidia-open", nvidia_profile(8)), ("template", table(vec![]))]),
        file("/db/b/profiles.toml", vec![("nvidia-dkms", nvidia_profile(9)), ("nvidia-open", nvidia_profile(3))]),
        ProfileFile { path: "/db/c/profiles.toml".to_string(), document: None },
    ])
}

fn database() -> ProfileSource {
    source(vec![file("/local/a/profiles.toml", vec![("nvidia-open", nvidia_profile(8))])])
}

fn names(v: &[chwd::profile::Profile]) -> Vec<String> {
    v.iter().map(|p| p.name.clone()).collect()
}

#[test]
fn available_profiles_sorted_by_priority() {
    let data = Data::new(devices(), system(), &config(), &database(), false);
    let list = data.pci_devices[0].get_available_profiles();
    assert_eq!(names(&list), vec!["nvidia-dkms", "nvidia-open"]);
    assert!(data.pci_devices[1].available_profiles.is_empty());
    let installed: Vec<String> = data.pci_devices[0].installed_profiles.iter().map(|p| p.name.clone()).collect();
    assert_eq!(installed, vec!["nvidia-open"]);
}

#[test]
fn corpus_keeps_one_profile_per_name() {
    let data = Data::new(devices(), system(), &config(), &database(), false);
    assert_eq!(names(data.get_all_pci_profiles()), vec!["nvidia-dkms", "nvidia-open"]);
    let open = find_profile("nvidia-open", data.get_all_pci_profiles()).unwrap();
    assert_eq!(open.priority, 8);
    assert_eq!(open.prof_path, "/db/a/profiles.toml");
}

#[test]
fn profile_without_packages_is_not_loaded() {
    let data = Data::new(devices(), system(), &config(), &database(), false);
    assert!(find_profile("template", data.get_all_pci_profiles()).is_none());
}

#[test]
fn unreadable_document_is_reported_invalid() {
    let data = Data::new(devices(), system(), &config(), &database(), false);
    assert_eq!(data.get_invalid_profiles(), &vec!["/db/c/profiles.toml".to_string()]);
}

#[test]
fn ai_sdk_flag_filters_profiles() {
    let data = Data::new(devices(), system(), &config(), &database(), true);
    assert!(data.get_all_pci_profiles().is_empty());
    assert!(data.get_installed_pci_profiles().is_empty());
}

#[test]
fn full_reconciliation_twice_is_stable() {
    let mut data = Data::new(devices(), system(), &config(), &database(), false);
    let first: Vec<Vec<String>> = data.pci_devices.iter().map(|d| names(&d.get_available_profiles())).collect();
    data.update_profiles_data(&config(), &database());
    let second: Vec<Vec<String>> = data.pci_devices.iter().map(|d| names(&d.get_available_profiles())).collect();
    assert_eq!(first, second);
    assert_eq!(first[0], vec!["nvidia-dkms", "nvidia-open"]);
}

#[test]
fn installed_reconciliation_follows_database() {
    let mut data = Data::new(devices(), system(), &config(), &database(), false);
    data.update_installed_profile_data(&source(vec![]));
    assert!(data.pci_devices[0].installed_profiles.is_empty());
    assert_eq!(data.pci_devices[0].available_profiles.len(), 2);
}

#[test]
fn lookups_by_name() {
    let data = initialize_data_obj(devices(), system(), &config(), &database(), false);
    assert_eq!(data.get_available_profile("nvidia-dkms").unwrap().priority, 9);
    assert!(data.get_available_profile("nvidia").is_none());
    assert!(data.get_installed_profile("nvidia-open").is_some());
    assert!(data.get_installed_profile("nvidia-dkms").is_none());
    assert!(data.get_db_profile("nvidia-dkms").is_some());
    assert_eq!(names(&get_available_profiles(&data)), vec!["nvidia-dkms", "nvidia-open"]);
    assert_eq!(data.get_all_devices_of_profile(&data.all_pci_profiles[0]), vec![0]);
    let mut found = vec![];
    data.get_all_devices_of_profile_ffi(&data.all_pci_profiles[0], &mut found);
    assert_eq!(found.len(), 1);
    assert_eq!(found[0].sysfs_busid, "0000:01:00.0");
}

#[test]
fn install_candidate_errors() {
    let only_intel = vec![device("0200", "8086", "15f3", "0000:05:00.0")];
    let data = Data::new(only_intel, system(), &config(), &database(), false);
    assert_eq!(data.get_install_candidate("nvidia-dkms").unwrap_err(), CandidateError::NoMatchingDevice);
    assert_eq!(data.get_install_candidate("nothing").unwrap_err(), CandidateError::NotFound);
    let data = Data::new(devices(), system(), &config(), &database(), false);
    assert_eq!(data.get_install_candidate("nvidia-dkms").unwrap().name, "nvidia-dkms");
}

#[test]
fn transaction_plans() {
    assert_eq!(plan_transaction(Transaction::Remove, false, false), Err(Status::ErrorNotInstalled));
    assert_eq!(
        plan_transaction(Transaction::Remove, true, false),
        Ok(TransactionPlan { remove_first: true, install: false })
    );
    assert_eq!(plan_transaction(Transaction::Install, true, false), Err(Status::ErrorAlreadyInstalled));
    assert_eq!(
        plan_transaction(Transaction::Install, true, true),
        Ok(TransactionPlan { remove_first: true, install: true })
    );
    assert_eq!(
        plan_transaction(Transaction::Install, false, false),
        Ok(TransactionPlan { remove_first: false, install: true })
    );
    assert_eq!(step_status(false, true), Status::ErrorScriptFailed);
    assert_eq!(step_status(true, false), Status::ErrorSetDatabase);
    assert_eq!(step_status(true, true), Status::Success);
}

#[test]
fn installer_arguments() {
    let mut data = Data::new(devices(), system(), &config(), &database(), false);
    let p = data.all_pci_profiles[0].clone();
    let args = script_arguments(&data.environment, &p, Transaction::Install);
    assert_eq!(
        args,
        vec![
            "--install",
            "--sync",
            "--cachedir",
            "/var/cache/pacman/pkg",
            "--pmconfig",
            "/etc/pacman.conf",
            "--pmroot",
            "/",
            "--profile",
            "nvidia-dkms",
            "--path",
            "/db/b/profiles.toml"
        ]
    );
    record_script_success(data.get_env_mut(), Transaction::Install);
    let args = script_arguments(&data.environment, &p, Transaction::Remove);
    assert_eq!(args[0], "--remove");
    assert_eq!(args[1], "--cachedir");
    assert_eq!(args.len(), 11);
}

#[test]
fn autoconfigure_picks_best_profiles() {
    let data = Data::new(devices(), system(), &config(), &database(), false);
    let mut args = Arguments {
        show_pci: false,
        show_usb: false,
        install: false,
        remove: false,
        detail: false,
        force: false,
        list_all: false,
        list_installed: false,
        list_available: false,
        list_hardware: false,
        autoconfigure: true,
    };
    assert_eq!(prepare_autoconfigure(&data, &mut args, "0300"), vec!["nvidia-dkms"]);
    assert!(args.install);
    let mut none = args;
    none.install = false;
    assert!(prepare_autoconfigure(&data, &mut none, "0c03").is_empty());
    assert!(!none.install);
    let mut off = none;
    off.autoconfigure = false;
    assert!(prepare_autoconfigure(&data, &mut off, "any").is_empty());
}

#[test]
fn missing_directories() {
    assert!(check_environment(true, true).is_empty());
    assert_eq!(check_environment(false, false), vec!["/var/lib/chwd/db/pci/", "/var/lib/chwd/local/pci/"]);
}

#[test]
fn nvidia_card_detection() {
    let data = Data::new(devices(), system(), &config(), &database(), false);
    assert!(chwd::lookup::check_nvidia_card(&data));
    let only_intel = vec![device("0200", "8086", "15f3", "0000:05:00.0")];
    let data = Data::new(only_intel, system(), &config(), &database(), false);
    assert!(!chwd::lookup::check_nvidia_card(&data));
}
