//! Install and remove transactions: what to do, in which order, and what the
//! installer is told.

use vstd::prelude::*;

use crate::data::{Data, Environment};
use crate::device::{device_views, DeviceView};
use crate::profile::{profile_views, texts, Profile, ProfileView};
use crate::ranking::has_name;

verus! {

#[derive(Debug, Clone, Copy, PartialEq, Eq, Structural)]
pub enum Transaction {
    Install,
    Remove,
}

#[derive(Debug, Clone, Copy, PartialEq, Eq, Structural)]
pub enum Status {
    Success,
    ErrorNotInstalled,
    ErrorAlreadyInstalled,
    ErrorNoMatchLocalConfig,
    ErrorScriptFailed,
    ErrorSetDatabase,
}

#[derive(Debug, Clone, Copy, PartialEq, Eq, Structural)]
pub enum Message {
    InstallStart,
    InstallEnd,
    RemoveStart,
    RemoveEnd,
}

/// The steps of a transaction: first remove the installed profile, then install.
#[derive(Debug, Clone, Copy, PartialEq, Eq, Structural)]
pub struct TransactionPlan {
    pub remove_first: bool,
    pub install: bool,
}

/// What a transaction does, given whether the profile is installed and
/// whether reinstalling is forced.
pub open spec fn plan_of(transaction: Transaction, installed: bool, force: bool) -> Result<TransactionPlan, Status> {
    match transaction {
        Transaction::Remove => if installed {
            Ok(TransactionPlan { remove_first: true, install: false })
        } else {
            Err(Status::ErrorNotInstalled)
        },
        Transaction::Install => if installed && !force {
            Err(Status::ErrorAlreadyInstalled)
        } else {
            Ok(TransactionPlan { remove_first: installed, install: true })
        },
    }
}

/// Decides the steps of a transaction: removing needs the profile
/// installed; installing an installed profile needs `force`, and then
/// removes it first.
pub fn plan_transaction(transaction: Transaction, installed: bool, force: bool) -> (r: Result<TransactionPlan, Status>)
    ensures
        r == plan_of(transaction, installed, force),
{
    match transaction {
        Transaction::Remove => {
            if installed {
                Ok(TransactionPlan { remove_first: true, install: false })
            } else {
                Err(Status::ErrorNotInstalled)
            }
        },
        Transaction::Install => {
            if installed && !force {
                Err(Status::ErrorAlreadyInstalled)
            } else {
                Ok(TransactionPlan { remove_first: installed, install: true })
            }
        },
    }
}

/// The status of one step: the installer script ran, then the database was written.
pub fn step_status(script_ok: bool, database_ok: bool) -> (r: Status)
    ensures
        r == if !script_ok {
            Status::ErrorScriptFailed
        } else if !database_ok {
            Status::ErrorSetDatabase
        } else {
            Status::Success
        },
{
    if !script_ok {
        Status::ErrorScriptFailed
    } else if !database_ok {
        Status::ErrorSetDatabase
    } else {
        Status::Success
    }
}

/// The arguments handed to the installer script.
pub open spec fn script_args(transaction: Transaction, env: Environment, profile: ProfileView) -> Seq<Seq<char>> {
    let verb = match transaction {
        Transaction::Remove => "--remove"@,
        Transaction::Install => "--install"@,
    };
    let sync = if env.sync_package_manager_database {
        seq!["--sync"@]
    } else {
        Seq::empty()
    };
    seq![verb] + sync + seq![
        "--cachedir"@,
        env.pmcache_path@,
        "--pmconfig"@,
        env.pmconfig_path@,
        "--pmroot"@,
        env.pmroot_path@,
        "--profile"@,
        profile.name,
        "--path"@,
        profile.prof_path,
    ]
}

/// Builds the installer's arguments for a transaction on `profile`.
pub fn script_arguments(env: &Environment, profile: &Profile, transaction: Transaction) -> (r: Vec<String>)
    ensures
        texts(r@) == script_args(transaction, *env, profile@),
{
    let mut args: Vec<String> = Vec::new();
    match transaction {
        Transaction::Remove => args.push(String::from_str("--remove")),
        Transaction::Install => args.push(String::from_str("--install")),
    }
    if env.sync_package_manager_database {
        args.push(String::from_str("--sync"));
    }
    args.push(String::from_str("--cachedir"));
    args.push(env.pmcache_path.clone());
    args.push(String::from_str("--pmconfig"));
    args.push(env.pmconfig_path.clone());
    args.push(String::from_str("--pmroot"));
    args.push(env.pmroot_path.clone());
    args.push(String::from_str("--profile"));
    args.push(profile.name.clone());
    args.push(String::from_str("--path"));
    args.push(profile.prof_path.clone());
    assert(texts(args@) =~= script_args(transaction, *env, profile@));
    args
}

/// Records that the installer succeeded: after an install the package
/// database counts as synced.
pub fn record_script_success(env: &mut Environment, transaction: Transaction)
    ensures
        final(env).sync_package_manager_database == (old(env).sync_package_manager_database && transaction
            == Transaction::Remove),
        final(env).pmcache_path == old(env).pmcache_path,
        final(env).pmconfig_path == old(env).pmconfig_path,
        final(env).pmroot_path == old(env).pmroot_path,
{
    if transaction == Transaction::Install {
        env.sync_package_manager_database = false;
    }
}

/// The database directories that are missing, in a fixed order.
pub fn check_environment(config_dir_exists: bool, database_dir_exists: bool) -> (r: Vec<String>)
    ensures
        texts(r@) == (if config_dir_exists {
            Seq::empty()
        } else {
            seq![crate::consts::CHWD_PCI_CONFIG_DIR@]
        }) + (if database_dir_exists {
            Seq::empty()
        } else {
            seq![crate::consts::CHWD_PCI_DATABASE_DIR@]
        }),
{
    let mut missing: Vec<String> = Vec::new();
    if !config_dir_exists {
        missing.push(String::from_str(crate::consts::CHWD_PCI_CONFIG_DIR));
    }
    if !database_dir_exists {
        missing.push(String::from_str(crate::consts::CHWD_PCI_DATABASE_DIR));
    }
    assert(texts(missing@) =~= (if config_dir_exists {
        Seq::empty()
    } else {
        seq![crate::consts::CHWD_PCI_CONFIG_DIR@]
    }) + (if database_dir_exists {
        Seq::empty()
    } else {
        seq![crate::consts::CHWD_PCI_DATABASE_DIR@]
    }));
    missing
}

/// What was asked on the command line.
#[derive(Debug, Clone, Copy, PartialEq, Eq, Structural)]
pub struct Arguments {
    pub show_pci: bool,
    pub show_usb: bool,
    pub install: bool,
    pub remove: bool,
    pub detail: bool,
    pub force: bool,
    pub list_all: bool,
    pub list_installed: bool,
    pub list_available: bool,
    pub list_hardware: bool,
    pub autoconfigure: bool,
}

/// True when autoconfiguration for `class_id` looks at device `d`: `any`
/// selects every device.
pub open spec fn class_selected(d: DeviceView, class_id: Seq<char>) -> bool {
    class_id == "any"@ || d.class_id == class_id
}

/// The names autoconfiguration picks from the first `k` devices: for each
/// selected device with an available profile, its best one, unless it is
/// installed (and not forced) or already picked.
pub open spec fn autoconf_names(
    devs: Seq<DeviceView>,
    installed: Seq<ProfileView>,
    class_id: Seq<char>,
    force: bool,
    k: int,
) -> Seq<Seq<char>>
    decreases k,
{
    if k <= 0 {
        Seq::empty()
    } else {
        let prev = autoconf_names(devs, installed, class_id, force, k - 1);
        let d = devs[k - 1];
        if class_selected(d, class_id) && d.available_profiles.len() > 0 {
            let name = d.available_profiles[0].name;
            if !(!force && has_name(installed, name)) && !prev.contains(name) {
                prev.push(name)
            } else {
                prev
            }
        } else {
            prev
        }
    }
}

/// True when some device is of the class asked for.
pub open spec fn class_found(devs: Seq<DeviceView>, class_id: Seq<char>) -> bool {
    exists|i: int| 0 <= i < devs.len() && class_selected(#[trigger] devs[i], class_id)
}

fn contains_string(v: &Vec<String>, s: &String) -> (r: bool)
    ensures
        r == texts(v@).contains(s@),
{
    let mut i: usize = 0;
    while i < v.len()
        invariant
            i <= v.len(),
            forall|j: int| 0 <= j < i ==> v@[j]@ != s@,
        decreases v.len() - i,
    {
        if v[i] == *s {
            assert(texts(v@)[i as int] == s@);
            return true;
        }
        i = i + 1;
    }
    assert(!texts(v@).contains(s@)) by {
        if texts(v@).contains(s@) {
            let j = choose|j: int| 0 <= j < texts(v@).len() && texts(v@)[j] == s@;
            assert(v@[j]@ == s@);
        }
    }
    false
}

fn installed_has(profiles: &Vec<Profile>, name: &String) -> (r: bool)
    ensures
        r == has_name(profile_views(profiles@), name@),
{
    let ghost s = profile_views(profiles@);
    let mut i: usize = 0;
    while i < profiles.len()
        invariant
            i <= profiles.len(),
            s == profile_views(profiles@),
            forall|j: int| 0 <= j < i ==> (#[trigger] s[j]).name != name@,
        decreases profiles.len() - i,
    {
        assert(s[i as int] == profiles@[i as int]@);
        if profiles[i].name == *name {
            return true;
        }
        i = i + 1;
    }
    false
}

/// Picks the profiles to install for the devices of class
/// `autoconf_class_id` (`any` for all), and asks for an install when a
/// device of that class exists and something was picked. Does nothing unless
/// autoconfiguration was asked for.
pub fn prepare_autoconfigure(data: &Data, args: &mut Arguments, autoconf_class_id: &str) -> (r: Vec<String>)
    ensures
        !old(args).autoconfigure ==> r@.len() == 0 && *final(args) == *old(args),
        old(args).autoconfigure ==> {
            let devs = device_views(data.pci_devices@);
            let names = autoconf_names(
                devs,
                profile_views(data.installed_pci_profiles@),
                autoconf_class_id@,
                old(args).force,
                devs.len() as int,
            );
            &&& texts(r@) == names
            &&& *final(args) == (Arguments {
                install: old(args).install || (class_found(devs, autoconf_class_id@) && names.len() > 0),
                ..*old(args)
            })
        },
{
    let mut names: Vec<String> = Vec::new();
    if !args.autoconfigure {
        return names;
    }
    proof {
        reveal_strlit("any");
    }
    let class_id = String::from_str(autoconf_class_id);
    let any = String::from_str("any");
    let ghost devs = device_views(data.pci_devices@);
    let ghost installed = profile_views(data.installed_pci_profiles@);
    let mut found_device = false;
    let mut i: usize = 0;
    while i < data.pci_devices.len()
        invariant
            i <= data.pci_devices.len(),
            devs == device_views(data.pci_devices@),
            installed == profile_views(data.installed_pci_profiles@),
            class_id@ == autoconf_class_id@,
            any@ == "any"@,
            texts(names@) == autoconf_names(devs, installed, class_id@, args.force, i as int),
            found_device == exists|j: int| 0 <= j < i && class_selected(#[trigger] devs[j], class_id@),
        decreases data.pci_devices.len() - i,
    {
        let device = &data.pci_devices[i];
        assert(devs[i as int] == device@);
        if class_id == any || device.class_id == class_id {
            found_device = true;
            if device.available_profiles.len() > 0 {
                let best: &Profile = &device.available_profiles[0];
                assert(device@.available_profiles[0] == best@);
                let skip = !args.force && installed_has(&data.installed_pci_profiles, &best.name);
                if !skip && !contains_string(&names, &best.name) {
                    proof {
                        crate::profile::lemma_texts_push(names@, best.name);
                    }
                    names.push(best.name.clone());
                }
            }
        }
        i = i + 1;
    }
    if found_device && names.len() > 0 {
        args.install = true;
    }
    names
}

} // verus!
