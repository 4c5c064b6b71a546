//! Fixed paths of the driver database and of the package manager.

use vstd::prelude::*;

verus! {

/// The name of the profile document in each database subdirectory.
pub const CHWD_CONFIG_FILE: &'static str = "profiles.toml";

/// Where the candidate profiles live.
pub const CHWD_PCI_CONFIG_DIR: &'static str = "/var/lib/chwd/db/pci/";

/// Where the installed profiles are recorded.
pub const CHWD_PCI_DATABASE_DIR: &'static str = "/var/lib/chwd/local/pci/";

/// The installer script.
pub const CHWD_SCRIPT_PATH: &'static str = "/var/lib/chwd/scripts/chwd";

/// The package manager's package cache.
pub const CHWD_PM_CACHE_DIR: &'static str = "/var/cache/pacman/pkg";

/// The package manager's configuration file.
pub const CHWD_PM_CONFIG: &'static str = "/etc/pacman.conf";

/// The root the package manager installs into.
pub const CHWD_PM_ROOT: &'static str = "/";

} // verus!
