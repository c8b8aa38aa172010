use vstd::prelude::*;

pub mod cleaner;
pub mod disks;
pub mod dmi;
pub mod fancontrol;
pub mod gpu;
pub mod hwmon;
pub mod power;
pub mod procstat;
pub mod profiles;
pub mod smbios;
pub mod snapshot;
pub mod sysinfo;
pub mod text;
pub mod topology;

verus! {

} // verus!
