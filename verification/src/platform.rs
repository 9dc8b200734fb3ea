//! The platform strategy, resolved once at startup: which game platform
//! mod files must target, and how large one OS secret-store entry may
//! be.  Keeping these behind one value spares every component its own
//! OS-conditional branching.

use vstd::prelude::*;

verus! {

/// Per-entry secret capacity where the credential store allows only a
/// few thousand bytes.
pub const CHUNK_LIMIT_SMALL: usize = 2560;

/// Per-entry secret capacity where the store allows tens of thousands.
pub const CHUNK_LIMIT_MEDIUM: usize = 30000;

/// Per-entry secret capacity where the store allows tens of millions.
pub const CHUNK_LIMIT_LARGE: usize = 10000000;

/// The game platforms a mod file can target.
#[derive(Clone, Copy, PartialEq, Eq, Structural, Debug)]
pub enum Platform {
    Windows,
    Quest,
}

impl Platform {
    /// Parse the numeric platform choice a user makes during setup.
    pub fn from_code(value: usize) -> (r: Option<Platform>)
        ensures
            value == 0 ==> r == Some(Platform::Windows),
            value == 1 ==> r == Some(Platform::Quest),
            value >= 2 ==> r is None,
    {
        match value {
            0 => Some(Platform::Windows),
            1 => Some(Platform::Quest),
            _ => None,
        }
    }

    /// The platform's display name.
    pub fn label(&self) -> (m: &'static str)
        ensures
            match self {
                Platform::Windows => m@ == "Windows"@,
                Platform::Quest => m@ == "Quest"@,
            },
    {
        match self {
            Platform::Windows => "Windows",
            Platform::Quest => "Quest",
        }
    }
}

/// The operating system this process runs on.
#[derive(Clone, Copy, PartialEq, Eq, Structural, Debug)]
pub enum HostOs {
    MacOs,
    Linux,
    Windows,
}

impl HostOs {
    /// How many bytes one entry of this host's secret store may hold.
    pub fn secret_chunk_limit(&self) -> (limit: usize)
        ensures
            limit == match self {
                HostOs::Windows => CHUNK_LIMIT_SMALL as int,
                HostOs::MacOs => CHUNK_LIMIT_MEDIUM as int,
                HostOs::Linux => CHUNK_LIMIT_LARGE as int,
            },
            limit >= 1,
    {
        match self {
            HostOs::Windows => CHUNK_LIMIT_SMALL,
            HostOs::MacOs => CHUNK_LIMIT_MEDIUM,
            HostOs::Linux => CHUNK_LIMIT_LARGE,
        }
    }

    /// The platform whose mod files this host installs: a desktop running
    /// the manager for a headset installs Quest files, while on Windows
    /// the user's configured choice decides, and an unset choice is an
    /// error the caller reports.
    pub fn target_platform(&self, configured: Option<Platform>) -> (r: Option<Platform>)
        ensures
            r == match self {
                HostOs::MacOs | HostOs::Linux => Some(Platform::Quest),
                HostOs::Windows => configured,
            },
    {
        match self {
            HostOs::MacOs | HostOs::Linux => Some(Platform::Quest),
            HostOs::Windows => configured,
        }
    }
}

} // verus!
