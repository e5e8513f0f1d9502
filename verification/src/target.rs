//! Target platforms: operating system and architecture, with the string
//! forms the ledger stores.

use crate::text::str_eq;
use crate::text::str_to_string;
use vstd::prelude::*;

verus! {

#[derive(Clone, Debug, PartialEq, Eq)]
pub enum OperatingSystem {
    Linux,
    MacOS,
    Custom(String),
}

#[derive(Clone, Debug, PartialEq, Eq)]
pub enum Architecture {
    X86_64,
    Aarch64,
    Custom(String),
}

/// An (operating system, architecture) pair.
#[derive(Clone, Debug, PartialEq, Eq)]
pub struct Target {
    pub os: OperatingSystem,
    pub arch: Architecture,
}

pub open spec fn os_eq(a: OperatingSystem, b: OperatingSystem) -> bool {
    match (a, b) {
        (OperatingSystem::Linux, OperatingSystem::Linux) => true,
        (OperatingSystem::MacOS, OperatingSystem::MacOS) => true,
        (OperatingSystem::Custom(x), OperatingSystem::Custom(y)) => x@ == y@,
        _ => false,
    }
}

pub open spec fn arch_eq(a: Architecture, b: Architecture) -> bool {
    match (a, b) {
        (Architecture::X86_64, Architecture::X86_64) => true,
        (Architecture::Aarch64, Architecture::Aarch64) => true,
        (Architecture::Custom(x), Architecture::Custom(y)) => x@ == y@,
        _ => false,
    }
}

pub open spec fn target_eq(a: Target, b: Target) -> bool {
    os_eq(a.os, b.os) && arch_eq(a.arch, b.arch)
}

impl Target {
    /// The platform this build runs on.
    pub fn current() -> (r: Target)
        ensures
            r.os == OperatingSystem::Linux,
            r.arch == Architecture::X86_64,
    {
        Target { os: OperatingSystem::Linux, arch: Architecture::X86_64 }
    }

    /// Whether the two targets name the same platform.
    pub fn matches(&self, other: &Target) -> (r: bool)
        ensures
            r == target_eq(*self, *other),
    {
        let os_same = match (&self.os, &other.os) {
            (OperatingSystem::Linux, OperatingSystem::Linux) => true,
            (OperatingSystem::MacOS, OperatingSystem::MacOS) => true,
            (OperatingSystem::Custom(x), OperatingSystem::Custom(y)) => str_eq(
                x.as_str(),
                y.as_str(),
            ),
            _ => false,
        };
        let arch_same = match (&self.arch, &other.arch) {
            (Architecture::X86_64, Architecture::X86_64) => true,
            (Architecture::Aarch64, Architecture::Aarch64) => true,
            (Architecture::Custom(x), Architecture::Custom(y)) => str_eq(x.as_str(), y.as_str()),
            _ => false,
        };
        os_same && arch_same
    }

    /// A field-by-field copy.
    pub fn duplicate(&self) -> (r: Target)
        ensures
            target_eq(r, *self),
    {
        let os = match &self.os {
            OperatingSystem::Linux => OperatingSystem::Linux,
            OperatingSystem::MacOS => OperatingSystem::MacOS,
            OperatingSystem::Custom(s) => OperatingSystem::Custom(str_to_string(s.as_str())),
        };
        let arch = match &self.arch {
            Architecture::X86_64 => Architecture::X86_64,
            Architecture::Aarch64 => Architecture::Aarch64,
            Architecture::Custom(s) => Architecture::Custom(str_to_string(s.as_str())),
        };
        Target { os, arch }
    }
}

/// The ledger form of a target's operating system.
pub open spec fn os_str(o: OperatingSystem) -> Seq<char> {
    match o {
        OperatingSystem::Linux => "linux"@,
        OperatingSystem::MacOS => "macos"@,
        OperatingSystem::Custom(s) => s@,
    }
}

/// The ledger form of a target's architecture.
pub open spec fn arch_str(a: Architecture) -> Seq<char> {
    match a {
        Architecture::X86_64 => "x86_64"@,
        Architecture::Aarch64 => "aarch64"@,
        Architecture::Custom(s) => s@,
    }
}

/// Writes a target as the two strings the ledger stores.
pub fn target_to_strings(t: &Target) -> (r: (String, String))
    ensures
        r.0@ == os_str(t.os),
        r.1@ == arch_str(t.arch),
{
    let os = match &t.os {
        OperatingSystem::Linux => str_to_string("linux"),
        OperatingSystem::MacOS => str_to_string("macos"),
        OperatingSystem::Custom(s) => str_to_string(s.as_str()),
    };
    let arch = match &t.arch {
        Architecture::X86_64 => str_to_string("x86_64"),
        Architecture::Aarch64 => str_to_string("aarch64"),
        Architecture::Custom(s) => str_to_string(s.as_str()),
    };
    (os, arch)
}

/// Reads a target back from its two ledger strings; an unknown pair is kept
/// as a custom platform.
pub fn strings_to_target(os: &str, arch: &str) -> (r: Target)
    ensures
        os@ == "linux"@ && arch@ == "x86_64"@ ==> r.os == OperatingSystem::Linux && r.arch
            == Architecture::X86_64,
        os@ == "linux"@ && arch@ == "aarch64"@ ==> r.os == OperatingSystem::Linux && r.arch
            == Architecture::Aarch64,
        os@ == "macos"@ && arch@ == "x86_64"@ ==> r.os == OperatingSystem::MacOS && r.arch
            == Architecture::X86_64,
        os@ == "macos"@ && arch@ == "aarch64"@ ==> r.os == OperatingSystem::MacOS && r.arch
            == Architecture::Aarch64,
        !((os@ == "linux"@ || os@ == "macos"@) && (arch@ == "x86_64"@ || arch@ == "aarch64"@))
            ==> (r.os matches OperatingSystem::Custom(s) && s@ == os@) && (
        r.arch matches Architecture::Custom(s2) && s2@ == arch@),
        os_str(r.os) == os@,
        arch_str(r.arch) == arch@,
{
    proof {
        reveal_strlit("linux");
        reveal_strlit("macos");
        reveal_strlit("x86_64");
        reveal_strlit("aarch64");
        assert("linux"@ != "macos"@) by {
            assert("linux"@[0] == 'l');
            assert("macos"@[0] == 'm');
        }
        assert("x86_64"@ != "aarch64"@) by {
            assert("x86_64"@.len() == 6);
            assert("aarch64"@.len() == 7);
        }
    }
    let os_linux = str_eq(os, "linux");
    let os_macos = str_eq(os, "macos");
    let arch_x86 = str_eq(arch, "x86_64");
    let arch_a64 = str_eq(arch, "aarch64");
    if (os_linux || os_macos) && (arch_x86 || arch_a64) {
        Target {
            os: if os_linux {
                OperatingSystem::Linux
            } else {
                OperatingSystem::MacOS
            },
            arch: if arch_x86 {
                Architecture::X86_64
            } else {
                Architecture::Aarch64
            },
        }
    } else {
        Target {
            os: OperatingSystem::Custom(str_to_string(os)),
            arch: Architecture::Custom(str_to_string(arch)),
        }
    }
}

} // verus!
