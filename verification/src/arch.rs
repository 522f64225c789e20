//! Chip architectures.

use vstd::prelude::*;

use target_lexicon::{Aarch64Architecture, Architecture, ArmArchitecture, Environment, Riscv64Architecture, HOST};

use crate::error::PlatformError;
use crate::text::{chars_of, is_word};

verus! {

/// A chip architecture.
#[derive(Copy, Clone, Debug, PartialEq, Eq)]
pub enum Arch {
    Arm64,
    Armv7,
    Ppc64le,
    Riscv64,
    S390x,
    X64,
}

/// The architecture that `s` names: `aarch64` or `arm64`, `armv7`, `ppc64le`,
/// `riscv64`, `s390x`, or `amd64`, `x86_64` or `x64`.
pub open spec fn spec_parse_arch(s: Seq<char>) -> Option<Arch> {
    if s == "aarch64"@ || s == "arm64"@ {
        Some(Arch::Arm64)
    } else if s == "armv7"@ {
        Some(Arch::Armv7)
    } else if s == "ppc64le"@ {
        Some(Arch::Ppc64le)
    } else if s == "riscv64"@ {
        Some(Arch::Riscv64)
    } else if s == "s390x"@ {
        Some(Arch::S390x)
    } else if s == "amd64"@ || s == "x86_64"@ || s == "x64"@ {
        Some(Arch::X64)
    } else {
        None
    }
}

/// The name Linux gives an architecture in wheel platform tags.
pub open spec fn spec_linux_arch(arch: Arch) -> Seq<char> {
    match arch {
        Arch::Arm64 => "aarch64"@,
        Arch::Armv7 => "armv7"@,
        Arch::Ppc64le => "ppc64le"@,
        Arch::Riscv64 => "riscv64"@,
        Arch::S390x => "s390x"@,
        Arch::X64 => "x86_64"@,
    }
}

/// The name Linux gives an architecture parses back to that architecture.
pub proof fn law_linux_arch_round_trip(a: Arch)
    ensures
        spec_parse_arch(spec_linux_arch(a)) == Some(a),
{
    reveal_strlit("aarch64");
    reveal_strlit("arm64");
    reveal_strlit("armv7");
    reveal_strlit("ppc64le");
    reveal_strlit("riscv64");
    reveal_strlit("s390x");
    reveal_strlit("amd64");
    reveal_strlit("x86_64");
    reveal_strlit("x64");
    let n = spec_linux_arch(a);
    match a {
        Arch::Arm64 => {},
        Arch::Armv7 => {
            assert(n.len() != "aarch64"@.len());
            assert(n[3] != "arm64"@[3]);
        },
        Arch::Ppc64le => {
            assert(n[0] != "aarch64"@[0]);
            assert(n.len() != "arm64"@.len());
            assert(n.len() != "armv7"@.len());
        },
        Arch::Riscv64 => {
            assert(n[0] != "aarch64"@[0]);
            assert(n.len() != "arm64"@.len());
            assert(n.len() != "armv7"@.len());
            assert(n[0] != "ppc64le"@[0]);
        },
        Arch::S390x => {
            assert(n.len() != "aarch64"@.len());
            assert(n[0] != "arm64"@[0]);
            assert(n[0] != "armv7"@[0]);
            assert(n.len() != "ppc64le"@.len());
            assert(n.len() != "riscv64"@.len());
        },
        Arch::X64 => {
            assert(n.len() != "aarch64"@.len());
            assert(n.len() != "arm64"@.len());
            assert(n.len() != "armv7"@.len());
            assert(n.len() != "ppc64le"@.len());
            assert(n.len() != "riscv64"@.len());
            assert(n.len() != "s390x"@.len());
            assert(n.len() != "amd64"@.len());
        },
    }
}

impl Arch {
    /// Parses an architecture name given as characters.
    pub fn parse_chars(s: &[char]) -> (res: Result<Arch, PlatformError>)
        ensures
            match res {
                Ok(a) => spec_parse_arch(s@) == Some(a),
                Err(e) => spec_parse_arch(s@) is None && e == PlatformError::UnsupportedArch,
            },
    {
        if is_word(s, "aarch64") || is_word(s, "arm64") {
            Ok(Arch::Arm64)
        } else if is_word(s, "armv7") {
            Ok(Arch::Armv7)
        } else if is_word(s, "ppc64le") {
            Ok(Arch::Ppc64le)
        } else if is_word(s, "riscv64") {
            Ok(Arch::Riscv64)
        } else if is_word(s, "s390x") {
            Ok(Arch::S390x)
        } else if is_word(s, "amd64") || is_word(s, "x86_64") || is_word(s, "x64") {
            Ok(Arch::X64)
        } else {
            Err(PlatformError::UnsupportedArch)
        }
    }

    /// Parses an architecture name.
    pub fn parse(s: &str) -> (res: Result<Arch, PlatformError>)
        ensures
            match res {
                Ok(a) => spec_parse_arch(s@) == Some(a),
                Err(e) => spec_parse_arch(s@) is None && e == PlatformError::UnsupportedArch,
            },
    {
        let chars = chars_of(s);
        Self::parse_chars(chars.as_slice())
    }

    /// The name of the architecture.
    pub fn as_str(&self) -> (name: &'static str)
        ensures
            name@ == spec_linux_arch(*self),
    {
        self.as_linux_arch()
    }

    /// The name Linux gives the architecture in wheel platform tags.
    pub fn as_linux_arch(&self) -> (name: &'static str)
        ensures
            name@ == spec_linux_arch(*self),
    {
        match self {
            Arch::Arm64 => "aarch64",
            Arch::Armv7 => "armv7",
            Arch::Ppc64le => "ppc64le",
            Arch::Riscv64 => "riscv64",
            Arch::S390x => "s390x",
            Arch::X64 => "x86_64",
        }
    }
}

/// The chip architecture of the host as the `target_lexicon` crate names
/// it, as far as the decision of [`Arch::of_host`] needs it.
#[derive(Copy, Clone, Debug, PartialEq, Eq)]
pub enum HostArchitecture {
    Armv7,
    Aarch64,
    Powerpc64le,
    Riscv64gc,
    S390x,
    X86_64,
    Other,
}

/// The architecture of the host this library was built for, as the
/// `target_lexicon` crate's `HOST` triple gives it, and whether its
/// environment is `gnueabihf`. What it gives is not stated here: it is the
/// build machine's target.
#[verifier::external_body]
fn host_triple() -> (HostArchitecture, bool) {
    let arch = match HOST.architecture {
        Architecture::Arm(ArmArchitecture::Armv7) => HostArchitecture::Armv7,
        Architecture::Aarch64(Aarch64Architecture::Aarch64) => HostArchitecture::Aarch64,
        Architecture::Powerpc64le => HostArchitecture::Powerpc64le,
        Architecture::Riscv64(Riscv64Architecture::Riscv64gc) => HostArchitecture::Riscv64gc,
        Architecture::S390x => HostArchitecture::S390x,
        Architecture::X86_64 => HostArchitecture::X86_64,
        _ => HostArchitecture::Other,
    };
    (arch, matches!(HOST.environment, Environment::Gnueabihf))
}

/// The architecture of a host: ARMv7 only with the `gnueabihf`
/// environment; AArch64, little-endian POWER64, RISC-V 64 (GC), s390x and
/// x86-64 as such; any other is not supported.
pub open spec fn spec_arch_of_host(arch: HostArchitecture, gnueabihf: bool) -> Option<Arch> {
    match arch {
        HostArchitecture::Armv7 => if gnueabihf {
            Some(Arch::Armv7)
        } else {
            None
        },
        HostArchitecture::Aarch64 => Some(Arch::Arm64),
        HostArchitecture::Powerpc64le => Some(Arch::Ppc64le),
        HostArchitecture::Riscv64gc => Some(Arch::Riscv64),
        HostArchitecture::S390x => Some(Arch::S390x),
        HostArchitecture::X86_64 => Some(Arch::X64),
        HostArchitecture::Other => None,
    }
}

impl Arch {
    /// The architecture of a host, as [`spec_arch_of_host`] decides; an
    /// error for a host that is not supported.
    pub fn of_host(arch: HostArchitecture, gnueabihf: bool) -> (res: Result<Arch, PlatformError>)
        ensures
            match spec_arch_of_host(arch, gnueabihf) {
                Some(a) => res == Ok::<Arch, PlatformError>(a),
                None => res == Err::<Arch, PlatformError>(PlatformError::UnknownHost),
            },
    {
        match arch {
            HostArchitecture::Armv7 => if gnueabihf {
                Ok(Arch::Armv7)
            } else {
                Err(PlatformError::UnknownHost)
            },
            HostArchitecture::Aarch64 => Ok(Arch::Arm64),
            HostArchitecture::Powerpc64le => Ok(Arch::Ppc64le),
            HostArchitecture::Riscv64gc => Ok(Arch::Riscv64),
            HostArchitecture::S390x => Ok(Arch::S390x),
            HostArchitecture::X86_64 => Ok(Arch::X64),
            HostArchitecture::Other => Err(PlatformError::UnknownHost),
        }
    }

    /// The architecture of the host this library was built for; an error
    /// when it is not supported.
    pub fn current() -> (res: Result<Arch, PlatformError>)
        ensures
            res is Err ==> res == Err::<Arch, PlatformError>(PlatformError::UnknownHost),
    {
        let (arch, gnueabihf) = host_triple();
        Self::of_host(arch, gnueabihf)
    }
}

} // verus!
