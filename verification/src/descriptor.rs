//! The compatibility descriptor: an operating-system/architecture
//! fingerprint inferred from a release asset's filename or from the running
//! machine's target triple, with the compatibility and preference rules the
//! selection algorithm ranks candidates by, and the magic-number sniffing
//! that detects which operating system an executable targets.
use vstd::prelude::*;

use crate::chars::contains_chars;
use crate::chars::contains_seq;
use crate::chars::lower_seq;
use crate::chars::str_chars;
use crate::chars::to_lower;
use crate::platform::current_target_triple;

verus! {

/// An operating system a release asset can target.
#[derive(Clone, Copy, Debug, PartialEq, Eq, Hash, Structural)]
pub enum Os {
    Windows,
    MacOs,
    Linux,
}

/// A processor architecture a release asset can target.
#[derive(Clone, Copy, Debug, PartialEq, Eq, Hash, Structural)]
pub enum Arch {
    X64,
    X86,
    Arm64,
    Arm32,
}

/// An operating-system/architecture fingerprint; the architecture may be
/// unknown when a filename names only the operating system.
#[derive(Clone, Copy, Debug, PartialEq, Eq)]
pub struct Descriptor {
    pub os: Os,
    pub arch: Option<Arch>,
}

/// Operating system named by a lower-cased filename, by keyword.
pub open spec fn os_of_lower(t: Seq<char>) -> Option<Os> {
    if contains_seq(t, seq!['w', 'i', 'n', 'd', 'o', 'w', 's']) || contains_seq(
        t,
        seq!['w', 'i', 'n', '6', '4'],
    ) || contains_seq(t, seq!['w', 'i', 'n', '3', '2']) {
        Some(Os::Windows)
    } else if contains_seq(t, seq!['m', 'a', 'c', 'o', 's']) || contains_seq(
        t,
        seq!['d', 'a', 'r', 'w', 'i', 'n'],
    ) || contains_seq(t, seq!['a', 'p', 'p', 'l', 'e']) || contains_seq(
        t,
        seq!['o', 's', 'x'],
    ) {
        Some(Os::MacOs)
    } else if contains_seq(t, seq!['l', 'i', 'n', 'u', 'x']) || contains_seq(
        t,
        seq!['u', 'b', 'u', 'n', 't', 'u'],
    ) {
        Some(Os::Linux)
    } else {
        None
    }
}

/// Architecture named by a lower-cased filename, by keyword; 64-bit
/// keywords are tried before their 32-bit substrings.
pub open spec fn arch_of_lower(t: Seq<char>) -> Option<Arch> {
    if contains_seq(t, seq!['a', 'a', 'r', 'c', 'h', '6', '4']) || contains_seq(
        t,
        seq!['a', 'r', 'm', '6', '4'],
    ) {
        Some(Arch::Arm64)
    } else if contains_seq(t, seq!['x', '8', '6', '_', '6', '4']) || contains_seq(
        t,
        seq!['x', '6', '4'],
    ) || contains_seq(t, seq!['a', 'm', 'd', '6', '4']) {
        Some(Arch::X64)
    } else if contains_seq(t, seq!['i', '6', '8', '6']) || contains_seq(
        t,
        seq!['i', '3', '8', '6'],
    ) || contains_seq(t, seq!['x', '8', '6']) || contains_seq(t, seq!['w', 'i', 'n', '3', '2']) {
        Some(Arch::X86)
    } else if contains_seq(t, seq!['a', 'r', 'm']) {
        Some(Arch::Arm32)
    } else {
        None
    }
}

/// Fingerprint inferred from a filename: defined only when an operating
/// system keyword is found; the architecture may remain unknown.
pub open spec fn detect_spec(s: Seq<char>) -> Option<Descriptor> {
    let t = lower_seq(s);
    match os_of_lower(t) {
        None => None,
        Some(o) => Some(Descriptor { os: o, arch: arch_of_lower(t) }),
    }
}

/// A candidate architecture runs on the current one when they are equal or
/// the current one executes the candidate's narrower instruction set.
pub open spec fn arch_pair_compatible(cur: Arch, oth: Arch) -> bool {
    cur == oth || (cur == Arch::X64 && oth == Arch::X86) || (cur == Arch::Arm64 && oth
        == Arch::Arm32)
}

/// A candidate fingerprint is compatible with the current one when the
/// operating systems agree and the architectures do not conflict; an
/// unknown architecture on either side is not a conflict.
pub open spec fn compatible_spec(cur: Descriptor, oth: Descriptor) -> bool {
    cur.os == oth.os && match (cur.arch, oth.arch) {
        (_, None) => true,
        (None, Some(_)) => true,
        (Some(a), Some(b)) => arch_pair_compatible(a, b),
    }
}

/// Preference rank of a candidate against the current system: 0 for an
/// exact architecture match, 1 for a known but inexact architecture, 2 for
/// an unknown one. Lower ranks are preferred.
pub open spec fn rank_spec(cur: Descriptor, oth: Descriptor) -> int {
    match (cur.arch, oth.arch) {
        (Some(a), Some(b)) => if a == b {
            0
        } else {
            1
        },
        (None, Some(_)) => 1,
        (_, None) => 2,
    }
}

/// Operating system an executable targets, read from its leading magic
/// bytes: ELF means Linux, Mach-O means macOS, an MZ header means Windows;
/// anything else is indeterminate.
pub open spec fn os_of_binary(b: Seq<u8>) -> Option<Os> {
    if b.len() >= 4 && b[0] == 0x7fu8 && b[1] == 0x45u8 && b[2] == 0x4cu8 && b[3] == 0x46u8 {
        Some(Os::Linux)
    } else if b.len() >= 4 && ((b[0] == 0xfeu8 && b[1] == 0xedu8 && b[2] == 0xfau8 && (b[3]
        == 0xceu8 || b[3] == 0xcfu8)) || ((b[0] == 0xceu8 || b[0] == 0xcfu8) && b[1] == 0xfau8
        && b[2] == 0xedu8 && b[3] == 0xfeu8) || (b[0] == 0xcau8 && b[1] == 0xfeu8 && b[2]
        == 0xbau8 && b[3] == 0xbeu8)) {
        Some(Os::MacOs)
    } else if b.len() >= 2 && b[0] == 0x4du8 && b[1] == 0x5au8 {
        Some(Os::Windows)
    } else {
        None
    }
}

impl Descriptor {
    /// Infers a fingerprint from a filename, case-insensitively.
    pub fn detect(name: &str) -> (r: Option<Descriptor>)
        ensures
            r == detect_spec(name@),
    {
        let cs = str_chars(name);
        let t = to_lower(&cs);
        let os: Os = if contains_chars(&t, &vec!['w', 'i', 'n', 'd', 'o', 'w', 's'])
            || contains_chars(&t, &vec!['w', 'i', 'n', '6', '4']) || contains_chars(
            &t,
            &vec!['w', 'i', 'n', '3', '2'],
        ) {
            Os::Windows
        } else if contains_chars(&t, &vec!['m', 'a', 'c', 'o', 's']) || contains_chars(
            &t,
            &vec!['d', 'a', 'r', 'w', 'i', 'n'],
        ) || contains_chars(&t, &vec!['a', 'p', 'p', 'l', 'e']) || contains_chars(
            &t,
            &vec!['o', 's', 'x'],
        ) {
            Os::MacOs
        } else if contains_chars(&t, &vec!['l', 'i', 'n', 'u', 'x']) || contains_chars(
            &t,
            &vec!['u', 'b', 'u', 'n', 't', 'u'],
        ) {
            Os::Linux
        } else {
            return None;
        };
        let arch: Option<Arch> = if contains_chars(&t, &vec!['a', 'a', 'r', 'c', 'h', '6', '4'])
            || contains_chars(&t, &vec!['a', 'r', 'm', '6', '4']) {
            Some(Arch::Arm64)
        } else if contains_chars(&t, &vec!['x', '8', '6', '_', '6', '4']) || contains_chars(
            &t,
            &vec!['x', '6', '4'],
        ) || contains_chars(&t, &vec!['a', 'm', 'd', '6', '4']) {
            Some(Arch::X64)
        } else if contains_chars(&t, &vec!['i', '6', '8', '6']) || contains_chars(
            &t,
            &vec!['i', '3', '8', '6'],
        ) || contains_chars(&t, &vec!['x', '8', '6']) || contains_chars(
            &t,
            &vec!['w', 'i', 'n', '3', '2'],
        ) {
            Some(Arch::X86)
        } else if contains_chars(&t, &vec!['a', 'r', 'm']) {
            Some(Arch::Arm32)
        } else {
            None
        };
        Some(Descriptor { os, arch })
    }

    /// Fingerprint of the machine this library runs on, inferred from the
    /// build's target triple; `None` only on a platform whose triple names
    /// no known operating system.
    pub fn current_system() -> (r: Option<Descriptor>) {
        let triple = current_target_triple();
        Descriptor::detect(triple.as_str())
    }

    /// The fingerprint's operating system.
    pub fn os(&self) -> (r: Os)
        ensures
            r == self.os,
    {
        self.os
    }

    /// Whether a candidate fingerprint is compatible with this (current)
    /// one.
    pub fn is_compatible_with(&self, other: &Descriptor) -> (r: bool)
        ensures
            r == compatible_spec(*self, *other),
    {
        let os_ok = match (self.os, other.os) {
            (Os::Windows, Os::Windows) => true,
            (Os::MacOs, Os::MacOs) => true,
            (Os::Linux, Os::Linux) => true,
            _ => false,
        };
        if !os_ok {
            return false;
        }
        match (self.arch, other.arch) {
            (_, None) => true,
            (None, Some(_)) => true,
            (Some(a), Some(b)) => {
                let eq = match (a, b) {
                    (Arch::X64, Arch::X64) => true,
                    (Arch::X86, Arch::X86) => true,
                    (Arch::Arm64, Arch::Arm64) => true,
                    (Arch::Arm32, Arch::Arm32) => true,
                    _ => false,
                };
                eq || (matches!(a, Arch::X64) && matches!(b, Arch::X86)) || (matches!(
                    a,
                    Arch::Arm64,
                ) && matches!(b, Arch::Arm32))
            },
        }
    }

    /// Preference rank of a candidate fingerprint against this (current)
    /// one; lower is preferred.
    pub fn preference_rank(&self, other: &Descriptor) -> (r: u8)
        ensures
            r as int == rank_spec(*self, *other),
    {
        match (self.arch, other.arch) {
            (Some(a), Some(b)) => {
                let eq = match (a, b) {
                    (Arch::X64, Arch::X64) => true,
                    (Arch::X86, Arch::X86) => true,
                    (Arch::Arm64, Arch::Arm64) => true,
                    (Arch::Arm32, Arch::Arm32) => true,
                    _ => false,
                };
                if eq {
                    0
                } else {
                    1
                }
            },
            (None, Some(_)) => 1,
            (_, None) => 2,
        }
    }
}

impl Os {
    /// Detects the operating system an executable's bytes target, by its
    /// magic number; `None` means indeterminate.
    pub fn detect_from_executable(bytes: &Vec<u8>) -> (r: Option<Os>)
        ensures
            r == os_of_binary(bytes@),
    {
        if bytes.len() >= 4 {
            let b0 = bytes[0];
            let b1 = bytes[1];
            let b2 = bytes[2];
            let b3 = bytes[3];
            if b0 == 0x7f && b1 == 0x45 && b2 == 0x4c && b3 == 0x46 {
                return Some(Os::Linux);
            }
            if (b0 == 0xfe && b1 == 0xed && b2 == 0xfa && (b3 == 0xce || b3 == 0xcf)) || ((b0
                == 0xce || b0 == 0xcf) && b1 == 0xfa && b2 == 0xed && b3 == 0xfe) || (b0 == 0xca
                && b1 == 0xfe && b2 == 0xba && b3 == 0xbe) {
                return Some(Os::MacOs);
            }
        }
        if bytes.len() >= 2 && bytes[0] == 0x4d && bytes[1] == 0x5a {
            return Some(Os::Windows);
        }
        None
    }

    /// Operating system of the machine this library runs on, from the
    /// build's target triple; `None` only on an unrecognized platform.
    pub fn current_system() -> (r: Option<Os>) {
        match Descriptor::current_system() {
            Some(d) => Some(d.os),
            None => None,
        }
    }
}

} // verus!
