//! Targets: what code is compiled for.
use vstd::prelude::*;

use crate::text;
use crate::text::{split_once, str_eq};

verus! {

/// Supports an `Other` variant so that the architecture can just be passed through.
#[derive(Debug, PartialEq, Eq)]
pub enum Arch {
    X86_64,
    Aarch64,
    Other(String),
}

/// The mathematical content of an [`Arch`].
#[verifier::ext_equal]
pub enum ArchView {
    X86_64,
    Aarch64,
    Other(Seq<char>),
}

impl View for Arch {
    type V = ArchView;

    open spec fn view(&self) -> ArchView {
        match *self {
            Arch::X86_64 => ArchView::X86_64,
            Arch::Aarch64 => ArchView::Aarch64,
            Arch::Other(s) => ArchView::Other(s@),
        }
    }
}

impl ArchView {
    pub open spec fn of(s: Seq<char>) -> ArchView {
        if s == "x86_64"@ {
            ArchView::X86_64
        } else if s == "aarch64"@ {
            ArchView::Aarch64
        } else {
            ArchView::Other(s)
        }
    }

    pub open spec fn name(self) -> Seq<char> {
        match self {
            ArchView::X86_64 => "x86_64"@,
            ArchView::Aarch64 => "aarch64"@,
            ArchView::Other(s) => s,
        }
    }
}

impl Arch {
    pub fn new(s: &str) -> (a: Self)
        ensures
            a@ == ArchView::of(s@),
    {
        if str_eq(s, "x86_64") {
            Arch::X86_64
        } else if str_eq(s, "aarch64") {
            Arch::Aarch64
        } else {
            Arch::Other(s.to_owned())
        }
    }

    /// The name of the architecture.
    pub fn to_text(&self) -> (s: String)
        ensures
            s@ == self@.name(),
    {
        match self {
            Arch::X86_64 => "x86_64".to_owned(),
            Arch::Aarch64 => "aarch64".to_owned(),
            Arch::Other(other) => other.as_str().to_owned(),
        }
    }
}

#[derive(Clone, Copy, Debug, PartialEq, Eq, Structural)]
pub enum Os {
    Unknown,
    Linux,
    Windows,
    Darwin,
}

#[derive(Clone, Copy, Debug, PartialEq, Eq, Structural)]
pub struct UnknownOsError;

impl Os {
    pub open spec fn name(self) -> Seq<char> {
        match self {
            Os::Unknown => "unknown"@,
            Os::Linux => "linux"@,
            Os::Windows => "windows"@,
            Os::Darwin => "darwin"@,
        }
    }

    pub open spec fn of(s: Seq<char>) -> Option<Os> {
        if s == "linux"@ {
            Some(Os::Linux)
        } else if s == "windows"@ {
            Some(Os::Windows)
        } else if s == "darwin"@ {
            Some(Os::Darwin)
        } else {
            None
        }
    }

    pub fn to_str(self) -> (s: &'static str)
        ensures
            s@ == self.name(),
    {
        match self {
            Os::Unknown => "unknown",
            Os::Linux => "linux",
            Os::Windows => "windows",
            Os::Darwin => "darwin",
        }
    }

    /// Reads the name of a known operating system.
    pub fn parse(s: &str) -> (r: Result<Os, UnknownOsError>)
        ensures
            match r {
                Ok(os) => Os::of(s@) == Some(os),
                Err(_) => Os::of(s@) is None,
            },
    {
        if str_eq(s, "linux") {
            Ok(Os::Linux)
        } else if str_eq(s, "windows") {
            Ok(Os::Windows)
        } else if str_eq(s, "darwin") {
            Ok(Os::Darwin)
        } else {
            Err(UnknownOsError)
        }
    }
}

#[derive(Debug, PartialEq, Eq)]
pub struct Target {
    pub arch: Arch,
    pub vendor: Option<String>,
    pub os: Os,
    pub os2: Option<String>,
}

/// The mathematical content of a [`Target`].
#[verifier::ext_equal]
pub struct TargetView {
    pub arch: ArchView,
    pub vendor: Option<Seq<char>>,
    pub os: Os,
    pub os2: Option<Seq<char>>,
}

pub open spec fn optional(s: Option<String>) -> Option<Seq<char>> {
    match s {
        Some(s) => Some(s@),
        None => None,
    }
}

impl View for Target {
    type V = TargetView;

    open spec fn view(&self) -> TargetView {
        TargetView {
            arch: self.arch@,
            vendor: optional(self.vendor),
            os: self.os,
            os2: optional(self.os2),
        }
    }
}

#[derive(Clone, Copy, Debug, PartialEq, Eq, Structural)]
pub enum TargetError {
    /// Target triple needs at least two components i.e. arch-os
    TooFewComponents,
    /// unknown or unsupported operating system in target triple
    UnknownOs,
}

impl TargetError {
    pub open spec fn text(self) -> Seq<char> {
        match self {
            TargetError::TooFewComponents =>
                "Target triple needs at least two components i.e. arch-os"@,
            TargetError::UnknownOs => "unknown or unsupported operating system in target triple"@,
        }
    }

    pub fn message(self) -> (s: &'static str)
        ensures
            s@ == self.text(),
    {
        match self {
            TargetError::TooFewComponents => "Target triple needs at least two components i.e. arch-os",
            TargetError::UnknownOs => "unknown or unsupported operating system in target triple",
        }
    }
}

pub open spec fn with_os(
    arch: ArchView,
    vendor: Option<Seq<char>>,
    os: Seq<char>,
    os2: Option<Seq<char>>,
) -> Result<TargetView, TargetError> {
    match Os::of(os) {
        Some(os) => Ok(TargetView { arch, vendor, os, os2 }),
        None => Err(TargetError::UnknownOs),
    }
}

/// The target that a triple names. With two parts it is `arch-os`. With three parts
/// it is `arch-os-os2` where the second part names an operating system and
/// `arch-vendor-os` otherwise. With four it is `arch-vendor-os-os2`.
pub open spec fn parsed(triple: Seq<char>) -> Result<TargetView, TargetError> {
    match text::split_first(triple, '-') {
        None => Err(TargetError::TooFewComponents),
        Some((arch, rest)) => {
            let arch = ArchView::of(arch);
            match text::split_first(rest, '-') {
                None => with_os(arch, None, rest, None),
                Some((second, rest)) => match text::split_first(rest, '-') {
                    Some((os, os2)) => with_os(arch, Some(second), os, Some(os2)),
                    None => match Os::of(second) {
                        Some(os) => Ok(TargetView { arch, vendor: None, os, os2: Some(rest) }),
                        None => with_os(arch, Some(second), rest, None),
                    },
                },
            }
        },
    }
}

impl TargetView {
    /// The triple of the target.
    pub open spec fn triple(self) -> Seq<char> {
        self.arch.name() + seq!['-'] + (match self.vendor {
            Some(vendor) => vendor + seq!['-'],
            None => Seq::empty(),
        }) + self.os.name() + (match self.os2 {
            Some(os2) => seq!['-'] + os2,
            None => Seq::empty(),
        })
    }
}

/// The system that a program runs on is not known.
#[derive(Clone, Copy, Debug, PartialEq, Eq, Structural)]
pub struct UnknownNativeTargetError;

/// The system that is called so by the programs that run on it.
pub open spec fn native_os(os: Seq<char>) -> Option<Os> {
    if os == "linux"@ {
        Some(Os::Linux)
    } else if os == "windows"@ {
        Some(Os::Windows)
    } else if os == "macos"@ {
        Some(Os::Darwin)
    } else {
        None
    }
}

impl Target {
    /// The target that a program runs on, by the names of its architecture and its system.
    pub fn native(arch: &str, os: &str) -> (r: Result<Target, UnknownNativeTargetError>)
        ensures
            match r {
                Ok(t) => native_os(os@) matches Some(os) && t@ == (TargetView {
                    arch: ArchView::of(arch@),
                    vendor: None,
                    os,
                    os2: None,
                }),
                Err(_) => native_os(os@) is None,
            },
    {
        let os: Os = if str_eq(os, "linux") {
            Os::Linux
        } else if str_eq(os, "windows") {
            Os::Windows
        } else if str_eq(os, "macos") {
            Os::Darwin
        } else {
            return Err(UnknownNativeTargetError);
        };
        Ok(Target { arch: Arch::new(arch), vendor: None, os, os2: None })
    }

    fn with_os(arch: Arch, vendor: Option<String>, os: &str, os2: Option<String>) -> (r: Result<
        Target,
        TargetError,
    >)
        ensures
            match r {
                Ok(t) => with_os(arch@, optional(vendor), os@, optional(os2)) == Ok::<
                    TargetView,
                    TargetError,
                >(t@),
                Err(e) => with_os(arch@, optional(vendor), os@, optional(os2)) == Err::<
                    TargetView,
                    TargetError,
                >(e),
            },
    {
        match Os::parse(os) {
            Ok(os) => Ok(Target { arch, vendor, os, os2 }),
            Err(_) => Err(TargetError::UnknownOs),
        }
    }

    /// Reads a target triple.
    pub fn parse(triple: &str) -> (r: Result<Target, TargetError>)
        ensures
            match r {
                Ok(t) => parsed(triple@) == Ok::<TargetView, TargetError>(t@),
                Err(e) => parsed(triple@) == Err::<TargetView, TargetError>(e),
            },
    {
        match split_once(triple, '-') {
            None => Err(TargetError::TooFewComponents),
            Some((arch, rest)) => {
                let arch: Arch = Arch::new(arch);
                match split_once(rest, '-') {
                    // 2-part triple: arch-os
                    None => Target::with_os(arch, None, rest, None),
                    Some((vendor_or_os, rest)) => match split_once(rest, '-') {
                        // full-form 4-part target triple
                        Some((os_a, os2)) => Target::with_os(
                            arch,
                            Some(vendor_or_os.to_owned()),
                            os_a,
                            Some(os2.to_owned()),
                        ),
                        // 3-part triple with either arch-vendor-os or a two-part os. Try parsing
                        // the os first or assume the former otherwise
                        None => match Os::parse(vendor_or_os) {
                            // omitted vendor, two-part os
                            Ok(os) => Ok(
                                Target { arch, vendor: None, os, os2: Some(rest.to_owned()) },
                            ),
                            // 3-part triple: arch-vendor-os
                            Err(_) => Target::with_os(
                                arch,
                                Some(vendor_or_os.to_owned()),
                                rest,
                                None,
                            ),
                        },
                    },
                }
            },
        }
    }

    /// The triple of the target.
    pub fn to_text(&self) -> (s: String)
        ensures
            s@ == self@.triple(),
    {
        proof {
            reveal_strlit("-");
        }
        let mut s: String = self.arch.to_text();
        s.append("-");
        if let Some(vendor) = &self.vendor {
            s.append(vendor.as_str());
            s.append("-");
        }
        s.append(self.os.to_str());
        if let Some(os2) = &self.os2 {
            s.append("-");
            s.append(os2.as_str());
        }
        assert(s@ =~= self@.triple());
        s
    }
}

/// The triple of a known target can be read back, unless a part holds a dash. A
/// vendor that is named like an operating system needs the fourth part.
pub proof fn triple_reads_back(t: TargetView)
    requires
        t.os != Os::Unknown,
        t.arch == ArchView::of(t.arch.name()),
        !t.arch.name().contains('-'),
        t.vendor matches Some(v) ==> !v.contains('-') && (t.os2 is None ==> Os::of(v) is None),
        t.os2 matches Some(o) ==> t.vendor is None ==> !o.contains('-'),
    ensures
        parsed(t.triple()) == Ok::<TargetView, TargetError>(t),
{
    reveal_strlit("linux");
    reveal_strlit("windows");
    reveal_strlit("darwin");
    reveal_strlit("unknown");
    let s = t.triple();
    let tail = (match t.os2 {
        Some(os2) => seq!['-'] + os2,
        None => Seq::empty(),
    });
    let rest = (match t.vendor {
        Some(vendor) => vendor + seq!['-'],
        None => Seq::empty(),
    }) + t.os.name() + tail;
    assert(s =~= t.arch.name() + seq!['-'] + rest);
    text::joined_parts_split(t.arch.name(), rest, '-');
    assert(!t.os.name().contains('-'));
    match t.vendor {
        Some(vendor) => {
            let behind = t.os.name() + tail;
            assert(rest =~= vendor + seq!['-'] + behind);
            text::joined_parts_split(vendor, behind, '-');
            match t.os2 {
                Some(os2) => {
                    assert(behind =~= t.os.name() + seq!['-'] + os2);
                    text::joined_parts_split(t.os.name(), os2, '-');
                },
                None => {
                    assert(behind =~= t.os.name());
                    lemma_no_split(behind);
                },
            }
        },
        None => {
            match t.os2 {
                Some(os2) => {
                    assert(rest =~= t.os.name() + seq!['-'] + os2);
                    text::joined_parts_split(t.os.name(), os2, '-');
                    lemma_no_split(os2);
                },
                None => {
                    assert(rest =~= t.os.name());
                    lemma_no_split(rest);
                },
            }
        },
    }
}

proof fn lemma_no_split(s: Seq<char>)
    requires
        !s.contains('-'),
    ensures
        text::split_first(s, '-') is None,
{
    assert forall|i: int| 0 <= i < s.len() implies s[i] != '-' by {
        assert(s.contains(s[i]));
    }
    text::lemma_first_index(s, '-', s.len() as int);
}

} // verus!
