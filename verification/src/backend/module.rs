//! Machine code for a target.
use vstd::prelude::*;

use crate::backend::arm::abi::ArmAbi;
use crate::backend::elf;
use crate::backend::macho;
use crate::backend::object::ObjectModule;
use crate::backend::x86::abi::systemv::SystemV;
use crate::backend::Error;
use crate::ir::ids::ModuleId;
use crate::target::{Arch, ArchView, Os, Target};

verus! {

/// A machine with the convention that functions call each other by.
#[derive(Clone, Copy, Debug, PartialEq, Eq, Structural)]
pub enum Machine {
    X86(SystemV),
    Arm(ArmAbi),
}

/// The modules of the instructions that machine code is made from.
#[derive(Clone, Copy, Debug, PartialEq, Eq, Structural)]
pub struct Dialects {
    pub arith: ModuleId,
    pub cf: ModuleId,
    pub mem: ModuleId,
    pub tuple: ModuleId,
    pub mc: ModuleId,
}

/// The machine of a target. None is known for other architectures.
pub open spec fn machine_of(arch: ArchView, os: Os) -> Option<Result<Machine, Error>> {
    match arch {
        ArchView::X86_64 => Some(Ok(Machine::X86(SystemV))),
        ArchView::Aarch64 => Some(
            match os {
                Os::Linux => Ok(Machine::Arm(ArmAbi::Arm64)),
                Os::Darwin => Ok(Machine::Arm(ArmAbi::Darwin64)),
                _ => Err(Error::UnsupportedArch),
            },
        ),
        ArchView::Other(_) => None,
    }
}

/// The object file of a module. None is known for other systems.
pub open spec fn file_of(m: ObjectModule, arch: ArchView, os: Os) -> Option<
    Result<Seq<u8>, Error>,
> {
    match os {
        Os::Linux => Some(Ok(elf::writer::file_bytes(elf::emit::object_view(m)))),
        Os::Darwin => Some(
            match macho::emit::cpu_of(arch) {
                Some(cpu) => Ok(macho::writer::file_bytes(cpu, macho::emit::commands(m))),
                None => Err(Error::UnsupportedArch),
            },
        ),
        _ => None,
    }
}

/// The module can be written in the format of the system.
pub open spec fn can_write(m: ObjectModule, arch: ArchView, os: Os) -> bool {
    match os {
        Os::Linux => elf::emit::can_emit(m),
        Os::Darwin => macho::emit::cpu_of(arch) is Some ==> macho::emit::can_emit(m),
        _ => false,
    }
}

/// Turns modules into object files.
#[derive(Clone, Copy, Debug)]
pub struct Backend {}

impl Backend {
    pub fn new() -> Backend {
        Backend {  }
    }

    /// The machine that code is generated for.
    pub fn machine(&self, target: &Target) -> (r: Result<Machine, Error>)
        requires
            !(target.arch@ is Other),
        ensures
            machine_of(target.arch@, target.os) == Some(r),
    {
        match &target.arch {
            Arch::X86_64 => Ok(Machine::X86(SystemV)),
            Arch::Aarch64 => match target.os {
                Os::Linux => Ok(Machine::Arm(ArmAbi::Arm64)),
                Os::Darwin => Ok(Machine::Arm(ArmAbi::Darwin64)),
                _ => Err(Error::UnsupportedArch),
            },
            Arch::Other(_) => Err(Error::UnsupportedArch),
        }
    }

    /// Makes the object file of a module whose functions were compiled.
    pub fn emit_module(&self, m: &ObjectModule, target: &Target) -> (r: Result<Vec<u8>, Error>)
        requires
            !(target.arch@ is Other),
            machine_of(target.arch@, target.os) matches Some(Ok(_)) ==> can_write(
                *m,
                target.arch@,
                target.os,
            ),
        ensures
            match machine_of(target.arch@, target.os) {
                Some(Ok(_)) => file_of(*m, target.arch@, target.os) == Some(
                    match r {
                        Ok(bytes) => Ok(bytes@),
                        Err(e) => Err(e),
                    },
                ),
                _ => r == Err::<Vec<u8>, Error>(Error::UnsupportedArch),
            },
    {
        match self.machine(target) {
            Ok(_) => {},
            Err(e) => {
                return Err(e);
            },
        }
        match target.os {
            Os::Linux => Ok(elf::emit::emit(m)),
            Os::Darwin => macho::emit::emit(m, &target.arch),
            _ => Err(Error::UnsupportedArch),
        }
    }
}

/// The targets that are known to work.
pub fn list_targets() -> (targets: Vec<String>)
    ensures
        targets@.len() == 1,
        targets@[0]@ == "x86_64-unknown-linux"@,
{
    let mut targets: Vec<String> = Vec::new();
    targets.push("x86_64-unknown-linux".to_owned());
    targets
}

/// A module is written for every machine that code is generated for on these systems.
pub proof fn machines_have_files(m: ObjectModule, arch: ArchView, os: Os)
    requires
        machine_of(arch, os) matches Some(Ok(_)),
        os == Os::Linux || os == Os::Darwin,
    ensures
        file_of(m, arch, os) matches Some(Ok(_)),
{
}

} // verus!
