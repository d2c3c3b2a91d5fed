use vstd::prelude::*;

verus! {

/// A physical register of a machine. Registers that overlap share an index.
pub trait Register: Copy {
    /// A set of register indices.
    type RegisterBits: Copy;

    type Class: Copy;

    /// The index of the register in sets of registers.
    spec fn spec_index(self) -> u8;

    /// The number that stands for the register in instructions.
    spec fn spec_code(self) -> u32;

    /// The register that the number stands for.
    spec fn spec_of_code(code: u32) -> Option<Self> where Self: Sized;

    /// Whether the index is in the set.
    spec fn spec_has(bits: Self::RegisterBits, index: u8) -> bool;

    /// Whether sets of registers are kept at all.
    spec fn spec_tracked() -> bool;

    /// Whether a register of the class can be handed out under this index.
    spec fn spec_in_class(self, class: Self::Class) -> bool;

    /// The name of the register.
    spec fn spec_name(self) -> Seq<char>;

    fn no_bits() -> (bits: Self::RegisterBits)
        ensures
            forall|i: u8| !#[trigger] Self::spec_has(bits, i),
    ;

    fn to_str(self) -> (name: &'static str)
        ensures
            name@ == self.spec_name(),
    ;

    fn encode(self) -> (code: u32)
        ensures
            code == self.spec_code(),
    ;

    /// The register that a number stands for.
    fn decode(value: u32) -> (r: Self) where Self: Sized
        requires
            Self::spec_of_code(value) is Some,
        ensures
            Self::spec_of_code(value) == Some(r),
    ;

    fn bit_index(self) -> (index: u8)
        ensures
            index == self.spec_index(),
    ;

    /// The numbers of registers tell them apart.
    proof fn codes_are_unique(self)
        ensures
            Self::spec_of_code(self.spec_code()) == Some(self),
            self.spec_code() < 0x8000_0000 || !Self::spec_tracked(),
    ;

    fn get_bit(self, bits: &Self::RegisterBits) -> (set: bool)
        ensures
            set == Self::spec_has(*bits, self.spec_index()),
    ;

    fn set_bit(self, bits: &mut Self::RegisterBits, bit: bool)
        ensures
            Self::spec_tracked() ==> Self::spec_has(*final(bits), self.spec_index()) == bit,
            forall|i: u8|
                i != self.spec_index() ==> #[trigger] Self::spec_has(*final(bits), i)
                    == Self::spec_has(*old(bits), i),
    ;

    /// Finds the first register of the class, in the order of their numbers, whose index is in
    /// the set.
    fn allocate_reg(free_bits: Self::RegisterBits, class: Self::Class) -> (reg: Option<Self>)
        ensures
            match reg {
                Some(r) => {
                    &&& r.spec_in_class(class)
                    &&& Self::spec_has(free_bits, r.spec_index())
                    &&& forall|s: Self| #[trigger]
                        s.spec_in_class(class) && s.spec_code() < r.spec_code()
                            ==> !Self::spec_has(free_bits, s.spec_index())
                },
                None => forall|r: Self| #[trigger]
                    r.spec_in_class(class) ==> !Self::spec_has(free_bits, r.spec_index()),
            },
    ;
}

/// A register of a machine that nothing is known about.
#[derive(Clone, Copy, Debug, PartialEq, Eq, Hash, Structural)]
pub struct UnknownRegister(pub u32);

impl Register for UnknownRegister {
    type RegisterBits = u8;

    type Class = u8;

    /// The index keeps the low byte.
    open spec fn spec_index(self) -> u8 {
        (self.0 % 0x100) as u8
    }

    open spec fn spec_code(self) -> u32 {
        self.0
    }

    open spec fn spec_of_code(code: u32) -> Option<Self> {
        Some(UnknownRegister(code))
    }

    open spec fn spec_has(bits: u8, index: u8) -> bool {
        false
    }

    open spec fn spec_tracked() -> bool {
        false
    }

    open spec fn spec_in_class(self, class: u8) -> bool {
        false
    }

    open spec fn spec_name(self) -> Seq<char> {
        "unknown"@
    }

    fn no_bits() -> (bits: u8)
        ensures
            bits == 0,
    {
        0
    }

    fn to_str(self) -> &'static str {
        "unknown"
    }

    fn encode(self) -> u32 {
        self.0
    }

    fn decode(value: u32) -> Self {
        UnknownRegister(value)
    }

    proof fn codes_are_unique(self) {
    }

    fn bit_index(self) -> u8 {
        (self.0 % 0x100) as u8
    }

    fn get_bit(self, bits: &u8) -> bool {
        false
    }

    fn set_bit(self, bits: &mut u8, bit: bool)
        ensures
            *final(bits) == *old(bits),
    {
    }

    fn allocate_reg(free_bits: u8, class: u8) -> Option<Self> {
        None
    }
}

} // verus!
