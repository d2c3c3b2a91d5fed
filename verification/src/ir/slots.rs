//! The registers that hold the values of a function.
use vstd::prelude::*;

use crate::ir::function::{FunctionIr, FunctionView};
use crate::ir::ids::{Ref, TypeId};
use crate::ir::inst::MCReg;
use crate::ir::types::{Leaf, Primitive, TypeView, Types};

verus! {

/// Consecutive registers for each value, one or two for each primitive value in it.
#[derive(Debug)]
pub struct Slots {
    /// Where the registers of each value begin.
    pub slot_map: Vec<u32>,
    pub slots: Vec<MCReg>,
}

#[verifier::ext_equal]
pub struct SlotsView {
    pub map: Seq<u32>,
    pub slots: Seq<MCReg>,
}

impl View for Slots {
    type V = SlotsView;

    open spec fn view(&self) -> SlotsView {
        SlotsView { map: self.slot_map@, slots: self.slots@ }
    }
}

/// A primitive value inside a value, with the registers that hold it.
#[derive(Clone, Copy, Debug, PartialEq, Eq)]
pub struct Piece {
    pub primitive: Primitive,
    pub offset: u64,
    pub first: MCReg,
    pub second: Option<MCReg>,
}

/// How many registers the first `n` primitive values take.
pub open spec fn slots_before(leaves: Seq<Leaf>, n: int) -> int
    decreases n,
{
    if n <= 0 {
        0
    } else {
        slots_before(leaves, n - 1) + leaves[n - 1].primitive.slot_count()
    }
}

pub open spec fn slot_count(leaves: Seq<Leaf>) -> int {
    slots_before(leaves, leaves.len() as int)
}

pub proof fn lemma_slots_before(leaves: Seq<Leaf>, i: int, j: int)
    requires
        0 <= i <= j <= leaves.len(),
    ensures
        0 <= slots_before(leaves, i) <= slots_before(leaves, j) <= 2 * j,
        slots_before(leaves, j) <= slots_before(leaves, i) + 2 * (j - i),
    decreases j,
{
    if i < j {
        lemma_slots_before(leaves, i, j - 1);
    } else if i > 0 {
        lemma_slots_before(leaves, i - 1, j - 1);
    }
}

/// The primitive values inside values of a type.
pub open spec fn leaves_of(types: Seq<TypeView>, ty: TypeId) -> Seq<Leaf> {
    types[ty.0 as int].leaves
}

impl SlotsView {
    /// The value has as many registers.
    pub open spec fn holds(self, r: Ref, n: int) -> bool {
        &&& r.0 < self.map.len()
        &&& self.map[r.0 as int] + n <= self.slots.len()
    }

    pub open spec fn reg(self, r: Ref, k: int) -> MCReg {
        self.slots[self.map[r.0 as int] + k]
    }

    /// The first registers of a value.
    pub open spec fn regs(self, r: Ref, n: nat) -> Seq<MCReg> {
        Seq::new(n, |k: int| self.reg(r, k))
    }

    pub open spec fn piece(self, r: Ref, leaves: Seq<Leaf>, i: int) -> Piece {
        let k = slots_before(leaves, i);
        Piece {
            primitive: leaves[i].primitive,
            offset: leaves[i].offset,
            first: self.reg(r, k),
            second: if leaves[i].primitive.slot_count() == 2 {
                Some(self.reg(r, k + 1))
            } else {
                None
            },
        }
    }

    /// The primitive values inside a value, in their order.
    pub open spec fn pieces(self, r: Ref, leaves: Seq<Leaf>) -> Seq<Piece> {
        Seq::new(leaves.len(), |i: int| self.piece(r, leaves, i))
    }
}

impl Slots {
    /// The only register of a value.
    pub fn get_one(&self, r: Ref) -> (reg: MCReg)
        requires
            self@.holds(r, 1),
        ensures
            reg == self@.reg(r, 0),
    {
        self.slots[self.slot_map[r.idx()] as usize]
    }

    pub fn get(&self, r: Ref, n: u32) -> (regs: Vec<MCReg>)
        requires
            self@.holds(r, n as int),
        ensures
            regs@ == self@.regs(r, n as nat),
    {
        let start: usize = self.slot_map[r.idx()] as usize;
        let len: usize = self.slots.len();
        let mut regs: Vec<MCReg> = Vec::new();
        let mut k: u32 = 0;
        while k < n
            invariant
                k <= n,
                len == self.slots@.len(),
                self@.holds(r, n as int),
                start == self@.map[r.0 as int],
                regs@ =~= self@.regs(r, k as nat),
            decreases n - k,
        {
            regs.push(self.slots[start + k as usize]);
            k += 1;
        }
        regs
    }

    /// All registers of a value.
    pub fn get_all(&self, r: Ref, leaves: &Vec<Leaf>) -> (regs: Vec<MCReg>)
        requires
            self@.holds(r, slot_count(leaves@)),
        ensures
            regs@ == self@.regs(r, slot_count(leaves@) as nat),
    {
        let pieces: Vec<Piece> = self.pieces(r, leaves);
        let mut regs: Vec<MCReg> = Vec::new();
        let mut i: usize = 0;
        while i < pieces.len()
            invariant
                i <= pieces@.len(),
                pieces@ == self@.pieces(r, leaves@),
                regs@ =~= self@.regs(r, slots_before(leaves@, i as int) as nat),
            decreases pieces.len() - i,
        {
            proof {
                lemma_slots_before(leaves@, 0, i as int);
            }
            regs.push(pieces[i].first);
            if let Some(second) = pieces[i].second {
                regs.push(second);
            }
            i += 1;
        }
        regs
    }

    /// The primitive values inside a value with the registers that hold them.
    pub fn pieces(&self, r: Ref, leaves: &Vec<Leaf>) -> (pieces: Vec<Piece>)
        requires
            self@.holds(r, slot_count(leaves@)),
        ensures
            pieces@ == self@.pieces(r, leaves@),
    {
        let mut at: usize = self.slot_map[r.idx()] as usize;
        let len: usize = self.slots.len();
        let mut pieces: Vec<Piece> = Vec::new();
        let mut i: usize = 0;
        while i < leaves.len()
            invariant
                i <= leaves@.len(),
                len == self.slots@.len(),
                self@.holds(r, slot_count(leaves@)),
                at == self@.map[r.0 as int] + slots_before(leaves@, i as int),
                pieces@ =~= self@.pieces(r, leaves@).take(i as int),
            decreases leaves.len() - i,
        {
            proof {
                lemma_slots_before(leaves@, i + 1, leaves@.len() as int);
                lemma_slots_before(leaves@, 0, i as int);
            }
            let leaf: Leaf = leaves[i];
            let n: u32 = leaf.primitive.slot_count();
            let second: Option<MCReg> = if n == 2 {
                Some(self.slots[at + 1])
            } else {
                None
            };
            pieces.push(
                Piece {
                    primitive: leaf.primitive,
                    offset: leaf.offset,
                    first: self.slots[at],
                    second,
                },
            );
            at += n as usize;
            i += 1;
        }
        assert(pieces@ =~= self@.pieces(r, leaves@));
        pieces
    }
}

/// How many registers the first `n` instructions take.
pub open spec fn slots_of(f: FunctionView, types: Seq<TypeView>, n: int) -> int
    decreases n,
{
    if n <= 0 {
        0
    } else {
        slots_of(f, types, n - 1) + slot_count(leaves_of(types, f.insts[n - 1].ty))
    }
}

proof fn lemma_slots_of(f: FunctionView, types: Seq<TypeView>, n: int, m: int)
    requires
        0 <= n <= m <= f.insts.len(),
    ensures
        0 <= slots_of(f, types, n) <= slots_of(f, types, m),
    decreases m,
{
    if m > 0 {
        let leaves = leaves_of(types, f.insts[m - 1].ty);
        lemma_slots_before(leaves, 0, leaves.len() as int);
        if n < m {
            lemma_slots_of(f, types, n, m - 1);
        } else {
            lemma_slots_of(f, types, n - 1, m - 1);
        }
    }
}

/// The types of all instructions are known.
pub open spec fn types_known(f: FunctionView, types: Seq<TypeView>) -> bool {
    forall|i: int| 0 <= i < f.insts.len() ==> (#[trigger] f.insts[i]).ty.0 < types.len()
}

/// The registers of each value follow those of the one before.
pub open spec fn in_order(s: SlotsView, f: FunctionView, types: Seq<TypeView>) -> bool {
    &&& s.map.len() == f.insts.len()
    &&& s.slots.len() == slots_of(f, types, f.insts.len() as int)
    &&& forall|i: int| 0 <= i < f.insts.len() ==> #[trigger] s.map[i] == slots_of(f, types, i)
}

/// Every value has registers for what it holds.
pub proof fn lemma_holds(s: SlotsView, f: FunctionView, types: Seq<TypeView>, r: Ref)
    requires
        in_order(s, f, types),
        r.0 < f.insts.len(),
    ensures
        s.holds(r, slot_count(leaves_of(types, f.insts[r.0 as int].ty))),
        s.map[r.0 as int] >= 0,
{
    lemma_slots_of(f, types, r.0 + 1, f.insts.len() as int);
    lemma_slots_of(f, types, r.0 as int, f.insts.len() as int);
}

/// Every value has registers for what it holds, and no two values share one.
pub proof fn values_have_their_registers(
    s: SlotsView,
    f: FunctionView,
    types: Seq<TypeView>,
    r: Ref,
    q: Ref,
)
    requires
        in_order(s, f, types),
        r.0 < q.0 < f.insts.len(),
    ensures
        s.holds(r, slot_count(leaves_of(types, f.insts[r.0 as int].ty))),
        s.holds(q, slot_count(leaves_of(types, f.insts[q.0 as int].ty))),
        s.map[r.0 as int] + slot_count(leaves_of(types, f.insts[r.0 as int].ty))
            <= s.map[q.0 as int],
{
    lemma_slots_of(f, types, r.0 + 1, q.0 as int);
    lemma_slots_of(f, types, r.0 + 1, f.insts.len() as int);
    lemma_slots_of(f, types, q.0 + 1, f.insts.len() as int);
}

impl Slots {
    /// Registers for all values of a function, all the same at first.
    pub fn with_default(f: &FunctionIr, types: &Types, default: MCReg) -> (s: Slots)
        requires
            types_known(f@, types@),
            slots_of(f@, types@, f@.insts.len() as int) <= u32::MAX,
        ensures
            in_order(s@, f@, types@),
            forall|i: int| 0 <= i < s@.slots.len() ==> s@.slots[i] == default,
    {
        let mut slot_map: Vec<u32> = Vec::new();
        let mut slots: Vec<MCReg> = Vec::new();
        let mut i: usize = 0;
        while i < f.insts.len()
            invariant
                i <= f@.insts.len(),
                types_known(f@, types@),
                slots_of(f@, types@, f@.insts.len() as int) <= u32::MAX,
                slot_map@.len() == i,
                slots@.len() == slots_of(f@, types@, i as int),
                forall|k: int|
                    0 <= k < i ==> #[trigger] slot_map@[k] == slots_of(f@, types@, k),
                forall|k: int| 0 <= k < slots@.len() ==> slots@[k] == default,
            decreases f.insts.len() - i,
        {
            let ghost n = slots_of(f@, types@, i as int);
            proof {
                lemma_slots_of(f@, types@, i as int, f@.insts.len() as int);
                lemma_slots_of(f@, types@, i + 1, f@.insts.len() as int);
            }
            slot_map.push(slots.len() as u32);
            let ty: TypeId = f.insts[i].ty;
            assert(f@.insts[i as int].ty.0 < types@.len());
            let leaves: &Vec<Leaf> = &types.types[ty.0 as usize].leaves;
            assert(leaves@ == leaves_of(types@, ty));
            let mut j: usize = 0;
            while j < leaves.len()
                invariant
                    j <= leaves@.len(),
                    n >= 0,
                    slots@.len() == n + slots_before(leaves@, j as int),
                    forall|k: int| 0 <= k < slots@.len() ==> slots@[k] == default,
                decreases leaves.len() - j,
            {
                slots.push(default);
                if leaves[j].primitive.slot_count() == 2 {
                    slots.push(default);
                }
                j += 1;
            }
            i += 1;
        }
        Slots { slot_map, slots }
    }
}

} // verus!
