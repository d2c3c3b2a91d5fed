//! What the passes of the backend share while they work on a function.
use vstd::prelude::*;

use crate::ir::ids::StackSlot;
use crate::ir::types::Layout;

verus! {

/// The stack frame of a function.
#[derive(Debug)]
pub struct BackendState {
    pub stack_size: u32,
    /// Places in the stack frame that are laid out in the end.
    pub stack_slots: Vec<Layout>,
}

/// The next multiple of the unit, or the value itself where it is one.
pub open spec fn rounded_up(value: int, unit: int) -> int {
    if value % unit == 0 {
        value
    } else {
        value + (unit - value % unit)
    }
}

/// Rounding up gives the least multiple that is not below.
pub proof fn rounding_up(value: int, unit: int)
    requires
        value >= 0,
        unit > 0,
    ensures
        rounded_up(value, unit) % unit == 0,
        value <= rounded_up(value, unit) < value + unit,
        forall|m: int| value <= m && #[trigger] (m % unit) == 0 ==> rounded_up(value, unit) <= m,
{
    let r = rounded_up(value, unit);
    let q = value / unit;
    let rest = value % unit;
    vstd::arithmetic::div_mod::lemma_fundamental_div_mod(value, unit);
    vstd::arithmetic::div_mod::lemma_mod_bound(value, unit);
    if rest != 0 {
        assert(r == (q + 1) * unit) by (nonlinear_arith)
            requires
                r == value + (unit - rest),
                value == unit * q + rest,
        ;
        vstd::arithmetic::div_mod::lemma_mod_multiples_basic(q + 1, unit);
        assert forall|m: int| value <= m && #[trigger] (m % unit) == 0 implies r <= m by {
            vstd::arithmetic::div_mod::lemma_fundamental_div_mod(m, unit);
            let n = m / unit;
            assert(n > q) by (nonlinear_arith)
                requires
                    m == unit * n,
                    value == unit * q + rest,
                    rest > 0,
                    unit > 0,
                    value <= m,
            ;
            assert((q + 1) * unit <= unit * n) by (nonlinear_arith)
                requires
                    q + 1 <= n,
                    unit > 0,
            ;
        }
    }
}

pub fn round_up_u32(value: u32, unit: u32) -> (r: u32)
    requires
        unit > 0,
        rounded_up(value as int, unit as int) <= u32::MAX,
    ensures
        r == rounded_up(value as int, unit as int),
{
    let rest: u32 = value % unit;
    if rest == 0 {
        value
    } else {
        value + (unit - rest)
    }
}

pub fn round_up_u64(value: u64, unit: u64) -> (r: u64)
    requires
        unit > 0,
        rounded_up(value as int, unit as int) <= u64::MAX,
    ensures
        r == rounded_up(value as int, unit as int),
{
    let rest: u64 = value % unit;
    if rest == 0 {
        value
    } else {
        value + (unit - rest)
    }
}

impl BackendState {
    pub fn new() -> (s: BackendState)
        ensures
            s.stack_size == 0,
            s.stack_slots@.len() == 0,
    {
        BackendState { stack_size: 0, stack_slots: Vec::new() }
    }

    /// creates a properly aligned stack index assuming the stack frame's total alignment is at least
    /// as large as the one from the Layout.
    /// Assumes a stack growing down, subtract layout.size if the stack should grow up.
    pub fn alloc_stack(&mut self, layout: Layout) -> (index: u32)
        requires
            0 < layout.align <= u32::MAX,
            rounded_up(old(self).stack_size + layout.size, layout.align as int) <= u32::MAX,
        ensures
            index == rounded_up(old(self).stack_size + layout.size, layout.align as int),
            index % (layout.align as u32) == 0,
            old(self).stack_size <= index - layout.size,
            final(self).stack_size == index,
            final(self).stack_slots == old(self).stack_slots,
    {
        proof {
            rounding_up(self.stack_size + layout.size, layout.align as int);
        }
        // the value lies below the base, so its far end is what has to be aligned
        self.stack_size = round_up_u32(
            self.stack_size + layout.size as u32,
            layout.align as u32,
        );
        self.stack_size
    }

    /// A place in the stack frame that is laid out in the end.
    pub fn new_stack_slot(&mut self, layout: Layout) -> (slot: StackSlot)
        requires
            old(self).stack_slots@.len() <= u32::MAX,
        ensures
            slot.0 == old(self).stack_slots@.len(),
            final(self).stack_slots@ == old(self).stack_slots@.push(layout),
            final(self).stack_size == old(self).stack_size,
    {
        let slot: StackSlot = StackSlot(self.stack_slots.len() as u32);
        self.stack_slots.push(layout);
        slot
    }
}

} // verus!
