//! Which values of a type a list of patterns has covered so far.
use vstd::prelude::*;

use crate::compiler::types::{IntType, InvalidTypeError};

verus! {

/// An integer literal of a pattern: its magnitude, and whether it is negative.
#[derive(Clone, Copy, Debug, PartialEq, Eq, Structural)]
pub struct SignedInt(pub u128, pub bool);

impl SignedInt {
    pub open spec fn value(self) -> int {
        if self.1 {
            -(self.0 as int)
        } else {
            self.0 as int
        }
    }
}

/// The integers from `start` to `end`, both included.
#[derive(Clone, Copy, Debug, PartialEq, Eq, Structural)]
pub struct Range {
    pub start: u128,
    pub end: u128,
}

impl Range {
    pub open spec fn has(self, v: int) -> bool {
        self.start <= v <= self.end
    }

    pub fn new(start: u128, end: u128) -> (r: Self)
        ensures
            r.start == start,
            r.end == end,
    {
        Self { start, end }
    }
}

/// Some range of the list contains `v`.
pub open spec fn covers(ranges: Seq<Range>, v: int) -> bool {
    exists|i: int| 0 <= i < ranges.len() && (#[trigger] ranges[i]).has(v)
}

/// The ranges are not empty, in order, and neither overlap nor touch.
pub open spec fn normalized(ranges: Seq<Range>) -> bool {
    &&& forall|i: int| 0 <= i < ranges.len() ==> (#[trigger] ranges[i]).start <= ranges[i].end
    &&& forall|i: int, j: int|
        0 <= i < j < ranges.len() ==> (#[trigger] ranges[i]).end + 1 < (#[trigger] ranges[j]).start
}

/// The ranges overlap or one begins right behind the other.
pub open spec fn touching(a: Range, b: Range) -> bool {
    a.start <= b.end + 1 && b.start <= a.end + 1
}

/// The range that holds both ranges and nothing else, if they overlap or touch.
pub open spec fn merged(a: Range, b: Range) -> Option<Range> {
    if touching(a, b) {
        Some(
            Range {
                start: if a.start < b.start {
                    a.start
                } else {
                    b.start
                },
                end: if a.end < b.end {
                    b.end
                } else {
                    a.end
                },
            },
        )
    } else {
        None
    }
}

/// Which of two ranges comes first does not matter to their merging. They merge where nothing
/// lies between them, and then into just what either holds.
pub proof fn merging_is_symmetric(a: Range, b: Range)
    requires
        a.start <= a.end,
        b.start <= b.end,
    ensures
        merged(a, b) == merged(b, a),
        merged(a, b) is Some <==> !exists|v: int| #[trigger] lies_between(a, b, v),
        merged(a, b) matches Some(m) ==> m.start <= m.end && forall|v: int| #[trigger]
            m.has(v) <==> a.has(v) || b.has(v),
{
    if !touching(a, b) {
        let v = if a.end < b.start {
            a.end + 1
        } else {
            b.end + 1
        };
        assert(lies_between(a, b, v));
    }
}

/// One range ends below the integer and the other one begins above it.
pub open spec fn lies_between(a: Range, b: Range, v: int) -> bool {
    a.end < v < b.start || b.end < v < a.start
}

/// Merges two ranges that overlap or touch.
pub fn merge_ranges(a: Range, b: Range) -> (m: Option<Range>)
    requires
        a.start <= a.end,
        b.start <= b.end,
    ensures
        m == merged(a, b),
{
    let end: u128 = if a.end < b.end { b.end } else { a.end };
    if a.start < b.start {
        if a.end < b.start.saturating_sub(1) {
            None
        } else {
            Some(Range::new(a.start, end))
        }
    } else if b.end < a.start.saturating_sub(1) {
        None
    } else {
        Some(Range::new(b.start, end))
    }
}

/// A normalized list is determined by what it covers.
pub proof fn normalized_lists_are_unique(a: Seq<Range>, b: Seq<Range>)
    requires
        normalized(a),
        normalized(b),
        forall|v: int| covers(a, v) <==> covers(b, v),
    ensures
        a =~= b,
    decreases a.len(),
{
    if a.len() == 0 {
        if b.len() > 0 {
            assert(b[0].has(b[0].start as int));
            assert(covers(b, b[0].start as int));
            assert(covers(a, b[0].start as int));
        }
    } else {
        assert(a[0].has(a[0].start as int));
        assert(covers(a, a[0].start as int));
        assert(covers(b, a[0].start as int));
        assert(b.len() > 0);
        assert(b[0].has(b[0].start as int));
        assert(covers(b, b[0].start as int));
        assert(covers(a, b[0].start as int));
        assert(a[0].start == b[0].start);
        assert(a[0].has(a[0].end as int));
        assert(covers(a, a[0].end as int));
        assert(covers(b, a[0].end as int));
        assert(b[0].has(b[0].end as int));
        assert(covers(b, b[0].end as int));
        assert(covers(a, b[0].end as int));
        if a[0].end < b[0].end {
            assert(b[0].has(a[0].end + 1));
            assert(covers(b, a[0].end + 1));
            assert(covers(a, a[0].end + 1));
            assert(false);
        }
        if b[0].end < a[0].end {
            assert(a[0].has(b[0].end + 1));
            assert(covers(a, b[0].end + 1));
            assert(covers(b, b[0].end + 1));
            assert(false);
        }
        let ra = a.skip(1);
        let rb = b.skip(1);
        assert forall|v: int| covers(ra, v) <==> covers(rb, v) by {
            lemma_covers_skip(a, v);
            lemma_covers_skip(b, v);
        }
        normalized_lists_are_unique(ra, rb);
        assert(a =~= seq![a[0]] + ra);
        assert(b =~= seq![b[0]] + rb);
    }
}

proof fn lemma_covers_skip(a: Seq<Range>, v: int)
    requires
        normalized(a),
        a.len() > 0,
    ensures
        normalized(a.skip(1)),
        covers(a.skip(1), v) <==> covers(a, v) && !a[0].has(v),
{
    let r = a.skip(1);
    assert(forall|i: int| 0 <= i < r.len() ==> #[trigger] r[i] == a[i + 1]);
    if covers(r, v) {
        let i = choose|i: int| 0 <= i < r.len() && (#[trigger] r[i]).has(v);
        assert(a[i + 1].has(v));
        assert(a[0].end + 1 < a[i + 1].start);
    }
    if covers(a, v) && !a[0].has(v) {
        let i = choose|i: int| 0 <= i < a.len() && (#[trigger] a[i]).has(v);
        assert(r[i - 1] == a[i]);
    }
}

/// The part of `exhaust` behind the search: `ranges[i..]` holds what can touch
/// the new range, `ranges[..i]` lies before it.
fn insert_merged(ranges: &mut Vec<Range>, i: usize, new: Range)
    requires
        normalized(old(ranges)@),
        i <= old(ranges)@.len(),
        new.start <= new.end,
        forall|j: int| 0 <= j < i ==> (#[trigger] old(ranges)@[j]).end + 1 < new.start,
        i < old(ranges)@.len() ==> old(ranges)@[i as int].end + 1 >= new.start,
    ensures
        normalized(final(ranges)@),
        forall|v: int| covers(final(ranges)@, v) <==> covers(old(ranges)@, v) || new.has(v),
{
    let ghost before = ranges@;
    let mut merged: Range = new;
    while i < ranges.len()
        invariant
            i <= ranges@.len(),
            i <= before.len(),
            ranges@.len() <= before.len(),
            normalized(before),
            new.start <= new.end,
            ranges@.take(i as int) =~= before.take(i as int),
            ranges@.skip(i as int) =~= before.skip(i + before.len() - ranges@.len()),
            forall|j: int| 0 <= j < i ==> (#[trigger] before[j]).end + 1 < new.start,
            i < before.len() ==> before[i as int].end + 1 >= new.start,
            merged.start <= merged.end,
            merged.start <= new.start,
            forall|j: int| 0 <= j < i ==> (#[trigger] before[j]).end + 1 < merged.start,
            before.len() == ranges@.len() ==> merged == new,
            forall|v: int|
                merged.has(v) <==> new.has(v) || exists|k: int|
                    i <= k < i + before.len() - ranges@.len() && (#[trigger] before[k]).has(v),
        ensures
            i <= ranges@.len(),
            i < ranges@.len() ==> merged.end + 1 < ranges@[i as int].start,
        decreases ranges.len() - i,
    {
        let ghost d = before.len() - ranges@.len();
        assert(ranges@[i as int] == ranges@.skip(i as int)[0]);
        assert(ranges@[i as int] == before[i + d]);
        let next: Range = ranges[i];
        proof {
            if d > 0 {
                assert(before[i + d - 1].has(before[i + d - 1].end as int));
                assert(merged.has(before[i + d - 1].end as int));
                assert(before[i + d - 1].end + 1 < before[i + d].start);
            }
            assert(merged.start <= next.end + 1);
        }
        match merge_ranges(merged, next) {
            Some(m) => {
                let ghost old_ranges = ranges@;
                let ghost old_merged = merged;
                ranges.remove(i);
                merged = m;
                proof {
                    assert forall|k: int| i <= k < ranges@.len() implies #[trigger] ranges@[k]
                        == before[k + d + 1] by {
                        assert(ranges@[k] == old_ranges[k + 1]);
                        assert(old_ranges.skip(i as int)[k + 1 - i] == before.skip(i + d)[k + 1 - i]);
                    }
                    assert(ranges@.skip(i as int) =~= before.skip(i + d + 1));
                    assert forall|v: int| m.has(v) <==> new.has(v) || exists|k: int|
                        i <= k < i + d + 1 && (#[trigger] before[k]).has(v) by {
                        assert(m.has(v) <==> old_merged.has(v) || next.has(v));
                        if old_merged.has(v) && !new.has(v) {
                            let k = choose|k: int|
                                i <= k < i + d && (#[trigger] before[k]).has(v);
                            assert(before[k].has(v));
                        }
                        if next.has(v) {
                            assert(before[i + d].has(v));
                        }
                        if exists|k: int| i <= k < i + d + 1 && (#[trigger] before[k]).has(v) {
                            let k = choose|k: int|
                                i <= k < i + d + 1 && (#[trigger] before[k]).has(v);
                            if k < i + d {
                                assert(old_merged.has(v));
                            }
                        }
                    }
                }
            },
            None => {
                break;
            },
        }
    }
    let ghost d = before.len() - ranges@.len();
    let ghost rest = ranges@;
    ranges.insert(i, merged);
    proof {
        assert(forall|j: int| 0 <= j < i ==> #[trigger] ranges@[j] == before[j]) by {
            assert forall|j: int| 0 <= j < i implies #[trigger] ranges@[j] == before[j] by {
                assert(rest.take(i as int)[j] == before.take(i as int)[j]);
            }
        }
        assert forall|j: int| i < j < ranges@.len() implies #[trigger] ranges@[j] == before[j - 1 + d] by {
            assert(rest.skip(i as int)[j - 1 - i] == before.skip(i + d)[j - 1 - i]);
        }
        assert(normalized(ranges@)) by {
            if i + 1 < ranges@.len() {
                assert(ranges@[i + 1] == rest[i as int]);
            }
            assert forall|j: int, k: int| 0 <= j < k < ranges@.len() implies (
            #[trigger] ranges@[j]).end + 1 < (#[trigger] ranges@[k]).start by {
                if k > i && j <= i {
                    if k > i + 1 {
                        assert(ranges@[i + 1].end + 1 < ranges@[k].start);
                    }
                    assert(ranges@[i as int].end + 1 < ranges@[k].start);
                }
            }
        }
        assert forall|v: int| covers(ranges@, v) <==> covers(before, v) || new.has(v) by {
            if covers(ranges@, v) {
                let j = choose|j: int| 0 <= j < ranges@.len() && (#[trigger] ranges@[j]).has(v);
                if j < i {
                    assert(before[j].has(v));
                } else if j > i {
                    assert(before[j - 1 + d].has(v));
                }
            }
            if covers(before, v) {
                let j = choose|j: int| 0 <= j < before.len() && (#[trigger] before[j]).has(v);
                if j < i {
                    assert(ranges@[j].has(v));
                } else if j < i + d {
                    assert(merged.has(v));
                    assert(ranges@[i as int].has(v));
                } else {
                    assert(ranges@[j + 1 - d].has(v));
                }
            }
            if new.has(v) {
                assert(ranges@[i as int].has(v));
            }
        }
    }
}

/// Adds the integers from `start` to `end` to a normalized list. Returns
/// whether the list lacked one of them.
fn exhaust(ranges: &mut Vec<Range>, start: u128, end: u128) -> (new_values: bool)
    requires
        normalized(old(ranges)@),
    ensures
        normalized(final(ranges)@),
        forall|v: int| covers(final(ranges)@, v) <==> covers(old(ranges)@, v) || start <= v <= end,
        new_values <==> exists|v: int| start <= v <= end && !covers(old(ranges)@, v),
{
    if start > end {
        return false;
    }
    let ghost before = ranges@;
    let mut i: usize = 0;
    while i < ranges.len() && ranges[i].end < start.saturating_sub(1)
        invariant
            i <= ranges@.len(),
            ranges@ == before,
            forall|j: int| 0 <= j < i ==> (#[trigger] before[j]).end + 1 < start,
        decreases ranges.len() - i,
    {
        i += 1;
    }
    assert(i > 0 ==> before[i - 1].end + 1 < start);
    if i < ranges.len() && ranges[i].start <= start && end <= ranges[i].end {
        assert forall|v: int| start <= v <= end implies covers(before, v) by {
            assert(before[i as int].has(v));
        }
        return false;
    }
    assert(exists|v: int| start <= v <= end && !covers(before, v)) by {
        let w: int = if i < before.len() && before[i as int].start <= start && start <= before[i as int].end {
            before[i as int].end + 1
        } else {
            start as int
        };
        assert(start <= w <= end);
        if covers(before, w) {
            let j = choose|j: int| 0 <= j < before.len() && (#[trigger] before[j]).has(w);
            if j < i {
                assert(before[j].end + 1 < start);
            } else if j > i {
                assert(before[i as int].end + 1 < before[j].start);
            }
            assert(false);
        }
    }
    let new: Range = Range::new(start, end);
    insert_merged(ranges, i, new);
    proof {
        assert(before == old(ranges)@);
        assert forall|v: int| #![trigger covers(ranges@, v)]
            covers(ranges@, v) <==> covers(before, v) || start <= v <= end by {
            assert(new.has(v) <==> start <= v <= end);
        }
    }
    true
}

/// The value `v` is covered by the magnitudes of negative values or by the others.
pub open spec fn covers_signed(neg: Seq<Range>, pos: Seq<Range>, v: int) -> bool {
    covers(pos, v) || covers(neg, -v)
}

/// The magnitudes of the values from `start` to `end` that are listed as negative ones: a
/// range that begins below 0 counts 0 among them, if it gets so far.
pub open spec fn is_negative_part(start: int, end: int, m: int) -> bool {
    start < 0 && 0 <= m && start <= -m <= end
}

pub open spec fn is_positive_part(start: int, end: int, m: int) -> bool {
    0 <= m && start <= m <= end
}

/// Adds the integers from the negative `start` to `end`. Returns whether one
/// of them was not covered.
fn exhaust_signed(
    neg: &mut Vec<Range>,
    pos: &mut Vec<Range>,
    start: SignedInt,
    end: SignedInt,
) -> (new_values: bool)
    requires
        normalized(old(neg)@),
        normalized(old(pos)@),
        covers(old(neg)@, 0) ==> covers(old(pos)@, 0),
        start.value() < 0,
        end.1 ==> end.value() < 0,
    ensures
        normalized(final(neg)@),
        normalized(final(pos)@),
        covers(final(neg)@, 0) ==> covers(final(pos)@, 0),
        forall|v: int|
            covers_signed(final(neg)@, final(pos)@, v) <==> covers_signed(old(neg)@, old(pos)@, v)
                || start.value() <= v <= end.value(),
        new_values <==> exists|v: int|
            start.value() <= v <= end.value() && !covers_signed(old(neg)@, old(pos)@, v),
        forall|m: int| #[trigger]
            covers(final(neg)@, m) <==> covers(old(neg)@, m) || is_negative_part(
                start.value(),
                end.value(),
                m,
            ),
        forall|m: int| #[trigger]
            covers(final(pos)@, m) <==> covers(old(pos)@, m) || is_positive_part(
                start.value(),
                end.value(),
                m,
            ),
{
    let ghost neg0 = neg@;
    let ghost pos0 = pos@;
    proof {
        assert forall|v: int| v < 0 implies !covers(pos0, v) && !covers(neg0, v) by {}
    }
    let neg_end: u128 = if end.1 { end.0 } else { 1 };
    let new_neg = exhaust(neg, neg_end, start.0);
    let mut new_pos = false;
    if !end.1 {
        exhaust(neg, 0, 0);
        new_pos = exhaust(pos, 0, end.0);
    }
    proof {
        if new_neg {
            let m = choose|m: int| neg_end <= m <= start.0 && !covers(neg0, m);
            assert(!covers_signed(neg0, pos0, -m));
        }
        if new_pos {
            let v = choose|v: int| 0 <= v <= end.0 && !covers(pos0, v);
            assert(!covers_signed(neg0, pos0, v));
        }
        if exists|v: int|
            start.value() <= v <= end.value() && !covers_signed(neg0, pos0, v) {
            let v = choose|v: int|
                start.value() <= v <= end.value() && !covers_signed(neg0, pos0, v);
            if v < 0 {
                assert(neg_end <= -v <= start.0 && !covers(neg0, -v));
            } else {
                assert(0 <= v <= end.0 && !covers(pos0, v));
            }
        }
    }
    new_neg || new_pos
}

/// What the patterns seen so far cover.
///
/// The arguments of a variant and the members of a tuple are tracked one by one, not in
/// combination.
#[derive(Debug, PartialEq, Eq)]
pub enum Exhaustion {
    /// no values exhausted
    Empty,
    /// all values exhausted
    Full,
    UnsignedInt(Vec<Range>),
    SignedInt {
        /// magnitudes of negative values; 0 stands for the value 0
        neg: Vec<Range>,
        pos: Vec<Range>,
    },
    Bool { true_: bool, false_: bool },
    Enum(Vec<EnumCase>),
    Tuple(Vec<Exhaustion>),
    Invalid,
}

/// What is covered of the arguments of one enum variant.
#[derive(Debug, PartialEq, Eq)]
pub struct EnumCase {
    pub name: String,
    pub args: Vec<Exhaustion>,
}

impl Default for Exhaustion {
    fn default() -> (e: Self)
        ensures
            e == Exhaustion::Empty,
    {
        Exhaustion::Empty
    }
}

/// No two cases carry the same name.
pub open spec fn distinct_names(cases: Seq<EnumCase>) -> bool {
    forall|i: int, j: int|
        0 <= i < j < cases.len() ==> (#[trigger] cases[i]).name@ != (#[trigger] cases[j]).name@
}

impl Exhaustion {
    /// The lists of ranges are normalized and variants are listed once.
    pub open spec fn well_formed(self) -> bool
        decreases self,
    {
        match self {
            Exhaustion::UnsignedInt(ranges) => normalized(ranges@),
            Exhaustion::SignedInt { neg, pos } => {
                &&& normalized(neg@)
                &&& normalized(pos@)
                &&& covers(neg@, 0) ==> covers(pos@, 0)
            },
            Exhaustion::Enum(cases) => {
                &&& distinct_names(cases@)
                &&& forall|i: int, j: int|
                    0 <= i < cases@.len() && 0 <= j < cases@[i].args@.len()
                        ==> (#[trigger] cases@[i].args@[j]).well_formed()
            },
            Exhaustion::Tuple(members) => forall|i: int|
                0 <= i < members@.len() ==> (#[trigger] members@[i]).well_formed(),
            _ => true,
        }
    }

    /// The integer `v` is covered.
    pub open spec fn covers_int(self, v: int) -> bool {
        match self {
            Exhaustion::Full => true,
            Exhaustion::UnsignedInt(ranges) => covers(ranges@, v),
            Exhaustion::SignedInt { neg, pos } => covers_signed(neg@, pos@, v),
            _ => false,
        }
    }

    /// The ranges of magnitudes of negative values.
    pub open spec fn negatives(self) -> Seq<Range> {
        match self {
            Exhaustion::SignedInt { neg, pos } => neg@,
            _ => Seq::empty(),
        }
    }

    pub open spec fn positives(self) -> Seq<Range> {
        match self {
            Exhaustion::UnsignedInt(ranges) => ranges@,
            Exhaustion::SignedInt { neg, pos } => pos@,
            _ => Seq::empty(),
        }
    }

    /// The integers from `start` to `end` were added. Signs are told apart from the first
    /// negative value on.
    pub open spec fn with_range(self, start: int, end: int, after: Exhaustion) -> bool {
        &&& if self is SignedInt || start < 0 {
            after is SignedInt
        } else {
            after is UnsignedInt
        }
        &&& forall|m: int| #[trigger]
            covers(after.negatives(), m) <==> covers(self.negatives(), m) || is_negative_part(
                start,
                end,
                m,
            )
        &&& forall|m: int| #[trigger]
            covers(after.positives(), m) <==> covers(self.positives(), m) || is_positive_part(
                start,
                end,
                m,
            )
    }

    /// Integer patterns can be added to this.
    pub open spec fn accepts_int(self) -> bool {
        self is Empty || self is UnsignedInt || self is SignedInt || self is Full
    }

    pub fn is_trivially_exhausted(&self) -> (trivial: bool)
        ensures
            trivial <==> *self is Full || (*self matches Exhaustion::Bool { true_, false_ } && true_
                && false_),
    {
        match self {
            Exhaustion::Full => true,
            Exhaustion::Bool { true_, false_ } => *true_ && *false_,
            _ => false,
        }
    }

    pub fn exhaust_full(&mut self)
        ensures
            *final(self) == Exhaustion::Full,
    {
        *self = Exhaustion::Full;
    }

    /// exhaust an integer value and return true if it wasn't covered yet
    pub fn exhaust_int(&mut self, x: SignedInt) -> (new_value: bool)
        requires
            old(self).well_formed(),
        ensures
            final(self).well_formed(),
            old(self).accepts_int() ==> {
                &&& final(self).accepts_int()
                &&& forall|v: int|
                    final(self).covers_int(v) <==> old(self).covers_int(v) || v == x.value()
                &&& new_value == !old(self).covers_int(x.value())
            },
            !old(self).accepts_int() ==> *final(self) == Exhaustion::Invalid && !new_value,
            *old(self) is Full ==> *final(self) is Full,
            old(self).accepts_int() && !(*old(self) is Full) ==> old(self).with_range(
                x.value(),
                x.value(),
                *final(self),
            ),
    {
        self.exhaust_int_range(x, x)
    }

    /// exhaust an integer range and return true if it wasn't fully covered yet
    pub fn exhaust_int_range(&mut self, start: SignedInt, end: SignedInt) -> (new_values: bool)
        requires
            old(self).well_formed(),
            start.value() >= 0 ==> end.value() >= 0,
        ensures
            final(self).well_formed(),
            old(self).accepts_int() ==> {
                &&& final(self).accepts_int()
                &&& forall|v: int|
                    final(self).covers_int(v) <==> old(self).covers_int(v) || start.value() <= v
                        <= end.value()
                &&& new_values <==> exists|v: int|
                    start.value() <= v <= end.value() && !old(self).covers_int(v)
            },
            !old(self).accepts_int() ==> *final(self) == Exhaustion::Invalid && !new_values,
            *old(self) is Full ==> *final(self) is Full,
            old(self).accepts_int() && !(*old(self) is Full) ==> old(self).with_range(
                start.value(),
                end.value(),
                *final(self),
            ),
    {
        let mut start: SignedInt = start;
        let mut end: SignedInt = end;
        if start.1 && start.0 == 0 {
            start = SignedInt(0, false);
        }
        if end.1 && end.0 == 0 {
            end = SignedInt(0, false);
        }
        let ghost before = *self;
        let ghost (neg0, pos0) = match before {
            Exhaustion::UnsignedInt(ranges) => (Seq::<Range>::empty(), ranges@),
            Exhaustion::SignedInt { neg, pos } => (neg@, pos@),
            _ => (Seq::<Range>::empty(), Seq::<Range>::empty()),
        };
        let new_values = match self {
            Exhaustion::Empty => {
                let mut pos: Vec<Range> = Vec::new();
                if start.1 {
                    let mut neg: Vec<Range> = Vec::new();
                    let new_values = exhaust_signed(&mut neg, &mut pos, start, end);
                    *self = Exhaustion::SignedInt { neg, pos };
                    new_values
                } else {
                    let new_values = exhaust(&mut pos, start.0, end.0);
                    *self = Exhaustion::UnsignedInt(pos);
                    new_values
                }
            },
            Exhaustion::UnsignedInt(ranges) => {
                if start.1 {
                    let mut neg: Vec<Range> = Vec::new();
                    let mut pos: Vec<Range> = Vec::new();
                    pos.append(ranges);
                    let new_values = exhaust_signed(&mut neg, &mut pos, start, end);
                    *self = Exhaustion::SignedInt { neg, pos };
                    new_values
                } else {
                    exhaust(ranges, start.0, end.0)
                }
            },
            Exhaustion::SignedInt { neg, pos } => {
                if start.1 {
                    exhaust_signed(neg, pos, start, end)
                } else {
                    exhaust(pos, start.0, end.0)
                }
            },
            Exhaustion::Full => false,
            _ => {
                *self = Exhaustion::Invalid;
                false
            },
        };
        proof {
            if before.accepts_int() && !(before is Full) {
                assert forall|v: int| before.covers_int(v) <==> covers_signed(neg0, pos0, v) by {}
                if !start.1 {
                    assert forall|v: int| start.value() <= v implies covers(pos0, v)
                        == before.covers_int(v) by {}
                    if new_values {
                        let v = choose|v: int| start.0 <= v <= end.0 && !covers(pos0, v);
                        assert(!before.covers_int(v));
                    }
                    if exists|v: int|
                        start.value() <= v <= end.value() && !before.covers_int(v) {
                        let v = choose|v: int|
                            start.value() <= v <= end.value() && !before.covers_int(v);
                        assert(!covers(pos0, v));
                    }
                } else {
                    if new_values {
                        let v = choose|v: int|
                            start.value() <= v <= end.value() && !covers_signed(neg0, pos0, v);
                        assert(!before.covers_int(v));
                    }
                    if exists|v: int|
                        start.value() <= v <= end.value() && !before.covers_int(v) {
                        let v = choose|v: int|
                            start.value() <= v <= end.value() && !before.covers_int(v);
                        assert(!covers_signed(neg0, pos0, v));
                    }
                }
            }
        }
        new_values
    }

    /// What a boolean pattern does to what is covered.
    pub open spec fn with_bool(self, b: bool) -> Exhaustion {
        match self {
            Exhaustion::Empty => Exhaustion::Bool { true_: b, false_: !b },
            Exhaustion::Bool { true_, false_ } => Exhaustion::Bool {
                true_: true_ || b,
                false_: false_ || !b,
            },
            Exhaustion::Full => Exhaustion::Full,
            _ => Exhaustion::Invalid,
        }
    }

    /// Covers a boolean. The result is true for the first pattern of all and
    /// for a value that had been covered before.
    pub fn exhaust_bool(&mut self, b: bool) -> (r: bool)
        ensures
            *final(self) == old(self).with_bool(b),
            r == match *old(self) {
                Exhaustion::Empty => true,
                Exhaustion::Bool { true_, false_ } => if b {
                    true_
                } else {
                    false_
                },
                _ => false,
            },
    {
        match self {
            Exhaustion::Empty => {
                *self = Exhaustion::Bool { true_: b, false_: !b };
                true
            },
            Exhaustion::Bool { true_, false_ } => {
                if b {
                    let prev = *true_;
                    *true_ = true;
                    prev
                } else {
                    let prev = *false_;
                    *false_ = true;
                    prev
                }
            },
            Exhaustion::Full => false,
            _ => {
                *self = Exhaustion::Invalid;
                false
            },
        }
    }

    /// Gives access to what is covered of the arguments of the variant `name`.
    /// A variant that was not seen before starts with nothing covered. A
    /// variant that was seen with another number of arguments, or a pattern
    /// that is none of an enum, makes the whole invalid.
    pub fn enum_variant(&mut self, name: &str, arg_count: u32) -> (args: Option<
        &mut Vec<Exhaustion>,
    >)
        requires
            *old(self) matches Exhaustion::Enum(cases) ==> distinct_names(cases@),
        ensures
            match old(self).cases() {
                Some(cases) => match case_index(cases, name@) {
                    Some(i) => if cases[i].args@.len() == arg_count {
                        &&& args matches Some(a)
                        &&& a@ == cases[i].args@
                        &&& final(self).cases() == Some(
                            cases.update(i, EnumCase { name: cases[i].name, args: *final(a) }),
                        )
                    } else {
                        args is None && *final(self) == Exhaustion::Invalid
                    },
                    None => {
                        &&& args matches Some(a)
                        &&& a@ =~= Seq::new(arg_count as nat, |k: int| Exhaustion::Empty)
                        &&& final(self).cases() matches Some(new_cases)
                        &&& new_cases.len() == cases.len() + 1
                        &&& new_cases.drop_last() =~= cases
                        &&& new_cases.last().name@ == name@
                        &&& new_cases.last().args == *final(a)
                    },
                },
                None => {
                    &&& args is None
                    &&& *final(self) == if *old(self) is Full {
                        Exhaustion::Full
                    } else {
                        Exhaustion::Invalid
                    }
                },
            },
    {
        if matches!(self, Exhaustion::Empty) {
            *self = Exhaustion::Enum(Vec::new());
        }
        let ghost cases = self.cases();
        let found: Option<usize> = match &*self {
            Exhaustion::Enum(variants) => find_case(variants, name),
            _ => None,
        };
        let fits: bool = match &*self {
            Exhaustion::Enum(variants) => match found {
                Some(i) => variants[i].args.len() == arg_count as usize,
                None => true,
            },
            Exhaustion::Full => {
                return None;
            },
            _ => false,
        };
        if !fits {
            *self = Exhaustion::Invalid;
            return None;
        }
        match self {
            Exhaustion::Enum(variants) => {
                let i: usize = match found {
                    Some(i) => i,
                    None => {
                        let mut args: Vec<Exhaustion> = Vec::new();
                        let mut k: u32 = 0;
                        while k < arg_count
                            invariant
                                k <= arg_count,
                                args@ =~= Seq::new(k as nat, |k: int| Exhaustion::Empty),
                            decreases arg_count - k,
                        {
                            args.push(Exhaustion::Empty);
                            k += 1;
                        }
                        variants.push(EnumCase { name: name.to_owned(), args });
                        variants.len() - 1
                    },
                };
                Some(&mut variants[i].args)
            },
            _ => None,
        }
    }

    /// The variants seen so far, where variants can be added.
    pub open spec fn cases(self) -> Option<Seq<EnumCase>> {
        match self {
            Exhaustion::Empty => Some(Seq::empty()),
            Exhaustion::Enum(cases) => Some(cases@),
            _ => None,
        }
    }
}

/// The position of the case with the given name.
pub open spec fn case_index(cases: Seq<EnumCase>, name: Seq<char>) -> Option<int>
    decreases cases.len(),
{
    if cases.len() == 0 {
        None
    } else if cases.last().name@ == name {
        Some(cases.len() - 1)
    } else {
        case_index(cases.drop_last(), name)
    }
}

proof fn lemma_case_index(cases: Seq<EnumCase>, name: Seq<char>)
    ensures
        match case_index(cases, name) {
            Some(i) => 0 <= i < cases.len() && cases[i].name@ == name,
            None => forall|i: int| 0 <= i < cases.len() ==> (#[trigger] cases[i]).name@ != name,
        },
    decreases cases.len(),
{
    if cases.len() > 0 && cases.last().name@ != name {
        lemma_case_index(cases.drop_last(), name);
        let rest = cases.drop_last();
        assert(forall|i: int| 0 <= i < rest.len() ==> rest[i] == cases[i]);
    }
}

fn find_case(cases: &Vec<EnumCase>, name: &str) -> (found: Option<usize>)
    requires
        distinct_names(cases@),
    ensures
        match found {
            Some(i) => case_index(cases@, name@) == Some(i as int) && i < cases@.len(),
            None => case_index(cases@, name@) is None,
        },
{
    let owned: String = name.to_owned();
    let mut i: usize = 0;
    while i < cases.len()
        invariant
            i <= cases@.len(),
            owned@ == name@,
            distinct_names(cases@),
            forall|j: int| 0 <= j < i ==> (#[trigger] cases@[j]).name@ != name@,
        decreases cases.len() - i,
    {
        if cases[i].name == owned {
            proof {
                lemma_case_index(cases@, name@);
                let k = case_index(cases@, name@)->Some_0;
                assert(cases@[i as int].name@ == cases@[k].name@);
            }
            return Some(i);
        }
        i += 1;
    }
    proof {
        lemma_case_index(cases@, name@);
    }
    None
}

/// What the check of a list of patterns has to know of the matched type.
#[derive(Debug)]
pub struct MatchedType {
    /// Whether the type has no values, as far as that is known.
    pub uninhabited: Result<bool, InvalidTypeError>,
    pub content: MatchedContent,
}

#[derive(Debug)]
pub enum MatchedContent {
    Int(IntType),
    Enum(Vec<MatchedVariant>),
    /// The unnamed members come before the named ones.
    Tuple(Vec<MatchedType>),
    Other,
}

#[derive(Debug)]
pub struct MatchedVariant {
    pub name: String,
    pub args: Vec<MatchedType>,
}

/// Every value of the integer type is covered.
pub open spec fn int_exhausted(e: Exhaustion, ty: IntType) -> bool {
    forall|v: int| ty.lowest() <= v <= ty.highest() ==> #[trigger] e.covers_int(v)
}

/// The patterns cover all values of the type.
pub open spec fn exhausted(e: Exhaustion, ty: MatchedType) -> Result<bool, InvalidTypeError>
    decreases e, 0int,
{
    match e {
        Exhaustion::Empty => ty.uninhabited,
        Exhaustion::Full => Ok(true),
        Exhaustion::UnsignedInt(_) | Exhaustion::SignedInt { .. } => match ty.content {
            MatchedContent::Int(int_ty) => Ok(int_exhausted(e, int_ty)),
            _ => Err(InvalidTypeError),
        },
        Exhaustion::Bool { true_, false_ } => Ok(true_ && false_),
        Exhaustion::Enum(cases) => match ty.content {
            MatchedContent::Enum(variants) => if cases@.len() != variants@.len() {
                Ok(false)
            } else {
                variants_exhausted(cases@, variants@, 0)
            },
            _ => Err(InvalidTypeError),
        },
        Exhaustion::Tuple(members) => match ty.content {
            MatchedContent::Tuple(types) => if members@.len() != types@.len() {
                Err(InvalidTypeError)
            } else {
                all_exhausted(members@, types@, 0)
            },
            _ => Err(InvalidTypeError),
        },
        Exhaustion::Invalid => Err(InvalidTypeError),
    }
}

/// The patterns from position `i` on cover their types; the first that does
/// not, or that cannot be judged, decides.
pub open spec fn all_exhausted(es: Seq<Exhaustion>, types: Seq<MatchedType>, i: nat) -> Result<
    bool,
    InvalidTypeError,
>
    decreases es, es.len() - i,
{
    if i >= es.len() || i >= types.len() {
        Ok(true)
    } else {
        match exhausted(es[i as int], types[i as int]) {
            Ok(true) => all_exhausted(es, types, i + 1),
            r => r,
        }
    }
}

/// The variants from position `i` on are covered, in the order of their
/// definition; a variant without a case is an error.
pub open spec fn variants_exhausted(
    cases: Seq<EnumCase>,
    variants: Seq<MatchedVariant>,
    i: nat,
) -> Result<bool, InvalidTypeError>
    decreases cases, variants.len() - i,
{
    if i >= variants.len() {
        Ok(true)
    } else {
        match case_index(cases, variants[i as int].name@) {
            Some(k) => if 0 <= k < cases.len() {
                match all_exhausted(cases[k].args@, variants[i as int].args@, 0) {
                    Ok(true) => variants_exhausted(cases, variants, i + 1),
                    r => r,
                }
            } else {
                Err(InvalidTypeError)
            },
            None => Err(InvalidTypeError),
        }
    }
}

/// Whether a normalized list covers all of `0..=max`.
fn covers_up_to(ranges: &Vec<Range>, min: u128, max: u128) -> (all: bool)
    requires
        normalized(ranges@),
        min <= 1,
    ensures
        all <==> forall|v: int| min <= v <= max ==> #[trigger] covers(ranges@, v),
{
    if min > max {
        return true;
    }
    if ranges.len() == 0 {
        assert(!covers(ranges@, min as int));
        return false;
    }
    let r: Range = ranges[0];
    if r.start <= min && r.end >= max {
        assert forall|v: int| min <= v <= max implies #[trigger] covers(ranges@, v) by {
            assert(ranges@[0].has(v));
        }
        true
    } else {
        proof {
            let w: int = if r.start > min {
                min as int
            } else if r.end < min {
                min as int
            } else {
                r.end + 1
            };
            if covers(ranges@, w) {
                let j = choose|j: int| 0 <= j < ranges@.len() && (#[trigger] ranges@[j]).has(w);
                if j > 0 {
                    assert(ranges@[0].end + 1 < ranges@[j].start);
                }
                assert(false);
            }
        }
        false
    }
}

impl Exhaustion {
    /// Return value:
    /// Ok(true) means it's exhausted.
    /// Ok(false) means it's not exhausted.
    /// Err means a type is mismatched/invalid
    pub fn is_exhausted(&self, ty: &MatchedType) -> (r: Result<bool, InvalidTypeError>)
        requires
            self.well_formed(),
        ensures
            r == exhausted(*self, *ty),
        decreases self, 0int,
    {
        match self {
            Exhaustion::Empty => ty.uninhabited,
            Exhaustion::Full => Ok(true),
            Exhaustion::UnsignedInt(ranges) => match &ty.content {
                MatchedContent::Int(int_ty) => {
                    let int_ty: IntType = *int_ty;
                    let all = !int_ty.is_signed() && covers_up_to(ranges, 0, int_ty.max());
                    proof {
                        if int_ty.lowest() < 0 {
                            assert(!self.covers_int(-1));
                        } else if all {
                            assert(int_exhausted(*self, int_ty));
                        } else {
                            let v = choose|v: int|
                                0 <= v <= int_ty.highest() && !#[trigger] covers(ranges@, v);
                            assert(!self.covers_int(v));
                        }
                    }
                    Ok(all)
                },
                _ => Err(InvalidTypeError),
            },
            Exhaustion::SignedInt { neg, pos } => match &ty.content {
                MatchedContent::Int(int_ty) => {
                    let int_ty: IntType = *int_ty;
                    let all = covers_up_to(pos, 0, int_ty.max()) && covers_up_to(
                        neg,
                        1,
                        int_ty.min(),
                    );
                    proof {
                        if all {
                            assert forall|v: int|
                                int_ty.lowest() <= v <= int_ty.highest() implies #[trigger] self.covers_int(
                            v) by {
                                if v < 0 {
                                    assert(covers(neg@, -v));
                                } else {
                                    assert(covers(pos@, v));
                                }
                            }
                        } else if exists|v: int|
                            0 <= v <= int_ty.highest() && !#[trigger] covers(pos@, v) {
                            let v = choose|v: int|
                                0 <= v <= int_ty.highest() && !#[trigger] covers(pos@, v);
                            assert(!self.covers_int(v));
                        } else {
                            let m = choose|m: int|
                                1 <= m <= -int_ty.lowest() && !#[trigger] covers(neg@, m);
                            assert(!self.covers_int(-m));
                        }
                    }
                    Ok(all)
                },
                _ => Err(InvalidTypeError),
            },
            Exhaustion::Bool { true_, false_ } => Ok(*true_ && *false_),
            Exhaustion::Enum(cases) => match &ty.content {
                MatchedContent::Enum(variants) => {
                    if cases.len() != variants.len() {
                        Ok(false)
                    } else {
                        all_variants_exhausted(cases, variants)
                    }
                },
                _ => Err(InvalidTypeError),
            },
            Exhaustion::Tuple(members) => match &ty.content {
                MatchedContent::Tuple(types) => {
                    if members.len() != types.len() {
                        Err(InvalidTypeError)
                    } else {
                        members_exhausted(members, types)
                    }
                },
                _ => Err(InvalidTypeError),
            },
            Exhaustion::Invalid => Err(InvalidTypeError),
        }
    }
}

fn members_exhausted(es: &Vec<Exhaustion>, types: &Vec<MatchedType>) -> (r: Result<
    bool,
    InvalidTypeError,
>)
    requires
        forall|i: int| 0 <= i < es@.len() ==> (#[trigger] es@[i]).well_formed(),
    ensures
        r == all_exhausted(es@, types@, 0),
    decreases es@, 1int,
{
    let mut i: usize = 0;
    while i < es.len() && i < types.len()
        invariant
            i <= es@.len(),
            i <= types@.len(),
            forall|i: int| 0 <= i < es@.len() ==> (#[trigger] es@[i]).well_formed(),
            all_exhausted(es@, types@, 0) == all_exhausted(es@, types@, i as nat),
        decreases es.len() - i,
    {
        match es[i].is_exhausted(&types[i]) {
            Ok(true) => {},
            r => {
                return r;
            },
        }
        i += 1;
    }
    Ok(true)
}

fn all_variants_exhausted(cases: &Vec<EnumCase>, variants: &Vec<MatchedVariant>) -> (r: Result<
    bool,
    InvalidTypeError,
>)
    requires
        distinct_names(cases@),
        forall|i: int, j: int|
            0 <= i < cases@.len() && 0 <= j < cases@[i].args@.len()
                ==> (#[trigger] cases@[i].args@[j]).well_formed(),
    ensures
        r == variants_exhausted(cases@, variants@, 0),
    decreases cases@, 2int,
{
    let mut i: usize = 0;
    while i < variants.len()
        invariant
            i <= variants@.len(),
            distinct_names(cases@),
            forall|i: int, j: int|
                0 <= i < cases@.len() && 0 <= j < cases@[i].args@.len()
                    ==> (#[trigger] cases@[i].args@[j]).well_formed(),
            variants_exhausted(cases@, variants@, 0) == variants_exhausted(
                cases@,
                variants@,
                i as nat,
            ),
        decreases variants.len() - i,
    {
        match find_case(cases, variants[i].name.as_str()) {
            None => {
                return Err(InvalidTypeError);
            },
            Some(k) => {
                match members_exhausted(&cases[k].args, &variants[i].args) {
                    Ok(true) => {},
                    r => {
                        return r;
                    },
                }
            },
        }
        i += 1;
    }
    Ok(true)
}

} // verus!
