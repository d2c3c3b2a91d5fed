//! How the memory of a variable is divided into scalars.
use vstd::prelude::*;

use crate::ir::ids::Ref;
use crate::ir::types::Primitive;

verus! {

#[derive(Debug, Clone, Copy, PartialEq, Eq, Structural)]
pub enum AccessType {
    Load,
    Store,
}

/// A part of a variable that is read or written.
#[derive(Debug, Clone, Copy, PartialEq, Eq, Structural)]
pub struct Access {
    pub access: AccessType,
    pub location: Ref,
    pub size: u64,
    pub offset: u64,
    pub ty: Primitive,
    /// The element, where the value is a tuple.
    pub index: Option<u32>,
}

/// Type of a subrange of an aggregate
#[derive(Clone, Copy, Debug, PartialEq, Eq, Structural)]
pub enum SubType {
    Int,
    Unique(Primitive),
}

impl SubType {
    pub open spec fn spec_join(self, other: Self) -> Self {
        if self == other {
            self
        } else {
            SubType::Int
        }
    }

    #[must_use]
    pub fn join(self, other: Self) -> (r: Self)
        ensures
            r == self.spec_join(other),
    {
        match (self, other) {
            (SubType::Unique(a), SubType::Unique(b)) => if a == b {
                self
            } else {
                SubType::Int
            },
            _ => SubType::Int,
        }
    }
}

/// Joining types is idempotent, commutative and associative.
pub proof fn join_is_a_semilattice(a: SubType, b: SubType, c: SubType)
    ensures
        a.spec_join(a) == a,
        a.spec_join(b) == b.spec_join(a),
        a.spec_join(b).spec_join(c) == a.spec_join(b.spec_join(c)),
{
}

/// Consecutive bytes that become a scalar.
#[derive(Clone, Copy, Debug, PartialEq, Eq, Structural)]
pub struct Subrange {
    pub offset: u64,
    pub size: u64,
    pub ty: SubType,
}

impl Subrange {
    pub open spec fn end(self) -> int {
        self.offset + self.size
    }
}

/// How many subranges begin before `x`.
pub open spec fn lower(subs: Seq<Subrange>, x: int) -> int
    decreases subs.len(),
{
    if subs.len() == 0 {
        0
    } else if subs[0].offset < x {
        1 + lower(subs.skip(1), x)
    } else {
        0
    }
}

/// Starts increase, and so do ends.
pub open spec fn ordered(subs: Seq<Subrange>) -> bool {
    &&& forall|i: int, j: int|
        0 <= i < j < subs.len() ==> (#[trigger] subs[i]).offset < (#[trigger] subs[j]).offset
            && subs[i].end() <= subs[j].end()
    &&& forall|i: int| 0 <= i < subs.len() ==> (#[trigger] subs[i]).size > 0
}

pub proof fn lemma_lower(subs: Seq<Subrange>, x: int)
    requires
        ordered(subs),
    ensures
        0 <= lower(subs, x) <= subs.len(),
        forall|i: int| 0 <= i < lower(subs, x) ==> (#[trigger] subs[i]).offset < x,
        forall|i: int| lower(subs, x) <= i < subs.len() ==> (#[trigger] subs[i]).offset >= x,
    decreases subs.len(),
{
    if subs.len() > 0 && subs[0].offset < x {
        let rest = subs.skip(1);
        assert forall|i: int, j: int| 0 <= i < j < rest.len() implies (#[trigger] rest[i]).offset
            < (#[trigger] rest[j]).offset && rest[i].end() <= rest[j].end() by {
            assert(rest[i] == subs[i + 1] && rest[j] == subs[j + 1]);
        }
        assert forall|i: int| 0 <= i < rest.len() implies (#[trigger] rest[i]).size > 0 by {
            assert(rest[i] == subs[i + 1]);
        }
        lemma_lower(rest, x);
        assert forall|i: int| 0 <= i < lower(subs, x) implies (#[trigger] subs[i]).offset < x by {
            if i > 0 {
                assert(rest[i - 1] == subs[i]);
            }
        }
        assert forall|i: int| lower(subs, x) <= i < subs.len() implies (#[trigger] subs[i]).offset
            >= x by {
            assert(rest[i - 1] == subs[i]);
        }
    } else if subs.len() > 0 {
        assert forall|i: int| 0 <= i < subs.len() implies (#[trigger] subs[i]).offset >= x by {
            if i > 0 {
                assert(subs[0].offset < subs[i].offset);
            }
        }
    }
}

proof fn lemma_lower_is(subs: Seq<Subrange>, x: int, k: int)
    requires
        ordered(subs),
        0 <= k <= subs.len(),
        forall|i: int| 0 <= i < k ==> (#[trigger] subs[i]).offset < x,
        k < subs.len() ==> subs[k].offset >= x,
    ensures
        lower(subs, x) == k,
{
    lemma_lower(subs, x);
    let l = lower(subs, x);
    if l < k {
        assert(subs[l].offset < x);
    } else if k < l {
        assert(subs[k].offset < x);
    }
}

pub open spec fn max(a: int, b: int) -> int {
    if a < b {
        b
    } else {
        a
    }
}

/// The partition with room for another store. There is none where the store begins
/// before two subranges that it overlaps.
pub open spec fn add_store(subs: Seq<Subrange>, store: Access) -> Option<Seq<Subrange>> {
    let a = lower(subs, store.offset as int);
    let b = lower(subs, store.offset + store.size);
    if b - a >= 2 {
        None
    } else if b == a {
        if a > 0 && subs[a - 1].end() > store.offset {
            // overlapping store before
            let sub = subs[a - 1];
            Some(
                subs.update(
                    a - 1,
                    Subrange {
                        offset: sub.offset,
                        size: max(
                            sub.size as int,
                            store.size + (store.offset - sub.offset),
                        ) as u64,
                        ty: SubType::Int,
                    },
                ),
            )
        } else {
            Some(
                subs.insert(
                    a,
                    Subrange {
                        offset: store.offset,
                        size: store.size,
                        ty: SubType::Unique(store.ty),
                    },
                ),
            )
        }
    } else {
        let sub = subs[a];
        if sub.offset == store.offset {
            Some(
                subs.update(
                    a,
                    Subrange {
                        offset: sub.offset,
                        size: max(sub.size as int, store.size as int) as u64,
                        ty: sub.ty.spec_join(SubType::Unique(store.ty)),
                    },
                ),
            )
        } else {
            // expand the range to the left
            let diff = sub.offset - store.offset;
            Some(
                subs.update(
                    a,
                    Subrange {
                        offset: store.offset,
                        size: max(sub.size + diff, store.size as int) as u64,
                        ty: SubType::Int,
                    },
                ),
            )
        }
    }
}

/// The partition that the stores ask for.
pub open spec fn stores_partition(accesses: Seq<Access>) -> Option<Seq<Subrange>>
    decreases accesses.len(),
{
    if accesses.len() == 0 {
        Some(Seq::empty())
    } else {
        match stores_partition(accesses.drop_last()) {
            None => None,
            Some(subs) => match accesses.last().access {
                AccessType::Load => Some(subs),
                AccessType::Store => add_store(subs, accesses.last()),
            },
        }
    }
}

/// The partition of a variable into scalars, unless the stores overlap in a way that
/// is not handled, or integers of more than 8 bytes were needed.
pub open spec fn partition(accesses: Seq<Access>) -> Option<Seq<Subrange>> {
    match stores_partition(accesses) {
        None => None,
        Some(subs) => if exists|i: int|
            0 <= i < subs.len() && (#[trigger] subs[i]).ty == SubType::Int && subs[i].size > 8 {
            None
        } else {
            Some(subs)
        },
    }
}

/// The subrange that an access at `x` belongs to: the last that begins there or
/// before.
pub open spec fn lookup(subs: Seq<Subrange>, x: int) -> Option<int> {
    let l = lower(subs, x + 1);
    if l > 0 {
        Some(l - 1)
    } else {
        None
    }
}

/// The access has the size of its value, and its end can be counted.
pub open spec fn access_fits(a: Access) -> bool {
    &&& a.offset + a.size <= u64::MAX
    &&& a.size == a.ty.byte_size()
}

pub open spec fn all_fit(accesses: Seq<Access>) -> bool {
    forall|i: int| 0 <= i < accesses.len() ==> access_fits(#[trigger] accesses[i])
}

/// The store lies within its subrange. A subrange with a single type holds stores of
/// that type alone, all at its start.
pub open spec fn store_is_covered(subs: Seq<Subrange>, a: Access) -> bool {
    match lookup(subs, a.offset as int) {
        None => false,
        Some(k) => {
            &&& 0 <= k < subs.len()
            &&& subs[k].offset <= a.offset
            &&& a.offset + a.size <= subs[k].end()
            &&& subs[k].ty matches SubType::Unique(p) ==> p == a.ty && subs[k].offset == a.offset
        },
    }
}

pub open spec fn stores_are_covered(subs: Seq<Subrange>, accesses: Seq<Access>) -> bool {
    forall|i: int|
        0 <= i < accesses.len() && (#[trigger] accesses[i]).access == AccessType::Store
            ==> store_is_covered(subs, accesses[i])
}

/// Single types have the size of the subrange.
pub open spec fn sizes_match(subs: Seq<Subrange>) -> bool {
    forall|i: int|
        0 <= i < subs.len() ==> {
            &&& (#[trigger] subs[i]).ty matches SubType::Unique(p) ==> subs[i].size
                == p.byte_size()
            &&& subs[i].end() <= u64::MAX
        }
}

proof fn lemma_lookup_is(subs: Seq<Subrange>, x: int, k: int)
    requires
        ordered(subs),
        0 <= k < subs.len(),
        subs[k].offset <= x,
        k + 1 < subs.len() ==> subs[k + 1].offset > x,
    ensures
        lookup(subs, x) == Some(k),
{
    assert forall|i: int| 0 <= i < k + 1 implies (#[trigger] subs[i]).offset < x + 1 by {
        if i < k {
            assert(subs[i].offset < subs[k].offset);
        }
    }
    lemma_lower_is(subs, x + 1, k + 1);
}

proof fn lemma_lookup(subs: Seq<Subrange>, x: int)
    requires
        ordered(subs),
    ensures
        match lookup(subs, x) {
            Some(k) => 0 <= k < subs.len() && subs[k].offset <= x && (k + 1 < subs.len()
                ==> subs[k + 1].offset > x),
            None => forall|i: int| 0 <= i < subs.len() ==> (#[trigger] subs[i]).offset > x,
        },
{
    lemma_lower(subs, x + 1);
}

/// What adding a store keeps.
spec fn extends(subs: Seq<Subrange>, new: Seq<Subrange>, store: Access, earlier: Access) -> bool {
    &&& ordered(new)
    &&& sizes_match(new)
    &&& store_is_covered(new, store)
    &&& access_fits(earlier) && store_is_covered(subs, earlier) ==> store_is_covered(new, earlier)
}

proof fn lemma_extend_right(subs: Seq<Subrange>, store: Access, earlier: Access)
    requires
        ordered(subs),
        sizes_match(subs),
        access_fits(store),
        lower(subs, store.offset as int) == lower(subs, store.offset + store.size),
        lower(subs, store.offset as int) > 0,
        subs[lower(subs, store.offset as int) - 1].end() > store.offset,
    ensures
        extends(subs, add_store(subs, store)->Some_0, store, earlier),
{
    let new = add_store(subs, store)->Some_0;
    let o = store.offset as int;
    let e = store.offset + store.size;
    let k = lower(subs, o) - 1;
    lemma_lower(subs, o);
    lemma_lower(subs, e);
    let sub = subs[k];
    assert(new[k].end() == max(sub.end(), e));
    assert forall|i: int, j: int| 0 <= i < j < new.len() implies (#[trigger] new[i]).offset
        < (#[trigger] new[j]).offset && new[i].end() <= new[j].end() by {
        assert(subs[i].offset < subs[j].offset);
    }
    assert(sizes_match(new));
    lemma_lookup_is(new, o, k);
    if access_fits(earlier) && store_is_covered(subs, earlier) {
        lemma_lookup(subs, earlier.offset as int);
        lemma_lookup_is(new, earlier.offset as int, lookup(subs, earlier.offset as int)->Some_0);
    }
}

proof fn lemma_insert_ordered(subs: Seq<Subrange>, a: int, sub: Subrange)
    requires
        ordered(subs),
        sizes_match(subs),
        0 <= a <= subs.len(),
        a > 0 ==> subs[a - 1].end() <= sub.offset,
        a < subs.len() ==> sub.end() <= subs[a].offset,
        sub.size > 0,
        sub.ty matches SubType::Unique(p) ==> sub.size == p.byte_size(),
        sub.end() <= u64::MAX,
    ensures
        ordered(subs.insert(a, sub)),
        sizes_match(subs.insert(a, sub)),
{
    let new = subs.insert(a, sub);
    assert forall|i: int, j: int| 0 <= i < j < new.len() implies (#[trigger] new[i]).offset < (
    #[trigger] new[j]).offset && new[i].end() <= new[j].end() by {
        if j == a {
            assert(new[i] == subs[i]);
            if i < a - 1 {
                assert(subs[i].end() <= subs[a - 1].end());
            }
        } else if i == a {
            assert(new[j] == subs[j - 1]);
            if a < j - 1 {
                assert(subs[a].offset < subs[j - 1].offset);
            }
        } else if j < a {
            assert(new[i] == subs[i] && new[j] == subs[j]);
        } else if i < a {
            assert(new[i] == subs[i] && new[j] == subs[j - 1]);
        } else {
            assert(new[i] == subs[i - 1] && new[j] == subs[j - 1]);
        }
    }
    assert forall|i: int| 0 <= i < new.len() implies {
        &&& (#[trigger] new[i]).size > 0
        &&& new[i].ty matches SubType::Unique(p) ==> new[i].size == p.byte_size()
        &&& new[i].end() <= u64::MAX
    } by {
        if i < a {
            assert(new[i] == subs[i]);
        } else if i > a {
            assert(new[i] == subs[i - 1]);
        }
    }
}

proof fn lemma_insert_new(subs: Seq<Subrange>, store: Access, earlier: Access)
    requires
        ordered(subs),
        sizes_match(subs),
        access_fits(store),
        lower(subs, store.offset as int) == lower(subs, store.offset + store.size),
        lower(subs, store.offset as int) > 0 ==> subs[lower(subs, store.offset as int)
            - 1].end() <= store.offset,
    ensures
        extends(subs, add_store(subs, store)->Some_0, store, earlier),
{
    let new = add_store(subs, store)->Some_0;
    let o = store.offset as int;
    let e = store.offset + store.size;
    let a = lower(subs, o);
    lemma_lower(subs, o);
    lemma_lower(subs, e);
    let sub = Subrange {
        offset: store.offset,
        size: store.size,
        ty: SubType::Unique(store.ty),
    };
    lemma_insert_ordered(subs, a, sub);
    assert(new == subs.insert(a, sub));
    assert(new[a] == sub);
    assert(a + 1 < new.len() ==> new[a + 1] == subs[a]);
    lemma_lookup_is(new, o, a);
    if access_fits(earlier) && store_is_covered(subs, earlier) {
        let x = earlier.offset as int;
        lemma_lookup(subs, x);
        let k = lookup(subs, x)->Some_0;
        if k < a {
            assert(new[k] == subs[k]);
            if k == a - 1 {
                assert(x < subs[a - 1].end() <= o);
            } else {
                assert(new[k + 1] == subs[k + 1]);
            }
            lemma_lookup_is(new, x, k);
        } else {
            assert(new[k + 1] == subs[k]);
            if k + 2 < new.len() {
                assert(new[k + 2] == subs[k + 1]);
            }
            lemma_lookup_is(new, x, k + 1);
        }
    }
}

proof fn lemma_widen(subs: Seq<Subrange>, store: Access, earlier: Access)
    requires
        ordered(subs),
        sizes_match(subs),
        access_fits(store),
        lower(subs, store.offset as int) + 1 == lower(subs, store.offset + store.size),
    ensures
        extends(subs, add_store(subs, store)->Some_0, store, earlier),
{
    let new = add_store(subs, store)->Some_0;
    let o = store.offset as int;
    let e = store.offset + store.size;
    let a = lower(subs, o);
    lemma_lower(subs, o);
    lemma_lower(subs, e);
    let sub = subs[a];
    assert(new[a].offset == o);
    assert(new[a].end() == max(sub.end(), e));
    assert(forall|i: int| 0 <= i < new.len() && i != a ==> new[i] == subs[i]);
    assert forall|i: int, j: int| 0 <= i < j < new.len() implies (#[trigger] new[i]).offset < (
    #[trigger] new[j]).offset && new[i].end() <= new[j].end() by {
        assert(subs[i].offset < subs[j].offset && subs[i].end() <= subs[j].end());
    }
    assert(sizes_match(new));
    lemma_lookup_is(new, o, a);
    if access_fits(earlier) && store_is_covered(subs, earlier) {
        let x = earlier.offset as int;
        lemma_lookup(subs, x);
        let k = lookup(subs, x)->Some_0;
        if sub.offset != store.offset && k == a - 1 && x >= o {
            assert(subs[k].end() <= subs[a].end());
            lemma_lookup_is(new, x, a);
        } else {
            lemma_lookup_is(new, x, k);
        }
    }
}

proof fn lemma_add_store(subs: Seq<Subrange>, store: Access, earlier: Access)
    requires
        ordered(subs),
        sizes_match(subs),
        access_fits(store),
        add_store(subs, store) is Some,
    ensures
        extends(subs, add_store(subs, store)->Some_0, store, earlier),
{
    let a = lower(subs, store.offset as int);
    let b = lower(subs, store.offset + store.size);
    lemma_lower(subs, store.offset as int);
    lemma_lower(subs, store.offset + store.size);
    if b < a {
        assert(subs[b].offset < store.offset);
    }
    if b == a {
        if a > 0 && subs[a - 1].end() > store.offset {
            lemma_extend_right(subs, store, earlier);
        } else {
            lemma_insert_new(subs, store, earlier);
        }
    } else {
        lemma_widen(subs, store, earlier);
    }
}

/// Every store lies within the subrange that it is assigned to. Subranges are sorted,
/// and where one has a single type it holds only values of that type.
pub proof fn partitions_cover_stores(accesses: Seq<Access>)
    requires
        all_fit(accesses),
        stores_partition(accesses) is Some,
    ensures
        ordered(stores_partition(accesses)->Some_0),
        sizes_match(stores_partition(accesses)->Some_0),
        stores_are_covered(stores_partition(accesses)->Some_0, accesses),
    decreases accesses.len(),
{
    if accesses.len() > 0 {
        let rest = accesses.drop_last();
        assert forall|i: int| 0 <= i < rest.len() implies access_fits(#[trigger] rest[i]) by {
            assert(rest[i] == accesses[i]);
        }
        partitions_cover_stores(rest);
        let subs = stores_partition(rest)->Some_0;
        let new = stores_partition(accesses)->Some_0;
        let last = accesses.last();
        assert(last == accesses[accesses.len() - 1]);
        if last.access == AccessType::Store {
            lemma_add_store(subs, last, last);
        }
        assert forall|i: int|
            0 <= i < accesses.len() && (#[trigger] accesses[i]).access
                == AccessType::Store implies store_is_covered(new, accesses[i]) by {
            if i < rest.len() {
                assert(rest[i] == accesses[i]);
                assert(store_is_covered(subs, rest[i]));
                if last.access == AccessType::Store {
                    lemma_add_store(subs, last, rest[i]);
                }
            }
        }
    }
}

fn find_lower(subs: &Vec<Subrange>, x: u64) -> (k: usize)
    requires
        ordered(subs@),
    ensures
        k == lower(subs@, x as int),
        k <= subs@.len(),
{
    let mut k: usize = 0;
    while k < subs.len() && subs[k].offset < x
        invariant
            k <= subs@.len(),
            ordered(subs@),
            forall|i: int| 0 <= i < k ==> (#[trigger] subs@[i]).offset < x,
        decreases subs.len() - k,
    {
        k += 1;
    }
    proof {
        lemma_lower_is(subs@, x as int, k as int);
    }
    k
}

/// The index of the subrange that an access at `x` belongs to.
pub fn find_subrange(subs: &Vec<Subrange>, x: u64) -> (k: Option<usize>)
    requires
        ordered(subs@),
        x < u64::MAX,
    ensures
        match k {
            Some(k) => lookup(subs@, x as int) == Some(k as int) && k < subs@.len()
                && subs@[k as int].offset <= x,
            None => lookup(subs@, x as int) is None,
        },
{
    let l: usize = find_lower(subs, x + 1);
    proof {
        lemma_lookup(subs@, x as int);
    }
    if l > 0 {
        Some(l - 1)
    } else {
        None
    }
}

fn insert_store(subs: &mut Vec<Subrange>, store: Access) -> (done: bool)
    requires
        ordered(old(subs)@),
        sizes_match(old(subs)@),
        access_fits(store),
    ensures
        done == (add_store(old(subs)@, store) is Some),
        done ==> final(subs)@ == add_store(old(subs)@, store)->Some_0,
{
    let a: usize = find_lower(subs, store.offset);
    let b: usize = find_lower(subs, store.offset + store.size);
    proof {
        lemma_lower(subs@, store.offset as int);
        lemma_lower(subs@, store.offset + store.size);
        if b < a {
            assert(subs@[b as int].offset < store.offset);
        }
    }
    if b - a >= 2 {
        return false;
    }
    if b == a {
        if a > 0 && subs[a - 1].offset + subs[a - 1].size > store.offset {
            let sub: Subrange = subs[a - 1];
            let end_size: u64 = store.size + (store.offset - sub.offset);
            let size: u64 = if sub.size < end_size {
                end_size
            } else {
                sub.size
            };
            subs.set(a - 1, Subrange { offset: sub.offset, size, ty: SubType::Int });
        } else {
            subs.insert(
                a,
                Subrange { offset: store.offset, size: store.size, ty: SubType::Unique(store.ty) },
            );
        }
    } else {
        let sub: Subrange = subs[a];
        if sub.offset == store.offset {
            let size: u64 = if sub.size < store.size {
                store.size
            } else {
                sub.size
            };
            let ty: SubType = sub.ty.join(SubType::Unique(store.ty));
            subs.set(a, Subrange { offset: sub.offset, size, ty });
        } else {
            let diff: u64 = sub.offset - store.offset;
            let grown: u64 = sub.size + diff;
            let size: u64 = if grown < store.size {
                store.size
            } else {
                grown
            };
            subs.set(a, Subrange { offset: store.offset, size, ty: SubType::Int });
        }
    }
    true
}

/// Decides how a variable is divided into scalars.
pub fn make_partition(accesses: &Vec<Access>) -> (r: Option<Vec<Subrange>>)
    requires
        all_fit(accesses@),
    ensures
        match r {
            Some(subs) => partition(accesses@) == Some(subs@),
            None => partition(accesses@) is None,
        },
{
    let ghost all = accesses@;
    let mut subs: Vec<Subrange> = Vec::new();
    let mut i: usize = 0;
    assert(all.take(0) =~= Seq::empty());
    while i < accesses.len()
        invariant
            i <= accesses@.len(),
            all == accesses@,
            all_fit(all),
            stores_partition(all.take(i as int)) == Some(subs@),
        decreases accesses.len() - i,
    {
        proof {
            assert(all.take(i + 1).drop_last() =~= all.take(i as int));
            assert(all_fit(all.take(i as int)));
            partitions_cover_stores(all.take(i as int));
        }
        let access: Access = accesses[i];
        if access.access == AccessType::Store {
            if !insert_store(&mut subs, access) {
                proof {
                    lemma_partition_fails(all, i + 1);
                }
                return None;
            }
        }
        i += 1;
    }
    assert(all.take(i as int) =~= all);
    let mut i: usize = 0;
    while i < subs.len()
        invariant
            i <= subs@.len(),
            stores_partition(accesses@) == Some(subs@),
            forall|j: int|
                0 <= j < i ==> !((#[trigger] subs@[j]).ty == SubType::Int && subs@[j].size > 8),
        decreases subs.len() - i,
    {
        if subs[i].ty == SubType::Int && subs[i].size > 8 {
            return None;
        }
        i += 1;
    }
    Some(subs)
}

proof fn lemma_partition_fails(accesses: Seq<Access>, i: int)
    requires
        0 <= i <= accesses.len(),
        stores_partition(accesses.take(i)) is None,
    ensures
        stores_partition(accesses) is None,
    decreases accesses.len(),
{
    if i < accesses.len() {
        assert(accesses.drop_last().take(i) =~= accesses.take(i));
        lemma_partition_fails(accesses.drop_last(), i);
    } else {
        assert(accesses.take(i) =~= accesses);
    }
}

/// The type of the scalar for a subrange.
pub open spec fn spec_subdecl_ty(sub: Subrange) -> Primitive {
    match sub.ty {
        SubType::Int => if sub.size <= 1 {
            Primitive::U8
        } else if sub.size <= 2 {
            Primitive::U16
        } else if sub.size <= 4 {
            Primitive::U32
        } else {
            Primitive::U64
        },
        SubType::Unique(p) => p,
    }
}

pub fn subdecl_ty(sub: Subrange) -> (p: Primitive)
    requires
        sub.ty == SubType::Int ==> 1 <= sub.size <= 8,
    ensures
        p == spec_subdecl_ty(sub),
{
    match sub.ty {
        SubType::Int => if sub.size <= 1 {
            Primitive::U8
        } else if sub.size <= 2 {
            Primitive::U16
        } else if sub.size <= 4 {
            Primitive::U32
        } else {
            Primitive::U64
        },
        SubType::Unique(p) => p,
    }
}

/// A scalar has room for its subrange.
pub proof fn scalars_hold_their_subranges(accesses: Seq<Access>, i: int)
    requires
        all_fit(accesses),
        partition(accesses) is Some,
        0 <= i < partition(accesses)->Some_0.len(),
    ensures
        partition(accesses)->Some_0[i].size <= spec_subdecl_ty(
            partition(accesses)->Some_0[i],
        ).byte_size(),
{
    partitions_cover_stores(accesses);
}

} // verus!
