//! Turns copies that happen at the same time into a sequence of copies.
use vstd::prelude::*;
use vstd::set_lib::*;

use crate::ir::mc::register::Register;

verus! {

/// The register whose initial value is found in register `i` after the copies
/// `(to, from)` have run one after the other.
pub open spec fn origin<R: Register>(copies: Seq<(R, R)>, i: u8) -> u8
    decreases copies.len(),
{
    if copies.len() == 0 {
        i
    } else {
        let (to, from) = copies.last();
        if i == to.spec_index() {
            origin(copies.drop_last(), from.spec_index())
        } else {
            origin(copies.drop_last(), i)
        }
    }
}

/// The contents of all registers after the copies `(to, from)` have run one
/// after the other.
pub open spec fn run_copies<R: Register, V>(copies: Seq<(R, R)>, regs: spec_fn(u8) -> V) -> spec_fn(
    u8,
) -> V
    decreases copies.len(),
{
    if copies.len() == 0 {
        regs
    } else {
        let (to, from) = copies.last();
        let before = run_copies(copies.drop_last(), regs);
        |i: u8|
            if i == to.spec_index() {
                before(from.spec_index())
            } else {
                before(i)
            }
    }
}

/// `args` lists a destination and a source in turn.
pub open spec fn is_dest<R: Register>(args: Seq<R>, i: u8) -> bool {
    exists|k: int| 0 <= 2 * k < args.len() && (#[trigger] args[2 * k]).spec_index() == i
}

/// The destinations are pairwise different registers.
pub open spec fn dests_distinct<R: Register>(args: Seq<R>) -> bool {
    forall|j: int, k: int|
        0 <= 2 * j < 2 * k < args.len() ==> (#[trigger] args[2 * j]).spec_index() != (
        #[trigger] args[2 * k]).spec_index()
}

/// Running the copies has the effect of all assignments of `args` at once:
/// every destination holds what its source held, and nothing else changes but
/// the scratch register.
pub open spec fn acts_in_parallel<R: Register>(copies: Seq<(R, R)>, args: Seq<R>, tmp: R) -> bool {
    &&& forall|k: int|
        0 <= 2 * k < args.len() ==> origin(copies, (#[trigger] args[2 * k]).spec_index())
            == args[2 * k + 1].spec_index()
    &&& forall|i: u8|
        !is_dest(args, i) && i != tmp.spec_index() ==> #[trigger] origin(copies, i) == i
}

/// The source of each destination of `args`, by the destination's index.
pub open spec fn sources<R: Register>(args: Seq<R>) -> Seq<Option<R>>
    decreases args.len(),
{
    if args.len() < 2 {
        Seq::new(256, |i: int| None)
    } else {
        let k = args.len() - 2;
        sources(args.take(k)).update(args[k].spec_index() as int, Some(args[k + 1]))
    }
}

/// Where the values that `args` reads are before the first copy: in their own
/// registers.
pub open spec fn places<R: Register>(args: Seq<R>) -> Seq<Option<R>>
    decreases args.len(),
{
    if args.len() < 2 {
        Seq::new(256, |i: int| None)
    } else {
        let k = args.len() - 2;
        places(args.take(k)).update(args[k + 1].spec_index() as int, Some(args[k + 1]))
    }
}

pub open spec fn dests<R: Register>(args: Seq<R>) -> Seq<R> {
    Seq::new((args.len() / 2) as nat, |k: int| args[2 * k])
}

/// The registers of the list that hold no value that is still to be read.
pub open spec fn unread<R: Register>(list: Seq<R>, loc: Seq<Option<R>>) -> Seq<R>
    decreases list.len(),
{
    if list.len() == 0 {
        list
    } else {
        let before = unread(list.drop_last(), loc);
        if loc[list.last().spec_index() as int] is None {
            before.push(list.last())
        } else {
            before
        }
    }
}

/// The list without the register of that index.
pub open spec fn without<R: Register>(list: Seq<R>, i: u8) -> Seq<R>
    decreases list.len(),
{
    if list.len() == 0 {
        list
    } else {
        let before = without(list.drop_last(), i);
        if list.last().spec_index() == i {
            before
        } else {
            before.push(list.last())
        }
    }
}

/// How far the sequence of copies has come. `pred` maps a destination to its
/// source, `loc` a source to the register that holds its initial value. What is
/// `ready` can be overwritten, what is left `todo` may be in a cycle.
#[verifier::ext_equal]
pub struct Solving<R: Register> {
    pub ready: Seq<R>,
    pub todo: Seq<R>,
    pub pred: Seq<Option<R>>,
    pub loc: Seq<Option<R>>,
    pub copies: Seq<(R, R)>,
}

impl<R: Register> Solving<R> {
    /// Before the first copy.
    pub open spec fn started(args: Seq<R>) -> Self {
        Solving {
            ready: unread(dests(args), places(args)),
            todo: dests(args),
            pred: sources(args),
            loc: places(args),
            copies: Seq::empty(),
        }
    }

    pub open spec fn finished(self) -> bool {
        self.ready.len() == 0 && self.todo.len() == 0
    }

    /// The register that became ready last is written. If that leaves its source
    /// free, the source is ready next.
    pub open spec fn written(self) -> Self {
        let b = self.ready.last();
        let ready = self.ready.drop_last();
        match self.pred[b.spec_index() as int] {
            None => Solving { ready, ..self },
            Some(a) => {
                let c = self.loc[a.spec_index() as int]->Some_0;
                Solving {
                    ready: if a.spec_index() == c.spec_index() {
                        ready.push(a)
                    } else {
                        ready
                    },
                    todo: without(self.todo, c.spec_index()),
                    pred: self.pred,
                    loc: self.loc.update(a.spec_index() as int, Some(b)),
                    copies: self.copies.push((b, c)),
                }
            },
        }
    }

    /// Nothing is ready: the last destination that is left holds its value
    /// already, or what it holds is put aside.
    pub open spec fn put_aside(self, tmp: R) -> Self {
        let b = self.todo.last();
        let todo = self.todo.drop_last();
        let a = self.pred[b.spec_index() as int]->Some_0;
        let c = self.loc[a.spec_index() as int]->Some_0;
        if b.spec_index() == c.spec_index() {
            Solving { todo, ..self }
        } else {
            Solving {
                ready: self.ready.push(b),
                todo,
                pred: self.pred,
                loc: self.loc.update(b.spec_index() as int, Some(tmp)),
                copies: self.copies.push((tmp, self.loc[b.spec_index() as int]->Some_0)),
            }
        }
    }

    pub open spec fn step(self, tmp: R) -> Self {
        if self.ready.len() > 0 {
            self.written()
        } else {
            self.put_aside(tmp)
        }
    }

    /// At most `n` steps.
    pub open spec fn run(self, tmp: R, n: nat) -> Self
        decreases n,
    {
        if n == 0 || self.finished() {
            self
        } else {
            self.step(tmp).run(tmp, (n - 1) as nat)
        }
    }
}

/// The copies `(to, from)` that make the assignments of `args` one after the
/// other. Twice as many steps as there are operands are enough.
pub open spec fn solved<R: Register>(args: Seq<R>, tmp: R) -> Seq<(R, R)> {
    Solving::started(args).run(tmp, 2 * args.len()).copies
}

/// The sequence of copies computes the parallel assignment whatever the
/// registers hold.
pub proof fn sequence_computes_parallel_copy<R: Register, V>(
    copies: Seq<(R, R)>,
    args: Seq<R>,
    tmp: R,
    regs: spec_fn(u8) -> V,
)
    requires
        acts_in_parallel(copies, args, tmp),
    ensures
        forall|k: int|
            0 <= 2 * k < args.len() ==> run_copies(copies, regs)(
                (#[trigger] args[2 * k]).spec_index(),
            ) == regs(args[2 * k + 1].spec_index()),
        forall|i: u8|
            !is_dest(args, i) && i != tmp.spec_index() ==> #[trigger] run_copies(copies, regs)(i)
                == regs(i),
{
    assert forall|i: u8| #[trigger] run_copies(copies, regs)(i) == regs(origin(copies, i)) by {
        lemma_run_is_origin(copies, regs, i);
    }
}

proof fn lemma_run_is_origin<R: Register, V>(
    copies: Seq<(R, R)>,
    regs: spec_fn(u8) -> V,
    i: u8,
)
    ensures
        run_copies(copies, regs)(i) == regs(origin(copies, i)),
    decreases copies.len(),
{
    if copies.len() > 0 {
        let (to, from) = copies.last();
        lemma_run_is_origin(copies.drop_last(), regs, i);
        lemma_run_is_origin(copies.drop_last(), regs, from.spec_index());
    }
}

proof fn lemma_origin_push<R: Register>(copies: Seq<(R, R)>, to: R, from: R)
    ensures
        forall|i: u8| #[trigger]
            origin(copies.push((to, from)), i) == if i == to.spec_index() {
                origin(copies, from.spec_index())
            } else {
                origin(copies, i)
            },
{
    assert(copies.push((to, from)).drop_last() =~= copies);
}

/// A table from register indices to registers.
spec fn in_table<R: Register>(table: Seq<Option<R>>, i: u8) -> bool {
    table[i as int] is Some
}

spec fn at<R: Register>(table: Seq<Option<R>>, i: u8) -> u8 {
    table[i as int]->Some_0.spec_index()
}

/// The indices of a list of registers.
spec fn members<R: Register>(list: Seq<R>) -> Set<u8> {
    Set::new(|i: u8| exists|k: int| 0 <= k < list.len() && (#[trigger] list[k]).spec_index() == i)
}

spec fn distinct<R: Register>(list: Seq<R>) -> bool {
    forall|j: int, k: int|
        0 <= j < k < list.len() ==> (#[trigger] list[j]).spec_index() != (
        #[trigger] list[k]).spec_index()
}

proof fn lemma_members_push<R: Register>(list: Seq<R>, r: R)
    requires
        distinct(list),
    ensures
        members(list.push(r)) =~= members(list).insert(r.spec_index()),
        !members(list).contains(r.spec_index()) ==> distinct(list.push(r)),
{
    let longer = list.push(r);
    assert forall|i: u8| members(longer).contains(i) <==> members(list).insert(
        r.spec_index(),
    ).contains(i) by {
        if members(list).contains(i) {
            let k = choose|k: int| 0 <= k < list.len() && (#[trigger] list[k]).spec_index() == i;
            assert(longer[k].spec_index() == i);
        }
        if i == r.spec_index() {
            assert(longer[list.len() as int].spec_index() == i);
        }
        if members(longer).contains(i) && i != r.spec_index() {
            let k = choose|k: int|
                0 <= k < longer.len() && (#[trigger] longer[k]).spec_index() == i;
            assert(list[k].spec_index() == i);
        }
    }
    if !members(list).contains(r.spec_index()) {
        assert(forall|k: int|
            0 <= k < list.len() ==> (#[trigger] list[k]).spec_index() != r.spec_index());
    }
}

proof fn lemma_members_remove<R: Register>(list: Seq<R>, at: int)
    requires
        distinct(list),
        0 <= at < list.len(),
    ensures
        members(list.remove(at)) =~= members(list).remove(list[at].spec_index()),
        members(list).contains(list[at].spec_index()),
        distinct(list.remove(at)),
{
    let shorter = list.remove(at);
    assert forall|k: int| 0 <= k < shorter.len() implies #[trigger] shorter[k] == list[if k < at {
        k
    } else {
        k + 1
    }] by {}
    assert forall|i: u8| members(shorter).contains(i) <==> members(list).remove(
        list[at].spec_index(),
    ).contains(i) by {
        if members(shorter).contains(i) {
            let k = choose|k: int|
                0 <= k < shorter.len() && (#[trigger] shorter[k]).spec_index() == i;
            let m = if k < at {
                k
            } else {
                k + 1
            };
            assert(list[m].spec_index() == i);
            assert(list[at].spec_index() != i);
        }
        if members(list).contains(i) && i != list[at].spec_index() {
            let k = choose|k: int| 0 <= k < list.len() && (#[trigger] list[k]).spec_index() == i;
            let m = if k < at {
                k
            } else {
                k - 1
            };
            assert(shorter[m].spec_index() == i);
        }
    }
}

proof fn lemma_members_pop<R: Register>(list: Seq<R>)
    requires
        distinct(list),
        list.len() > 0,
    ensures
        members(list.drop_last()) =~= members(list).remove(list.last().spec_index()),
        members(list).contains(list.last().spec_index()),
        distinct(list.drop_last()),
{
    lemma_members_remove(list, list.len() - 1);
    assert(list.remove(list.len() - 1) =~= list.drop_last());
}

proof fn lemma_members_len<R: Register>(list: Seq<R>)
    requires
        distinct(list),
    ensures
        members(list).finite(),
        members(list).len() <= list.len(),
    decreases list.len(),
{
    if list.len() == 0 {
        assert(members(list) =~= Set::empty());
    } else {
        lemma_members_pop(list);
        lemma_members_len(list.drop_last());
        assert(list.drop_last().push(list.last()) =~= list);
        lemma_members_push(list.drop_last(), list.last());
    }
}

proof fn lemma_without_absent<R: Register>(list: Seq<R>, i: u8)
    requires
        !members(list).contains(i),
    ensures
        without(list, i) == list,
    decreases list.len(),
{
    if list.len() > 0 {
        let shorter = list.drop_last();
        assert(list[list.len() - 1].spec_index() != i);
        assert forall|k: int| 0 <= k < shorter.len() implies (#[trigger] shorter[k]).spec_index()
            != i by {
            assert(list[k].spec_index() != i);
        }
        lemma_without_absent(shorter, i);
        assert(shorter.push(list.last()) =~= list);
    }
}

proof fn lemma_without<R: Register>(list: Seq<R>, k: int)
    requires
        distinct(list),
        0 <= k < list.len(),
    ensures
        without(list, list[k].spec_index()) == list.remove(k),
    decreases list.len(),
{
    let i = list[k].spec_index();
    let shorter = list.drop_last();
    if k == list.len() - 1 {
        lemma_members_pop(list);
        lemma_without_absent(shorter, i);
        assert(list.remove(k) =~= shorter);
    } else {
        assert(list[k].spec_index() != list[list.len() - 1].spec_index());
        lemma_without(shorter, k);
        assert(list.remove(k) =~= shorter.remove(k).push(list.last()));
    }
}

/// Some destination is to be given the value of register `a`.
#[verifier::opaque]
spec fn is_source<R: Register>(pred: Seq<Option<R>>, a: u8) -> bool {
    exists|x: u8| #[trigger] in_table(pred, x) && at(pred, x) == a
}

/// What holds between two steps of the algorithm. `pred` maps a destination to
/// its source, `loc` a source to the register that holds its initial value,
/// `done` are the destinations that were written.
spec fn consistent<R: Register>(
    pred: Seq<Option<R>>,
    loc: Seq<Option<R>>,
    ready: Set<u8>,
    todo: Set<u8>,
    done: Set<u8>,
    copies: Seq<(R, R)>,
    tmp: u8,
) -> bool {
    &&& pred.len() == 256
    &&& loc.len() == 256
    &&& !in_table(pred, tmp) && !in_table(loc, tmp) && !ready.contains(tmp)
    // sources are exactly the values that are located
    &&& forall|b: u8| #[trigger] in_table(pred, b) ==> in_table(loc, at(pred, b))
    &&& forall|a: u8| #[trigger] in_table(loc, a) ==> is_source(pred, a)
    // what registers hold
    &&& forall|a: u8| #[trigger] in_table(loc, a) ==> origin(copies, at(loc, a)) == a
    &&& forall|b: u8| #[trigger]
        done.contains(b) ==> in_table(pred, b) && origin(copies, b) == at(pred, b)
    &&& forall|i: u8| !in_table(pred, i) && i != tmp ==> #[trigger] origin(copies, i) == i
    // no value that is located lies in a register that is ready to be written
    &&& forall|i: u8, a: u8| #[trigger]
        ready.contains(i) && #[trigger] in_table(loc, a) ==> at(loc, a) != i
    &&& forall|a: u8| #[trigger]
        in_table(loc, a) ==> at(loc, a) == a || at(loc, a) == tmp || (done.contains(at(loc, a)) && at(
            pred,
            at(loc, a),
        ) == a)
    &&& forall|b: u8| #[trigger]
        in_table(pred, b) && !done.contains(b) ==> ready.contains(b) || (in_table(loc, b) && at(loc, b) == b)
    // a value that is still in its place was not copied yet
    &&& forall|x: u8| #[trigger]
        done.contains(x) && at(pred, at(pred, x)) != at(pred, x) ==> at(loc, at(pred, x)) != at(
            pred,
            x,
        )
    &&& forall|x: u8| #[trigger]
        done.contains(x) && !in_table(pred, at(pred, x)) ==> at(loc, at(pred, x)) != at(pred, x)
    // the same of the value that was put aside
    &&& forall|x: u8| #[trigger] done.contains(x) ==> at(loc, at(pred, x)) != tmp
    &&& forall|a: u8| #[trigger]
        in_table(loc, a) && at(loc, a) == tmp ==> in_table(pred, a) && at(pred, a) != a && (ready.contains(a)
            || done.contains(a))
    // progress
    &&& forall|b: u8| #[trigger]
        todo.contains(b) ==> in_table(pred, b) && (!done.contains(b) || at(loc, at(pred, b)) == b)
    &&& forall|b: u8| #[trigger]
        in_table(pred, b) ==> done.contains(b) || ready.contains(b) || todo.contains(b) || (at(pred, b)
            == b && at(loc, b) == b)
    &&& forall|b: u8| #[trigger]
        done.contains(b) && at(pred, b) != b && in_table(loc, b) ==> at(loc, b) != b
    &&& forall|b: u8| #[trigger] ready.contains(b) && done.contains(b) ==> at(pred, b) == b
}

/// One copy to the ready destination `b`.
proof fn lemma_copy_step<R: Register>(
    pred: Seq<Option<R>>,
    loc: Seq<Option<R>>,
    ready: Set<u8>,
    todo: Set<u8>,
    done: Set<u8>,
    copies: Seq<(R, R)>,
    tmp: u8,
    b: R,
    a: R,
    c: R,
)
    requires
        consistent(pred, loc, ready, todo, done, copies, tmp),
        ready.contains(b.spec_index()),
        pred[b.spec_index() as int] == Some(a),
        loc[a.spec_index() as int] == Some(c),
    ensures
        consistent(
            pred,
            loc.update(a.spec_index() as int, Some(b)),
            if a.spec_index() == c.spec_index() {
                ready.remove(b.spec_index()).insert(a.spec_index())
            } else {
                ready.remove(b.spec_index())
            },
            todo.remove(c.spec_index()),
            done.insert(b.spec_index()),
            copies.push((b, c)),
            tmp,
        ),
        a.spec_index() == c.spec_index() ==> !ready.contains(a.spec_index()),
        done.contains(b.spec_index()) ==> a.spec_index() != c.spec_index(),
{
    lemma_origin_push(copies, b, c);
    let bi = b.spec_index();
    let ai = a.spec_index();
    let ci = c.spec_index();
    assert(in_table(pred, bi) && at(pred, bi) == ai);
    assert(in_table(loc, ai) && at(loc, ai) == ci);
    let loc2 = loc.update(ai as int, Some(b));
    assert(forall|i: u8| #[trigger] in_table(loc2, i) == in_table(loc, i));
    assert(forall|i: u8| #[trigger] at(loc2, i) == if i == ai {
        bi
    } else {
        at(loc, i)
    });
}

/// The destinations that wait for each other in a cycle when nothing is ready.
spec fn blocked<R: Register>(pred: Seq<Option<R>>, done: Set<u8>) -> Set<u8> {
    Set::new(|b: u8| in_table(pred, b) && !done.contains(b) && at(pred, b) != b)
}

/// Some blocked destination needs the value of register `b`.
#[verifier::opaque]
spec fn waits_for<R: Register>(pred: Seq<Option<R>>, done: Set<u8>, b: u8) -> bool {
    exists|x: u8| #[trigger] blocked(pred, done).contains(x) && at(pred, x) == b
}

/// When nothing is ready, the blocked destinations wait for each other, and the
/// scratch register is free: the sources of blocked destinations are blocked, so
/// the value of a destination that was written is not waited for.
proof fn lemma_blocked_is_closed<R: Register>(
    pred: Seq<Option<R>>,
    loc: Seq<Option<R>>,
    todo: Set<u8>,
    done: Set<u8>,
    copies: Seq<(R, R)>,
    tmp: u8,
)
    requires
        consistent(pred, loc, Set::empty(), todo, done, copies, tmp),
    ensures
        forall|b: u8| #[trigger]
            blocked(pred, done).contains(b) ==> waits_for(pred, done, b),
        forall|a: u8| #[trigger] in_table(loc, a) ==> at(loc, a) != tmp,
{
    let n = blocked(pred, done);
    let f = |b: u8| at(pred, b);
    let image = n.map(f);
    assert forall|b: u8| #[trigger] n.contains(b) implies waits_for(pred, done, b) by {
        reveal(waits_for);
        assert(in_table(loc, b));
        reveal(is_source);
        let x = choose|x: u8| #[trigger] in_table(pred, x) && at(pred, x) == b;
        assert(n.contains(x));
    }
    assert forall|b: u8| n.contains(b) implies image.contains(b) by {
        reveal(waits_for);
        let x = choose|x: u8| #[trigger] n.contains(x) && at(pred, x) == b;
        assert(f(x) == b);
    }
    broadcast use full_set_properties;

    lemma_len_subset(n, Set::<u8>::full());
    lemma_map_size_bound(n, image, f);
    lemma_len_subset(n, image);
    lemma_subset_equality(n, image);
    assert forall|a: u8| #[trigger] in_table(loc, a) implies at(loc, a) != tmp by {
        if at(loc, a) == tmp {
            reveal(is_source);
            let x = choose|x: u8| #[trigger] in_table(pred, x) && at(pred, x) == a;
            assert(n.contains(x));
            assert(image.contains(f(x)));
            assert(n.contains(a));
        }
    }
}

/// The value of the blocked destination `b` is put aside, which makes it ready.
proof fn lemma_break_cycle<R: Register>(
    pred: Seq<Option<R>>,
    loc: Seq<Option<R>>,
    todo: Set<u8>,
    done: Set<u8>,
    copies: Seq<(R, R)>,
    tmp: R,
    b: R,
    d: R,
)
    requires
        consistent(pred, loc, Set::empty(), todo, done, copies, tmp.spec_index()),
        todo.contains(b.spec_index()),
        at(loc, at(pred, b.spec_index())) != b.spec_index(),
        loc[b.spec_index() as int] == Some(d),
    ensures
        consistent(
            pred,
            loc.update(b.spec_index() as int, Some(tmp)),
            Set::empty().insert(b.spec_index()),
            todo.remove(b.spec_index()),
            done,
            copies.push((tmp, d)),
            tmp.spec_index(),
        ),
        !todo.remove(b.spec_index()).is_empty(),
{
    lemma_origin_push(copies, tmp, d);
    lemma_blocked_is_closed(pred, loc, todo, done, copies, tmp.spec_index());
    let bi = b.spec_index();
    let t = tmp.spec_index();
    assert(in_table(pred, bi));
    assert(in_table(loc, bi));
    assert(at(pred, bi) != bi) by {
        if at(pred, bi) == bi {
            assert(!done.contains(bi));
            assert(at(loc, bi) == bi);
        }
    }
    assert(!done.contains(bi));
    assert(at(loc, bi) == bi);
    let loc2 = loc.update(bi as int, Some(tmp));
    assert(forall|i: u8| #[trigger] in_table(loc2, i) == in_table(loc, i));
    assert(forall|i: u8| #[trigger] at(loc2, i) == if i == bi {
        t
    } else {
        at(loc, i)
    });
    assert(blocked(pred, done).contains(bi));
    reveal(waits_for);
    let x = choose|x: u8| #[trigger] blocked(pred, done).contains(x) && at(pred, x) == bi;
    assert(todo.remove(bi).contains(x));
}

/// The destinations that were not written yet.
spec fn pending<R: Register>(pred: Seq<Option<R>>, done: Set<u8>) -> Set<u8> {
    Set::new(|b: u8| in_table(pred, b) && !done.contains(b))
}

proof fn lemma_pending<R: Register>(pred: Seq<Option<R>>, done: Set<u8>, b: u8)
    requires
        in_table(pred, b),
    ensures
        pending(pred, done).finite(),
        pending(pred, done.insert(b)).finite(),
        done.contains(b) ==> pending(pred, done.insert(b)) =~= pending(pred, done),
        !done.contains(b) ==> pending(pred, done.insert(b)).len() < pending(pred, done).len(),
{
    broadcast use full_set_properties;

    lemma_len_subset(pending(pred, done), Set::<u8>::full());
    lemma_len_subset(pending(pred, done.insert(b)), Set::<u8>::full());
    if !done.contains(b) {
        assert(pending(pred, done.insert(b)) =~= pending(pred, done).remove(b));
    }
}

/// A register that is ready but no destination can be forgotten.
proof fn lemma_drop_ready<R: Register>(
    pred: Seq<Option<R>>,
    loc: Seq<Option<R>>,
    ready: Set<u8>,
    todo: Set<u8>,
    done: Set<u8>,
    copies: Seq<(R, R)>,
    tmp: u8,
    b: u8,
)
    requires
        consistent(pred, loc, ready, todo, done, copies, tmp),
        !in_table(pred, b),
    ensures
        consistent(pred, loc, ready.remove(b), todo, done, copies, tmp),
{
}

/// A destination that already holds its value can be forgotten.
proof fn lemma_satisfied<R: Register>(
    pred: Seq<Option<R>>,
    loc: Seq<Option<R>>,
    todo: Set<u8>,
    done: Set<u8>,
    copies: Seq<(R, R)>,
    tmp: u8,
    b: u8,
)
    requires
        consistent(pred, loc, Set::empty(), todo, done, copies, tmp),
        in_table(pred, b),
        at(loc, at(pred, b)) == b,
    ensures
        consistent(pred, loc, Set::empty(), todo.remove(b), done, copies, tmp),
{
    assert(in_table(loc, at(pred, b)));
}

/// The tables after the first `k` assignments of `args` were entered.
spec fn tables_hold<R: Register>(
    args: Seq<R>,
    k: int,
    pred: Seq<Option<R>>,
    loc: Seq<Option<R>>,
    todo: Seq<R>,
) -> bool {
    &&& pred.len() == 256
    &&& loc.len() == 256
    &&& todo.len() == k
    &&& forall|j: int| 0 <= j < k ==> #[trigger] todo[j] == args[2 * j]
    &&& forall|j: int|
        0 <= j < k ==> pred[(#[trigger] args[2 * j]).spec_index() as int] == Some(args[2 * j + 1])
    &&& forall|j: int|
        0 <= j < k ==> in_table(loc, (#[trigger] args[2 * j + 1]).spec_index())
    &&& forall|i: u8| #[trigger]
        in_table(pred, i) ==> exists|j: int|
            0 <= j < k && (#[trigger] args[2 * j]).spec_index() == i
    &&& forall|i: u8| #[trigger]
        in_table(loc, i) ==> at(loc, i) == i && exists|j: int|
            0 <= j < k && (#[trigger] args[2 * j + 1]).spec_index() == i
}

/// The register is one of the operands or the scratch register.
pub open spec fn is_operand<R: Register>(args: Seq<R>, tmp: R, r: R) -> bool {
    r == tmp || args.contains(r)
}

/// The copies name no other registers than the operands and the scratch register.
pub open spec fn uses_only<R: Register>(copies: Seq<(R, R)>, args: Seq<R>, tmp: R) -> bool {
    forall|i: int|
        0 <= i < copies.len() ==> is_operand(args, tmp, (#[trigger] copies[i]).0) && is_operand(
            args,
            tmp,
            copies[i].1,
        )
}

spec fn list_is_known<R: Register>(list: Seq<R>, args: Seq<R>, tmp: R) -> bool {
    forall|i: int| 0 <= i < list.len() ==> is_operand(args, tmp, #[trigger] list[i])
}

spec fn table_is_known<R: Register>(table: Seq<Option<R>>, args: Seq<R>, tmp: R) -> bool {
    forall|i: int|
        0 <= i < table.len() ==> ((#[trigger] table[i]) matches Some(r) ==> is_operand(
            args,
            tmp,
            r,
        ))
}

/// Only operands and the scratch register were entered.
spec fn is_known<R: Register>(s: Solving<R>, args: Seq<R>, tmp: R) -> bool {
    &&& list_is_known(s.ready, args, tmp)
    &&& list_is_known(s.todo, args, tmp)
    &&& table_is_known(s.pred, args, tmp)
    &&& table_is_known(s.loc, args, tmp)
    &&& uses_only(s.copies, args, tmp)
}

/// What holds between two steps when those destinations are done.
spec fn is_sound<R: Register>(s: Solving<R>, tmp: R, done: Set<u8>) -> bool {
    &&& consistent(
        s.pred,
        s.loc,
        members(s.ready),
        members(s.todo),
        done,
        s.copies,
        tmp.spec_index(),
    )
    &&& distinct(s.ready)
    &&& distinct(s.todo)
}

/// Every step makes this smaller.
spec fn left<R: Register>(s: Solving<R>, done: Set<u8>) -> nat {
    pending(s.pred, done).len() + s.ready.len() + 2 * s.todo.len()
}

/// The steps that are left lead to what all steps lead to.
spec fn leads<R: Register>(s: Solving<R>, tmp: R, n: nat, args: Seq<R>) -> bool {
    s.run(tmp, n) == Solving::started(args).run(tmp, 2 * args.len())
}

/// The operands can be copied at once: there are as many sources as destinations,
/// no register is written twice, and the scratch register is none of them.
pub open spec fn is_parallel_copy<R: Register>(args: Seq<R>, tmp: R) -> bool {
    &&& args.len() % 2 == 0
    &&& dests_distinct(args)
    &&& forall|k: int|
        0 <= k < args.len() ==> (#[trigger] args[k]).spec_index() != tmp.spec_index()
}

proof fn lemma_tables<R: Register>(args: Seq<R>, k: int)
    requires
        dests_distinct(args),
        0 <= 2 * k <= args.len(),
    ensures
        tables_hold(
            args,
            k,
            sources(args.take(2 * k)),
            places(args.take(2 * k)),
            dests(args).take(k),
        ),
    decreases k,
{
    if k > 0 {
        lemma_tables(args, k - 1);
        let longer = args.take(2 * k);
        let m = k - 1;
        assert(longer.take(longer.len() - 2) =~= args.take(2 * m));
        let pred0 = sources(args.take(2 * m));
        let loc0 = places(args.take(2 * m));
        let pred = sources(longer);
        let loc = places(longer);
        let b = args[2 * m].spec_index();
        let a = args[2 * m + 1].spec_index();
        assert(pred =~= pred0.update(b as int, Some(args[2 * m + 1])));
        assert(loc =~= loc0.update(a as int, Some(args[2 * m + 1])));
        assert(forall|i: u8| #[trigger] in_table(pred, i) <==> in_table(pred0, i) || i == b);
        assert(forall|i: u8| #[trigger] in_table(loc, i) <==> in_table(loc0, i) || i == a);
        assert forall|j: int| 0 <= j < k implies pred[(
        #[trigger] args[2 * j]).spec_index() as int] == Some(args[2 * j + 1]) by {
            if j < m {
                assert(args[2 * j].spec_index() != args[2 * m].spec_index());
            }
        }
        assert forall|i: u8| #[trigger] in_table(pred, i) implies exists|j: int|
            0 <= j < k && (#[trigger] args[2 * j]).spec_index() == i by {
            if in_table(pred0, i) {
                let j = choose|j: int| 0 <= j < m && (#[trigger] args[2 * j]).spec_index() == i;
                assert(args[2 * j].spec_index() == i);
            } else {
                assert(args[2 * m].spec_index() == i);
            }
        }
        assert forall|i: u8| #[trigger] in_table(loc, i) implies at(loc, i) == i && exists|j: int|
            0 <= j < k && (#[trigger] args[2 * j + 1]).spec_index() == i by {
            if i == a {
                assert(args[2 * m + 1].spec_index() == i);
            } else {
                assert(in_table(loc0, i));
                assert(at(loc0, i) == i);
                let j = choose|j: int| 0 <= j < m && (#[trigger] args[2 * j + 1]).spec_index() == i;
                assert(args[2 * j + 1].spec_index() == i);
            }
        }
    }
}

proof fn lemma_tables_are_known<R: Register>(args: Seq<R>, tmp: R, k: int)
    requires
        0 <= 2 * k <= args.len(),
    ensures
        sources(args.take(2 * k)).len() == 256,
        places(args.take(2 * k)).len() == 256,
        table_is_known(sources(args.take(2 * k)), args, tmp),
        table_is_known(places(args.take(2 * k)), args, tmp),
    decreases k,
{
    if k > 0 {
        lemma_tables_are_known(args, tmp, k - 1);
        let longer = args.take(2 * k);
        assert(longer.take(longer.len() - 2) =~= args.take(2 * (k - 1)));
        let source = longer[longer.len() - 1];
        assert(source == args[2 * k - 1]);
        assert(is_operand(args, tmp, source));
    }
}

/// The registers that nothing reads are those of the list without a place.
proof fn lemma_unread<R: Register>(list: Seq<R>, loc: Seq<Option<R>>)
    requires
        distinct(list),
        loc.len() == 256,
    ensures
        distinct(unread(list, loc)),
        unread(list, loc).len() <= list.len(),
        forall|i: u8| #[trigger]
            members(unread(list, loc)).contains(i) <==> members(list).contains(i) && !in_table(
                loc,
                i,
            ),
        forall|k: int|
            0 <= k < unread(list, loc).len() ==> list.contains(#[trigger] unread(list, loc)[k]),
    decreases list.len(),
{
    if list.len() == 0 {
        assert(members(list) =~= Set::empty());
    } else {
        let shorter = list.drop_last();
        lemma_members_pop(list);
        lemma_unread(shorter, loc);
        let before = unread(shorter, loc);
        lemma_members_push(before, list.last());
        assert forall|k: int| 0 <= k < unread(list, loc).len() implies list.contains(
            #[trigger] unread(list, loc)[k],
        ) by {
            if k < before.len() {
                assert(shorter.contains(before[k]));
                let m = choose|m: int| 0 <= m < shorter.len() && shorter[m] == before[k];
                assert(list[m] == before[k]);
            } else {
                assert(list[list.len() - 1] == list.last());
            }
        }
    }
}

/// Before the first copy, and no more steps are needed than are allowed.
proof fn lemma_started<R: Register>(args: Seq<R>, tmp: R)
    requires
        is_parallel_copy(args, tmp),
    ensures
        ({
            let s = Solving::started(args);
            &&& is_sound(s, tmp, Set::empty())
            &&& is_known(s, args, tmp)
            &&& left(s, Set::empty()) <= 2 * args.len()
            &&& tables_hold(args, args.len() as int / 2, s.pred, s.loc, s.todo)
            &&& s.todo.len() == 0 ==> s.ready.len() == 0
        }),
{
    let s = Solving::started(args);
    let n = args.len() as int / 2;
    lemma_tables(args, n);
    lemma_tables_are_known(args, tmp, n);
    assert(args.take(2 * n) =~= args);
    assert(dests(args).take(n) =~= dests(args));
    assert forall|i: int, j: int| 0 <= i < j < s.todo.len() implies (
    #[trigger] s.todo[i]).spec_index() != (#[trigger] s.todo[j]).spec_index() by {
        assert(args[2 * i].spec_index() != args[2 * j].spec_index());
    }
    lemma_unread(s.todo, s.loc);
    assert forall|k: int| 0 <= k < s.todo.len() implies is_operand(
        args,
        tmp,
        #[trigger] s.todo[k],
    ) by {
        assert(args.contains(args[2 * k]));
    }
    assert forall|k: int| 0 <= k < s.ready.len() implies is_operand(
        args,
        tmp,
        #[trigger] s.ready[k],
    ) by {
        assert(s.todo.contains(s.ready[k]));
        let m = choose|m: int| 0 <= m < s.todo.len() && s.todo[m] == s.ready[k];
        assert(is_operand(args, tmp, s.todo[m]));
    }
    let t = tmp.spec_index();
    assert(!in_table(s.pred, t)) by {
        if in_table(s.pred, t) {
            let j = choose|j: int| 0 <= j < n && (#[trigger] args[2 * j]).spec_index() == t;
            assert(false);
        }
    }
    assert(!in_table(s.loc, t)) by {
        if in_table(s.loc, t) {
            let j = choose|j: int| 0 <= j < n && (#[trigger] args[2 * j + 1]).spec_index() == t;
            assert(false);
        }
    }
    assert forall|b: u8| #[trigger] in_table(s.pred, b) implies {
        &&& in_table(s.loc, at(s.pred, b))
        &&& members(s.todo).contains(b)
        &&& members(s.ready).contains(b) || in_table(s.loc, b)
    } by {
        let j = choose|j: int| 0 <= j < n && (#[trigger] args[2 * j]).spec_index() == b;
        assert(in_table(s.loc, args[2 * j + 1].spec_index()));
        assert(s.todo[j].spec_index() == b);
    }
    assert forall|a: u8| #[trigger] in_table(s.loc, a) implies is_source(s.pred, a) by {
        let j = choose|j: int| 0 <= j < n && (#[trigger] args[2 * j + 1]).spec_index() == a;
        let x = args[2 * j].spec_index();
        reveal(is_source);
        assert(in_table(s.pred, x) && at(s.pred, x) == a);
    }
    assert forall|b: u8| #[trigger] members(s.todo).contains(b) implies in_table(s.pred, b) by {
        let j = choose|j: int| 0 <= j < s.todo.len() && (#[trigger] s.todo[j]).spec_index() == b;
        assert(args[2 * j].spec_index() == b);
    }
    lemma_members_len(s.todo);
    lemma_len_subset(pending(s.pred, Set::empty()), members(s.todo));
}

/// A register that is ready is written.
proof fn lemma_written<R: Register>(s: Solving<R>, tmp: R, done: Set<u8>) -> (after: Set<u8>)
    requires
        is_sound(s, tmp, done),
        s.ready.len() > 0,
    ensures
        is_sound(s.written(), tmp, after),
        left(s.written(), after) < left(s, done),
        s.pred[s.ready.last().spec_index() as int] matches Some(a)
            ==> s.loc[a.spec_index() as int] is Some,
{
    let b = s.ready.last();
    let bi = b.spec_index();
    lemma_members_pop(s.ready);
    match s.pred[bi as int] {
        None => {
            lemma_drop_ready(
                s.pred,
                s.loc,
                members(s.ready),
                members(s.todo),
                done,
                s.copies,
                tmp.spec_index(),
                bi,
            );
            done
        },
        Some(a) => {
            let ai = a.spec_index();
            assert(in_table(s.pred, bi) && at(s.pred, bi) == ai);
            assert(in_table(s.loc, ai));
            let c = s.loc[ai as int]->Some_0;
            let ci = c.spec_index();
            lemma_copy_step(
                s.pred,
                s.loc,
                members(s.ready),
                members(s.todo),
                done,
                s.copies,
                tmp.spec_index(),
                b,
                a,
                c,
            );
            lemma_pending(s.pred, done, bi);
            if members(s.todo).contains(ci) {
                let k = choose|k: int|
                    0 <= k < s.todo.len() && (#[trigger] s.todo[k]).spec_index() == ci;
                lemma_members_remove(s.todo, k);
                lemma_without(s.todo, k);
            } else {
                lemma_without_absent(s.todo, ci);
                assert(members(s.todo).remove(ci) =~= members(s.todo));
            }
            lemma_members_push(s.ready.drop_last(), a);
            done.insert(bi)
        },
    }
}

/// What the last destination holds is put aside, unless it holds its value.
proof fn lemma_put_aside<R: Register>(s: Solving<R>, tmp: R, done: Set<u8>)
    requires
        is_sound(s, tmp, done),
        s.ready.len() == 0,
        s.todo.len() > 0,
    ensures
        is_sound(s.put_aside(tmp), tmp, done),
        left(s.put_aside(tmp), done) < left(s, done),
        s.put_aside(tmp).todo.len() == 0 ==> s.put_aside(tmp).ready.len() == 0,
        ({
            let b = s.todo.last().spec_index();
            &&& in_table(s.pred, b)
            &&& in_table(s.loc, at(s.pred, b))
            &&& at(s.loc, at(s.pred, b)) != b ==> in_table(s.loc, b)
        }),
{
    let b = s.todo.last();
    let bi = b.spec_index();
    let todo = s.todo.drop_last();
    lemma_members_pop(s.todo);
    assert(members(s.ready) =~= Set::empty());
    assert(in_table(s.pred, bi));
    assert(in_table(s.loc, at(s.pred, bi)));
    if at(s.loc, at(s.pred, bi)) != bi {
        assert(in_table(s.loc, bi));
        lemma_break_cycle(
            s.pred,
            s.loc,
            members(s.todo),
            done,
            s.copies,
            tmp,
            b,
            s.loc[bi as int]->Some_0,
        );
        lemma_members_push(s.ready, b);
        if todo.len() == 0 {
            assert(members(todo) =~= Set::empty());
        }
    } else {
        lemma_satisfied(
            s.pred,
            s.loc,
            members(s.todo),
            done,
            s.copies,
            tmp.spec_index(),
            bi,
        );
    }
}

proof fn lemma_without_is_known<R: Register>(list: Seq<R>, i: u8, args: Seq<R>, tmp: R)
    requires
        list_is_known(list, args, tmp),
    ensures
        list_is_known(without(list, i), args, tmp),
    decreases list.len(),
{
    if list.len() > 0 {
        assert(is_operand(args, tmp, list[list.len() - 1]));
        lemma_without_is_known(list.drop_last(), i, args, tmp);
    }
}

proof fn lemma_step_is_known<R: Register>(s: Solving<R>, tmp: R, done: Set<u8>, args: Seq<R>)
    requires
        is_sound(s, tmp, done),
        is_known(s, args, tmp),
        !s.finished(),
    ensures
        is_known(s.step(tmp), args, tmp),
{
    if s.ready.len() > 0 {
        lemma_written(s, tmp, done);
        let b = s.ready[s.ready.len() - 1];
        assert(is_operand(args, tmp, b));
        if let Some(a) = s.pred[b.spec_index() as int] {
            lemma_without_is_known(
                s.todo,
                s.loc[a.spec_index() as int]->Some_0.spec_index(),
                args,
                tmp,
            );
        }
    } else {
        lemma_put_aside(s, tmp, done);
        assert(is_operand(args, tmp, s.todo[s.todo.len() - 1]));
    }
}

/// The steps lead to the end.
proof fn lemma_run<R: Register>(
    s: Solving<R>,
    tmp: R,
    n: nat,
    done: Set<u8>,
    args: Seq<R>,
) -> (after: Set<u8>)
    requires
        is_sound(s, tmp, done),
        is_known(s, args, tmp),
        left(s, done) <= n,
    ensures
        s.run(tmp, n).finished(),
        s.run(tmp, n).pred == s.pred,
        is_sound(s.run(tmp, n), tmp, after),
        is_known(s.run(tmp, n), args, tmp),
    decreases n,
{
    if n == 0 || s.finished() {
        done
    } else {
        lemma_step_is_known(s, tmp, done, args);
        let next = if s.ready.len() > 0 {
            lemma_written(s, tmp, done)
        } else {
            lemma_put_aside(s, tmp, done);
            done
        };
        lemma_run(s.step(tmp), tmp, (n - 1) as nat, next, args)
    }
}

/// The copies that are made one after the other have the effect of all assignments at
/// once, and they touch no other registers than the operands and the scratch register.
pub proof fn solved_copies_act_in_parallel<R: Register>(args: Seq<R>, tmp: R)
    requires
        is_parallel_copy(args, tmp),
    ensures
        acts_in_parallel(solved(args, tmp), args, tmp),
        uses_only(solved(args, tmp), args, tmp),
{
    lemma_started(args, tmp);
    let s = Solving::started(args);
    let done = lemma_run(s, tmp, 2 * args.len(), Set::empty(), args);
    let t = s.run(tmp, 2 * args.len());
    let copies = t.copies;
    assert(members(t.todo) =~= Set::empty());
    assert(members(t.ready) =~= Set::empty());
    assert forall|k: int| 0 <= 2 * k < args.len() implies origin(
        copies,
        (#[trigger] args[2 * k]).spec_index(),
    ) == args[2 * k + 1].spec_index() by {
        let b = args[2 * k].spec_index();
        assert(in_table(t.pred, b) && at(t.pred, b) == args[2 * k + 1].spec_index());
        if !done.contains(b) {
            assert(at(t.pred, b) == b);
            assert(in_table(t.loc, b));
        }
    }
    assert forall|i: u8| !is_dest(args, i) && i != tmp.spec_index() implies #[trigger] origin(
        copies,
        i,
    ) == i by {
        if in_table(t.pred, i) {
            let j = choose|j: int|
                0 <= j < args.len() as int / 2 && (#[trigger] args[2 * j]).spec_index() == i;
            assert(is_dest(args, i));
        }
    }
}

/// Working storage for sequentializing parallel copies, to be reused.
pub struct ParcopySolver<R: Register> {
    ready: Vec<R>,
    todo: Vec<R>,
    pred: Vec<Option<R>>,
    loc: Vec<Option<R>>,
}

impl<R: Register> ParcopySolver<R> {
    spec fn state(self, copies: Seq<(R, R)>) -> Solving<R> {
        Solving {
            ready: self.ready@,
            todo: self.todo@,
            pred: self.pred@,
            loc: self.loc@,
            copies,
        }
    }

    pub fn new() -> (solver: Self) {
        Self { ready: Vec::new(), todo: Vec::new(), pred: Vec::new(), loc: Vec::new() }
    }

    fn clear(&mut self)
        ensures
            final(self).ready@.len() == 0,
            final(self).todo@.len() == 0,
            final(self).pred@ =~= Seq::new(256, |i: int| None),
            final(self).loc@ =~= Seq::new(256, |i: int| None),
    {
        self.ready.clear();
        self.todo.clear();
        self.pred.clear();
        self.loc.clear();
        let mut i: usize = 0;
        while i < 256
            invariant
                i <= 256,
                self.ready@.len() == 0,
                self.todo@.len() == 0,
                self.pred@ =~= Seq::new(i as nat, |i: int| None),
                self.loc@ =~= Seq::new(i as nat, |i: int| None),
            decreases 256 - i,
        {
            self.pred.push(None);
            self.loc.push(None);
            i += 1;
        }
    }

    /// Enters all assignments and finds the destinations that nothing reads.
    fn start(&mut self, args: &[R])
        requires
            args@.len() % 2 == 0,
        ensures
            final(self).state(Seq::empty()) == Solving::started(args@),
    {
        self.clear();
        assert(args@.take(0) =~= Seq::empty());
        let mut k: usize = 0;
        while k < args.len() / 2
            invariant
                args@.len() % 2 == 0,
                k <= args@.len() / 2,
                self.ready@.len() == 0,
                self.pred@.len() == 256,
                self.loc@.len() == 256,
                self.pred@ == sources(args@.take(2 * k as int)),
                self.loc@ == places(args@.take(2 * k as int)),
                self.todo@ =~= dests(args@).take(k as int),
            decreases args.len() / 2 - k,
        {
            let b: R = args[2 * k];
            let a: R = args[2 * k + 1];
            self.loc.set(a.bit_index() as usize, Some(a));
            self.pred.set(b.bit_index() as usize, Some(a));
            self.todo.push(b);
            proof {
                let longer = args@.take(2 * (k + 1));
                assert(longer.take(longer.len() - 2) =~= args@.take(2 * k as int));
                assert(self.pred@ =~= sources(longer));
                assert(self.loc@ =~= places(longer));
            }
            k += 1;
        }
        proof {
            assert(args@.take(2 * k as int) =~= args@);
            assert(self.todo@ =~= dests(args@));
            assert(self.todo@.take(0) =~= Seq::empty());
            assert(self.ready@ =~= Seq::empty());
        }
        let mut k: usize = 0;
        while k < self.todo.len()
            invariant
                k <= self.todo@.len(),
                self.loc@.len() == 256,
                self.pred@ == sources(args@),
                self.loc@ == places(args@),
                self.todo@ == dests(args@),
                self.ready@ == unread(self.todo@.take(k as int), self.loc@),
            decreases self.todo.len() - k,
        {
            let b: R = self.todo[k];
            assert(self.todo@.take(k + 1).drop_last() =~= self.todo@.take(k as int));
            if self.loc[b.bit_index() as usize].is_none() {
                self.ready.push(b);
            }
            k += 1;
        }
        assert(self.todo@.take(k as int) =~= self.todo@);
    }

    /// The position of a register in the list of what is left to do.
    fn position_in_todo(&self, i: u8) -> (found: Option<usize>)
        ensures
            match found {
                Some(k) => k < self.todo@.len() && self.todo@[k as int].spec_index() == i,
                None => !members(self.todo@).contains(i),
            },
    {
        let mut k: usize = 0;
        while k < self.todo.len()
            invariant
                k <= self.todo@.len(),
                forall|j: int| 0 <= j < k ==> (#[trigger] self.todo@[j]).spec_index() != i,
            decreases self.todo.len() - k,
        {
            if self.todo[k].bit_index() == i {
                return Some(k);
            }
            k += 1;
        }
        None
    }

    /// Writes all destinations that are ready, and those that become ready by
    /// that.
    fn drain_ready(
        &mut self,
        copies: &mut Vec<(R, R)>,
        Ghost(tmp): Ghost<R>,
        Ghost(args): Ghost<Seq<R>>,
        done: Ghost<Set<u8>>,
        n: Ghost<nat>,
    ) -> (r: (Ghost<Set<u8>>, Ghost<nat>))
        requires
            is_sound(old(self).state(old(copies)@), tmp, done@),
            left(old(self).state(old(copies)@), done@) <= n@,
            leads(old(self).state(old(copies)@), tmp, n@, args),
        ensures
            is_sound(final(self).state(final(copies)@), tmp, r.0@),
            left(final(self).state(final(copies)@), r.0@) <= r.1@,
            left(final(self).state(final(copies)@), r.0@) <= left(
                old(self).state(old(copies)@),
                done@,
            ),
            leads(final(self).state(final(copies)@), tmp, r.1@, args),
            final(self).ready@.len() == 0,
    {
        let mut done: Ghost<Set<u8>> = done;
        let mut n: Ghost<nat> = n;
        let ghost most = left(self.state(copies@), done@);
        loop
            invariant
                is_sound(self.state(copies@), tmp, done@),
                left(self.state(copies@), done@) <= n@,
                left(self.state(copies@), done@) <= most,
                leads(self.state(copies@), tmp, n@, args),
            ensures
                self.ready@.len() == 0,
            decreases left(self.state(copies@), done@),
        {
            let ghost before = self.state(copies@);
            let b: R = match self.ready.pop() {
                None => {
                    break;
                },
                Some(b) => b,
            };
            let ghost after = lemma_written(before, tmp, done@);
            if let Some(a) = self.pred[b.bit_index() as usize] {
                let ai: u8 = a.bit_index();
                let c: R = self.loc[ai as usize].unwrap();
                let ci: u8 = c.bit_index();
                copies.push((b, c));
                match self.position_in_todo(ci) {
                    Some(k) => {
                        proof {
                            lemma_without(before.todo, k as int);
                        }
                        self.todo.remove(k);
                    },
                    None => {
                        proof {
                            lemma_without_absent(before.todo, ci);
                        }
                    },
                }
                self.loc.set(ai as usize, Some(b));
                if ai == ci {
                    self.ready.push(a);
                }
            }
            proof {
                assert(self.state(copies@) =~= before.step(tmp));
                done@ = after;
                n@ = (n@ - 1) as nat;
            }
        }
        (done, n)
    }

    /// Takes a list of argument registers as alternating [to, from] pairs
    /// and sequentializes them, returning the copies (to, from) in the order
    /// in which they are to be run.
    pub fn parcopy(&mut self, args: &[R], tmp: R) -> (copies: Vec<(R, R)>)
        requires
            is_parallel_copy(args@, tmp),
        ensures
            copies@ == solved(args@, tmp),
            acts_in_parallel(copies@, args@, tmp),
            uses_only(copies@, args@, tmp),
    {
        self.start(args);
        let mut copies: Vec<(R, R)> = Vec::new();
        let mut done: Ghost<Set<u8>> = Ghost(Set::empty());
        let mut n: Ghost<nat> = Ghost(2 * args@.len());
        proof {
            assert(copies@ =~= Seq::empty());
            lemma_started(args@, tmp);
        }
        while self.todo.len() > 0
            invariant
                is_sound(self.state(copies@), tmp, done@),
                left(self.state(copies@), done@) <= n@,
                leads(self.state(copies@), tmp, n@, args@),
                self.todo@.len() == 0 ==> self.ready@.len() == 0,
            ensures
                self.state(copies@).finished(),
            decreases left(self.state(copies@), done@),
        {
            let (new_done, new_n) = self.drain_ready(
                &mut copies,
                Ghost(tmp),
                Ghost(args@),
                done,
                n,
            );
            done = new_done;
            n = new_n;
            let ghost before = self.state(copies@);
            let b: R = match self.todo.pop() {
                None => {
                    break;
                },
                Some(b) => b,
            };
            proof {
                lemma_put_aside(before, tmp, done@);
            }
            let bi: u8 = b.bit_index();
            let a: R = self.pred[bi as usize].unwrap();
            let c: R = self.loc[a.bit_index() as usize].unwrap();
            if bi != c.bit_index() {
                let d: R = self.loc[bi as usize].unwrap();
                copies.push((tmp, d));
                self.loc.set(bi as usize, Some(tmp));
                self.ready.push(b);
            }
            proof {
                assert(self.state(copies@) =~= before.step(tmp));
                n@ = (n@ - 1) as nat;
            }
        }
        proof {
            solved_copies_act_in_parallel(args@, tmp);
        }
        copies
    }
}

} // verus!
