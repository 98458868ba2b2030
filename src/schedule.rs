use std::collections::HashMap;
use vstd::prelude::*;

use crate::access::Access;
use crate::borrows::Borrows;
use crate::commandbuffer::{is_blank, CommandBuffer};
use crate::error::{Error, Result};
use hecs::Entity;

verus! {

broadcast use vstd::std_specs::hash::group_hash_axioms;

/// A system with its name and the accesses it declares; `F` is the work it
/// runs.
pub struct DynamicSystem<F> {
    pub func: F,
    pub name: String,
    pub borrows: Borrows,
}

impl<F> DynamicSystem<F> {
    /// Wraps a runnable with its name and declared accesses.
    pub fn new(func: F, name: String, borrows: Borrows) -> (r: DynamicSystem<F>)
        ensures
            r.func == func,
            r.name == name,
            r.borrows == borrows,
    {
        DynamicSystem { func, name, borrows }
    }

    /// The system's name.
    pub fn name(&self) -> (r: &str)
        ensures
            r@ == self.name@,
    {
        self.name.as_str()
    }

    /// The accesses the system declares.
    pub fn borrows(&self) -> (r: &Borrows)
        ensures
            *r == self.borrows,
    {
        &self.borrows
    }

    /// Runs the system once against `context`.
    pub fn execute<C>(&mut self, context: &C) -> (r: Result<()>)
        where
            F: System<C>,
        ensures
            F::ran(old(self).func, *context, final(self).func, r),
            final(self).name == old(self).name,
            final(self).borrows == old(self).borrows,
    {
        self.func.execute(context)
    }

    /// The work the system runs.
    pub fn func_mut(&mut self) -> (r: &mut F)
        ensures
            *r == old(self).func,
            final(self).func == *final(r),
            final(self).name == old(self).name,
            final(self).borrows == old(self).borrows,
    {
        &mut self.func
    }
}

/// Some access of `s` conflicts with some access of `t`.
pub open spec fn lists_conflict(s: Seq<Access>, t: Seq<Access>) -> bool {
    exists|k: int, j: int|
        0 <= k < s.len() && 0 <= j < t.len() && #[trigger] s[k].conflicts_with(#[trigger] t[j])
}

/// Some system of `batch` conflicts with the accesses `b`.
pub open spec fn conflicts_with_batch<F>(batch: Seq<DynamicSystem<F>>, b: Seq<Access>) -> bool {
    exists|i: int| 0 <= i < batch.len() && lists_conflict(#[trigger] batch[i].borrows@, b)
}

/// No two distinct systems of `batch` conflict.
pub open spec fn conflict_free<F>(batch: Seq<DynamicSystem<F>>) -> bool {
    forall|i: int, j: int|
        0 <= i < batch.len() && 0 <= j < batch.len() && i != j ==> !lists_conflict(
            #[trigger] batch[i].borrows@,
            #[trigger] batch[j].borrows@,
        )
}

/// The builder's state after adding `s`: appended to the open batch when it
/// conflicts with none of its systems, otherwise the open batch is sealed and
/// `s` opens the next one.
pub open spec fn added<F>(
    state: (Seq<Seq<DynamicSystem<F>>>, Seq<DynamicSystem<F>>),
    s: DynamicSystem<F>,
) -> (Seq<Seq<DynamicSystem<F>>>, Seq<DynamicSystem<F>>) {
    if conflicts_with_batch(state.1, s.borrows@) {
        (state.0.push(state.1), seq![s])
    } else {
        (state.0, state.1.push(s))
    }
}

/// The batches once the open batch is sealed; an empty open batch is
/// dropped.
pub open spec fn sealed<F>(state: (Seq<Seq<DynamicSystem<F>>>, Seq<DynamicSystem<F>>)) -> Seq<
    Seq<DynamicSystem<F>>,
> {
    if state.1.len() == 0 {
        state.0
    } else {
        state.0.push(state.1)
    }
}

/// The builder's state after adding each of `ss` in order.
pub open spec fn added_all<F>(
    state: (Seq<Seq<DynamicSystem<F>>>, Seq<DynamicSystem<F>>),
    ss: Seq<DynamicSystem<F>>,
) -> (Seq<Seq<DynamicSystem<F>>>, Seq<DynamicSystem<F>>)
    decreases ss.len(),
{
    if ss.len() == 0 {
        state
    } else {
        added(added_all(state, ss.drop_last()), ss.last())
    }
}

/// The systems of a list of batches, batch after batch.
pub open spec fn systems_of<F>(batches: Seq<Seq<DynamicSystem<F>>>) -> Seq<DynamicSystem<F>>
    decreases batches.len(),
{
    if batches.len() == 0 {
        Seq::empty()
    } else {
        systems_of(batches.drop_last()) + batches.last()
    }
}

/// A group of systems that may run at the same time.
pub struct Batch<F> {
    pub systems: Vec<DynamicSystem<F>>,
}

impl<F> View for Batch<F> {
    type V = Seq<DynamicSystem<F>>;

    open spec fn view(&self) -> Seq<DynamicSystem<F>> {
        self.systems@
    }
}

impl<F> Batch<F> {
    /// An empty batch.
    pub fn new() -> (r: Batch<F>)
        ensures
            r@ == Seq::<DynamicSystem<F>>::empty(),
    {
        Batch { systems: Vec::new() }
    }

    fn push(&mut self, system: DynamicSystem<F>)
        ensures
            final(self)@ == old(self)@.push(system),
    {
        self.systems.push(system)
    }

    /// The batch's systems.
    pub fn systems(&self) -> (r: &Vec<DynamicSystem<F>>)
        ensures
            r@ == self@,
    {
        &self.systems
    }

    /// The batch's systems, for running them.
    pub fn systems_mut(&mut self) -> (r: &mut Vec<DynamicSystem<F>>)
        ensures
            *r == old(self).systems,
            final(self).systems == *final(r),
    {
        &mut self.systems
    }

    /// The number of systems in the batch.
    pub fn len(&self) -> (r: usize)
        ensures
            r == self@.len(),
    {
        self.systems.len()
    }
}

/// The views of a list of batches.
pub open spec fn batch_views<F>(batches: Seq<Batch<F>>) -> Seq<Seq<DynamicSystem<F>>> {
    batches.map_values(|b: Batch<F>| b@)
}

/// Some access of `batch`, or of `extra`, reaches the type `id`; if
/// `exclusive`, one that does so exclusively.
pub open spec fn witnessed<F>(
    batch: Seq<DynamicSystem<F>>,
    extra: Seq<Access>,
    id: u64,
    exclusive: bool,
) -> bool {
    (exists|i: int, k: int|
        0 <= i < batch.len() && 0 <= k < batch[i].borrows@.len() && (#[trigger] batch[i].borrows@[k]).id
            == id && (exclusive ==> batch[i].borrows@[k].exclusive)) || (exists|k: int|
        0 <= k < extra.len() && (#[trigger] extra[k]).id == id && (exclusive ==> extra[k].exclusive))
}

/// `m` holds, for each type that an access of `batch` or `extra` reaches, an
/// entry that is exclusive exactly when one of those accesses is.
pub open spec fn records<F>(
    m: Map<u64, Access>,
    batch: Seq<DynamicSystem<F>>,
    extra: Seq<Access>,
) -> bool {
    &&& forall|i: int, k: int|
        0 <= i < batch.len() && 0 <= k < batch[i].borrows@.len() ==> m.contains_key(
            (#[trigger] batch[i].borrows@[k]).id,
        ) && (batch[i].borrows@[k].exclusive ==> m[batch[i].borrows@[k].id].exclusive)
    &&& forall|k: int|
        0 <= k < extra.len() ==> m.contains_key((#[trigger] extra[k]).id) && (extra[k].exclusive
            ==> m[extra[k].id].exclusive)
    &&& forall|id: u64| #[trigger]
        m.contains_key(id) ==> witnessed(batch, extra, id, m[id].exclusive)
}

/// No access of `b` conflicts with the entry that `m` holds for its type.
pub open spec fn fits(m: Map<u64, Access>, b: Seq<Access>) -> bool {
    forall|j: int|
        0 <= j < b.len() && m.contains_key(#[trigger] b[j].id) ==> !(m[b[j].id].exclusive
            || b[j].exclusive)
}

proof fn lemma_conflict_symmetric(s: Seq<Access>, t: Seq<Access>)
    ensures
        lists_conflict(s, t) == lists_conflict(t, s),
{
    if lists_conflict(s, t) {
        let (k, j) = choose|k: int, j: int|
            0 <= k < s.len() && 0 <= j < t.len() && #[trigger] s[k].conflicts_with(
                #[trigger] t[j],
            );
        assert(t[j].conflicts_with(s[k]));
    }
    if lists_conflict(t, s) {
        let (k, j) = choose|k: int, j: int|
            0 <= k < t.len() && 0 <= j < s.len() && #[trigger] t[k].conflicts_with(
                #[trigger] s[j],
            );
        assert(s[j].conflicts_with(t[k]));
    }
}

proof fn lemma_fits_iff_no_conflict<F>(
    m: Map<u64, Access>,
    batch: Seq<DynamicSystem<F>>,
    b: Seq<Access>,
)
    requires
        records(m, batch, Seq::empty()),
    ensures
        fits(m, b) == !conflicts_with_batch(batch, b),
{
    if conflicts_with_batch(batch, b) {
        let i = choose|i: int| 0 <= i < batch.len() && lists_conflict(#[trigger] batch[i].borrows@, b);
        let (k, j) = choose|k: int, j: int|
            0 <= k < batch[i].borrows@.len() && 0 <= j < b.len()
                && #[trigger] batch[i].borrows@[k].conflicts_with(#[trigger] b[j]);
        let a = batch[i].borrows@[k];
        assert(m.contains_key(a.id));
        assert(m.contains_key(b[j].id));
        assert(!fits(m, b));
    }
    if !fits(m, b) {
        let j = choose|j: int|
            0 <= j < b.len() && m.contains_key(#[trigger] b[j].id) && (m[b[j].id].exclusive
                || b[j].exclusive);
        let id = b[j].id;
        assert(witnessed(batch, Seq::<Access>::empty(), id, m[id].exclusive));
        let (i, k) = choose|i: int, k: int|
            0 <= i < batch.len() && 0 <= k < batch[i].borrows@.len() && (#[trigger] batch[i].borrows@[k]).id
                == id && (m[id].exclusive ==> batch[i].borrows@[k].exclusive);
        assert(batch[i].borrows@[k].conflicts_with(b[j]));
        assert(lists_conflict(batch[i].borrows@, b));
    }
}

/// Incrementally groups systems into batches of systems that do not
/// conflict.
pub struct ScheduleBuilder<F> {
    batches: Vec<Batch<F>>,
    current_batch: Batch<F>,
    current_borrows: HashMap<u64, Access>,
}

impl<F> View for ScheduleBuilder<F> {
    type V = (Seq<Seq<DynamicSystem<F>>>, Seq<DynamicSystem<F>>);

    /// The sealed batches and the open one.
    closed spec fn view(&self) -> (Seq<Seq<DynamicSystem<F>>>, Seq<DynamicSystem<F>>) {
        (batch_views(self.batches@), self.current_batch@)
    }
}

/// In every batch that a well-formed builder holds, sealed or open, no
/// two systems declare conflicting accesses.
pub proof fn lemma_builder_batches_conflict_free<F>(b: &ScheduleBuilder<F>)
    requires
        b.wf(),
    ensures
        forall|i: int| 0 <= i < b@.0.len() ==> conflict_free(#[trigger] b@.0[i]),
        conflict_free(b@.1),
{
    assert forall|i: int| 0 <= i < b@.0.len() implies conflict_free(#[trigger] b@.0[i]) by {
        assert(b@.0[i] == b.batches@[i]@);
    }
}

/// In a batch without conflicts, a system that declares an exclusive access
/// to a type is the only one of the batch that declares any access to it.
pub proof fn lemma_exclusive_access_is_alone<F>(
    batch: Seq<DynamicSystem<F>>,
    i: int,
    k: int,
    j: int,
)
    requires
        conflict_free(batch),
        0 <= i < batch.len(),
        0 <= j < batch.len(),
        i != j,
        0 <= k < batch[i].borrows@.len(),
        batch[i].borrows@[k].exclusive,
    ensures
        forall|l: int|
            0 <= l < batch[j].borrows@.len() ==> (#[trigger] batch[j].borrows@[l]).id
                != batch[i].borrows@[k].id,
{
    assert forall|l: int| 0 <= l < batch[j].borrows@.len() implies (#[trigger] batch[j].borrows@[l]).id
        != batch[i].borrows@[k].id by {
        if batch[j].borrows@[l].id == batch[i].borrows@[k].id {
            assert(batch[i].borrows@[k].conflicts_with(batch[j].borrows@[l]));
            assert(lists_conflict(batch[i].borrows@, batch[j].borrows@));
        }
    }
}

impl<F> ScheduleBuilder<F> {
    /// The builder's invariant: the recorded accesses summarise the open
    /// batch, and no batch holds two conflicting systems.
    pub closed spec fn wf(&self) -> bool {
        &&& records(self.current_borrows@, self.current_batch@, Seq::empty())
        &&& conflict_free(self.current_batch@)
        &&& forall|i: int|
            0 <= i < self.batches@.len() ==> conflict_free(#[trigger] self.batches@[i]@)
    }

    /// An empty builder.
    pub fn new() -> (r: ScheduleBuilder<F>)
        ensures
            r.wf(),
            r@ == (Seq::<Seq<DynamicSystem<F>>>::empty(), Seq::<DynamicSystem<F>>::empty()),
    {
        let r = ScheduleBuilder {
            batches: Vec::new(),
            current_batch: Batch::new(),
            current_borrows: HashMap::new(),
        };
        assert(batch_views(r.batches@) =~= Seq::<Seq<DynamicSystem<F>>>::empty());
        r
    }

    /// True if no access of `borrows` conflicts with the open batch.
    fn check_compatible(&self, borrows: &Borrows) -> (r: bool)
        ensures
            r == fits(self.current_borrows@, borrows@),
    {
        let n = borrows.len();
        let mut j: usize = 0;
        while j < n
            invariant
                n == borrows@.len(),
                j <= n,
                forall|jj: int|
                    0 <= jj < j && self.current_borrows@.contains_key(#[trigger] borrows@[jj].id)
                        ==> !(self.current_borrows@[borrows@[jj].id].exclusive
                        || borrows@[jj].exclusive),
            decreases n - j,
        {
            let b = borrows.get(j);
            match self.current_borrows.get(&b.id) {
                Some(curr) => {
                    if curr.exclusive || b.exclusive {
                        return false;
                    }
                },
                None => {},
            }
            j = j + 1;
        }
        true
    }

    /// Records the accesses of a system joining the open batch; an exclusive
    /// entry is never replaced by a shared one.
    fn add_borrows(&mut self, borrows: &Borrows)
        requires
            records(old(self).current_borrows@, old(self).current_batch@, Seq::empty()),
        ensures
            records(final(self).current_borrows@, final(self).current_batch@, borrows@),
            final(self).current_batch == old(self).current_batch,
            final(self).batches == old(self).batches,
    {
        let n = borrows.len();
        let mut j: usize = 0;
        assert(borrows@.subrange(0, 0) =~= Seq::<Access>::empty());
        while j < n
            invariant
                n == borrows@.len(),
                j <= n,
                records(self.current_borrows@, self.current_batch@, borrows@.subrange(0, j as int)),
                self.current_batch == old(self).current_batch,
                self.batches == old(self).batches,
            decreases n - j,
        {
            let b = borrows.get(j);
            let ghost m0 = self.current_borrows@;
            let ghost pre = borrows@.subrange(0, j as int);
            let ghost post = borrows@.subrange(0, j + 1);
            assert(post =~= pre.push(b));
            let keep = match self.current_borrows.get(&b.id) {
                Some(curr) => curr.exclusive && !b.exclusive,
                None => false,
            };
            if !keep {
                self.current_borrows.insert(b.id, b);
            }
            let ghost m1 = self.current_borrows@;
            let ghost batch = self.current_batch@;
            assert forall|i: int, k: int|
                0 <= i < batch.len() && 0 <= k < batch[i].borrows@.len() implies m1.contains_key(
                (#[trigger] batch[i].borrows@[k]).id,
            ) && (batch[i].borrows@[k].exclusive ==> m1[batch[i].borrows@[k].id].exclusive) by {
                assert(m0.contains_key(batch[i].borrows@[k].id));
            }
            assert forall|k: int|
                0 <= k < post.len() implies m1.contains_key((#[trigger] post[k]).id) && (
            post[k].exclusive ==> m1[post[k].id].exclusive) by {
                if k < pre.len() {
                    assert(post[k] == pre[k]);
                    assert(m0.contains_key(pre[k].id));
                }
            }
            assert forall|id: u64| #[trigger]
                m1.contains_key(id) implies witnessed(batch, post, id, m1[id].exclusive) by {
                if !keep && id == b.id {
                    assert(post[j as int] == b);
                } else {
                    assert(m0.contains_key(id));
                    assert(witnessed(batch, pre, id, m0[id].exclusive));
                    if exists|k: int|
                        0 <= k < pre.len() && (#[trigger] pre[k]).id == id && (m0[id].exclusive
                            ==> pre[k].exclusive) {
                        let k = choose|k: int|
                            0 <= k < pre.len() && (#[trigger] pre[k]).id == id && (
                            m0[id].exclusive ==> pre[k].exclusive);
                        assert(post[k] == pre[k]);
                    }
                }
            }
            j = j + 1;
        }
        assert(borrows@.subrange(0, n as int) =~= borrows@);
    }

    /// Seals the open batch, whether or not it holds any system; the next
    /// system opens a new one.
    pub fn barrier(&mut self)
        requires
            old(self).wf(),
        ensures
            final(self).wf(),
            final(self)@ == (old(self)@.0.push(old(self)@.1), Seq::<DynamicSystem<F>>::empty()),
    {
        let mut batch = Batch::new();
        std::mem::swap(&mut batch, &mut self.current_batch);
        self.batches.push(batch);
        self.current_borrows.clear();
        assert(batch_views(self.batches@) =~= batch_views(old(self).batches@).push(
            old(self).current_batch@,
        ));
        assert forall|i: int| 0 <= i < self.batches@.len() implies conflict_free(
            #[trigger] self.batches@[i]@,
        ) by {
            if i < old(self).batches@.len() {
                assert(self.batches@[i] == old(self).batches@[i]);
            }
        }
    }

    fn add_internal(&mut self, system: DynamicSystem<F>)
        requires
            old(self).wf(),
        ensures
            final(self).wf(),
            final(self)@ == added(old(self)@, system),
    {
        let compatible = self.check_compatible(&system.borrows);
        proof {
            lemma_fits_iff_no_conflict(
                self.current_borrows@,
                self.current_batch@,
                system.borrows@,
            );
        }
        if !compatible {
            self.barrier();
        }
        let ghost open = self.current_batch@;
        assert(!conflicts_with_batch(open, system.borrows@));
        self.add_borrows(&system.borrows);
        self.current_batch.push(system);
        let ghost batch = self.current_batch@;
        assert(batch =~= open.push(system));
        assert forall|i: int, k: int|
            0 <= i < batch.len() && 0 <= k < batch[i].borrows@.len() implies self.current_borrows@.contains_key(
            (#[trigger] batch[i].borrows@[k]).id,
        ) && (batch[i].borrows@[k].exclusive
            ==> self.current_borrows@[batch[i].borrows@[k].id].exclusive) by {
            if i < open.len() {
                assert(batch[i] == open[i]);
            } else {
                assert(batch[i].borrows@[k] == system.borrows@[k]);
            }
        }
        assert forall|id: u64| #[trigger]
            self.current_borrows@.contains_key(id) implies witnessed(
            batch,
            Seq::empty(),
            id,
            self.current_borrows@[id].exclusive,
        ) by {
            let ex = self.current_borrows@[id].exclusive;
            assert(witnessed(open, system.borrows@, id, ex));
            if exists|i: int, k: int|
                0 <= i < open.len() && 0 <= k < open[i].borrows@.len()
                    && (#[trigger] open[i].borrows@[k]).id == id && (ex
                    ==> open[i].borrows@[k].exclusive) {
                let (i, k) = choose|i: int, k: int|
                    0 <= i < open.len() && 0 <= k < open[i].borrows@.len()
                        && (#[trigger] open[i].borrows@[k]).id == id && (ex
                        ==> open[i].borrows@[k].exclusive);
                assert(batch[i] == open[i]);
                assert(batch[i].borrows@[k].id == id);
            } else {
                let k = choose|k: int|
                    0 <= k < system.borrows@.len() && (#[trigger] system.borrows@[k]).id == id
                        && (ex ==> system.borrows@[k].exclusive);
                let last = open.len() as int;
                assert(batch[last] == system);
                assert(batch[last].borrows@[k].id == id);
            }
        }
        assert forall|i: int, j: int|
            0 <= i < batch.len() && 0 <= j < batch.len() && i != j implies !lists_conflict(
            #[trigger] batch[i].borrows@,
            #[trigger] batch[j].borrows@,
        ) by {
            let last = open.len() as int;
            if i == last {
                assert(batch[j] == open[j]);
                assert(!lists_conflict(open[j].borrows@, system.borrows@));
                lemma_conflict_symmetric(open[j].borrows@, system.borrows@);
            } else if j == last {
                assert(batch[i] == open[i]);
                assert(!lists_conflict(open[i].borrows@, system.borrows@));
            } else {
                assert(batch[i] == open[i]);
                assert(batch[j] == open[j]);
            }
        }
    }

    /// Moves every system of `other` into `self`, batch after batch and in
    /// order, as if each had been added here with `add_system`; `other` is
    /// left empty. Systems of the two builders may thus share batches.
    pub fn append(&mut self, other: &mut ScheduleBuilder<F>)
        requires
            old(self).wf(),
            old(other).wf(),
        ensures
            final(self).wf(),
            final(other).wf(),
            final(self)@ == added_all(old(self)@, systems_of(old(other)@.0.push(old(other)@.1))),
            final(other)@ == (Seq::<Seq<DynamicSystem<F>>>::empty(), Seq::<DynamicSystem<F>>::empty()),
    {
        other.barrier();
        let ghost bs = other@.0;
        let ghost s0 = self@;
        let mut batches: Vec<Batch<F>> = Vec::new();
        std::mem::swap(&mut batches, &mut other.batches);
        assert(batch_views(other.batches@) =~= Seq::<Seq<DynamicSystem<F>>>::empty());
        assert(bs.take(0) =~= Seq::<Seq<DynamicSystem<F>>>::empty());
        assert(batch_views(batches@) =~= bs.skip(0));
        while batches.len() > 0
            invariant
                self.wf(),
                other.wf(),
                other@ == (Seq::<Seq<DynamicSystem<F>>>::empty(), Seq::<DynamicSystem<F>>::empty()),
                batches@.len() <= bs.len(),
                batch_views(batches@) == bs.skip(bs.len() - batches@.len()),
                self@ == added_all(s0, systems_of(bs.take(bs.len() - batches@.len()))),
            decreases batches@.len(),
        {
            let ghost done = bs.len() - batches@.len();
            let ghost before = systems_of(bs.take(done));
            assert(batch_views(batches@)[0] == batches@[0]@);
            let ghost old_batches = batches@;
            let mut batch = batches.remove(0);
            assert(batch@ == bs[done]);
            assert forall|x: int| 0 <= x < batches@.len() implies batch_views(batches@)[x] == bs.skip(
                done + 1,
            )[x] by {
                assert(batches@[x] == old_batches[x + 1]);
                assert(batch_views(old_batches)[x + 1] == bs.skip(done)[x + 1]);
            }
            assert(batch_views(batches@) =~= bs.skip(done + 1));
            assert(bs[done].take(0) =~= Seq::<DynamicSystem<F>>::empty());
            assert(before + bs[done].take(0) =~= before);
            assert(batch@ =~= bs[done].skip(0));
            while batch.systems.len() > 0
                invariant
                    self.wf(),
                    0 <= done < bs.len(),
                    batch_views(batches@) == bs.skip(done + 1),
                    batches@.len() == bs.len() - done - 1,
                    batch@.len() <= bs[done].len(),
                    batch@ == bs[done].skip(bs[done].len() - batch@.len()),
                    self@ == added_all(s0, before + bs[done].take(bs[done].len() - batch@.len())),
                decreases batch@.len(),
            {
                let ghost k = bs[done].len() - batch@.len();
                let system = batch.systems.remove(0);
                assert(system == bs[done][k]);
                let ghost prefix = before + bs[done].take(k);
                assert((before + bs[done].take(k + 1)) =~= prefix.push(system));
                assert(prefix.push(system).drop_last() =~= prefix);
                self.add_internal(system);
                assert(batch@ =~= bs[done].skip(k + 1));
            }
            assert(bs[done].take(bs[done].len() as int) =~= bs[done]);
            assert(bs.take(done + 1).drop_last() =~= bs.take(done));
            assert(systems_of(bs.take(done + 1)) == before + bs[done]);
        }
        assert(bs.take(bs.len() as int) =~= bs);
    }

    /// Adds the system that applies the deferred commands to the world, in
    /// a batch of its own: the open batch is sealed first, if it holds any
    /// system, and the next system added opens a new batch.
    pub fn flush(&mut self, flush_system: DynamicSystem<F>)
        requires
            old(self).wf(),
        ensures
            final(self).wf(),
            final(self)@ == (sealed(old(self)@).push(seq![flush_system]), Seq::<DynamicSystem<F>>::empty()),
    {
        if self.current_batch.len() > 0 {
            self.barrier();
        }
        let ghost mid = self@;
        assert(mid.0 == sealed(old(self)@));
        self.add_internal(flush_system);
        assert(!conflicts_with_batch(mid.1, flush_system.borrows@));
        assert(mid.1.push(flush_system) =~= seq![flush_system]);
        self.barrier();
    }

    /// Adds a trailing flush, in a batch of its own, and hands the batches
    /// over to a new schedule; the builder is left empty.
    pub fn build<W>(&mut self, flush_system: DynamicSystem<F>) -> (r: Schedule<F, W>)
        requires
            old(self).wf(),
        ensures
            final(self).wf(),
            final(self)@ == (Seq::<Seq<DynamicSystem<F>>>::empty(), Seq::<DynamicSystem<F>>::empty()),
            r@ == sealed(old(self)@).push(seq![flush_system]),
            forall|i: int| 0 <= i < r@.len() ==> conflict_free(#[trigger] r@[i]),
            is_blank(r.cmd_view()),
    {
        self.flush(flush_system);
        proof {
            lemma_builder_batches_conflict_free(self);
        }
        let mut batches: Vec<Batch<F>> = Vec::new();
        std::mem::swap(&mut batches, &mut self.batches);
        assert(batch_views(self.batches@) =~= Seq::<Seq<DynamicSystem<F>>>::empty());
        Schedule::new(batches)
    }

    /// Adds a system: to the open batch when it conflicts with none of its
    /// systems, otherwise to a new batch after sealing the open one.
    pub fn add_system(&mut self, system: DynamicSystem<F>)
        requires
            old(self).wf(),
        ensures
            final(self).wf(),
            final(self)@ == added(old(self)@, system),
    {
        self.add_internal(system)
    }
}

/// Something that runs against a context, and may fail.
pub trait System<C>: Sized {
    /// `after` is what `this` becomes when one run against `context`
    /// returns `r`. An implementation that says nothing more keeps this
    /// default.
    open spec fn ran(this: Self, context: C, after: Self, r: Result<()>) -> bool {
        true
    }

    /// Runs once.
    fn execute(&mut self, context: &C) -> (r: Result<()>)
        ensures
            Self::ran(*old(self), *context, *final(self), r),
    ;
}

/// Position `(i, j)`, batch and place in it, runs before `(k, l)`.
pub open spec fn runs_before(i: int, j: int, k: int, l: int) -> bool {
    i < k || (i == k && j < l)
}

/// Every system keeps its name and declared accesses.
pub open spec fn same_shape<F>(a: Seq<Seq<DynamicSystem<F>>>, b: Seq<Seq<DynamicSystem<F>>>) -> bool {
    &&& a.len() == b.len()
    &&& forall|i: int| 0 <= i < a.len() ==> (#[trigger] a[i]).len() == b[i].len()
    &&& forall|i: int, j: int|
        0 <= i < a.len() && 0 <= j < a[i].len() ==> (#[trigger] a[i][j]).name == b[i][j].name
            && a[i][j].borrows == b[i][j].borrows
}

/// Batches of systems that run in order, each batch's systems together, and
/// the command buffer that is always available to them.
pub struct Schedule<F, W> {
    batches: Vec<Batch<F>>,
    cmd: CommandBuffer<W>,
}

impl<F, W> View for Schedule<F, W> {
    type V = Seq<Seq<DynamicSystem<F>>>;

    /// The systems of each batch.
    closed spec fn view(&self) -> Seq<Seq<DynamicSystem<F>>> {
        batch_views(self.batches@)
    }
}

impl<F, W> Schedule<F, W> {
    /// What the schedule's command buffer holds.
    pub closed spec fn cmd_view(&self) -> (nat, Seq<Entity>, Seq<W>) {
        self.cmd@
    }

    /// A schedule that runs the given batches in order, with an empty
    /// command buffer.
    pub fn new(batches: Vec<Batch<F>>) -> (r: Schedule<F, W>)
        ensures
            r@ == batch_views(batches@),
            is_blank(r.cmd_view()),
    {
        Schedule { batches, cmd: CommandBuffer::new() }
    }

    /// A new empty builder.
    pub fn builder() -> (r: ScheduleBuilder<F>)
        ensures
            r.wf(),
            r@ == (Seq::<Seq<DynamicSystem<F>>>::empty(), Seq::<DynamicSystem<F>>::empty()),
    {
        ScheduleBuilder::new()
    }

    /// The number of batches.
    pub fn batch_count(&self) -> (r: usize)
        ensures
            r == self@.len(),
    {
        self.batches.len()
    }

    /// The batches, in the order they run.
    pub fn batches(&self) -> (r: &Vec<Batch<F>>)
        ensures
            batch_views(r@) == self@,
    {
        &self.batches
    }

    /// The batch at position `i`, for running its systems.
    pub fn batch_mut(&mut self, i: usize) -> (r: &mut Batch<F>)
        requires
            i < old(self)@.len(),
        ensures
            r@ == old(self)@[i as int],
            final(self)@ == old(self)@.update(i as int, final(r)@),
            final(self).cmd_view() == old(self).cmd_view(),
    {
        let r = &mut self.batches[i];
        r
    }

    /// The names of each batch's systems, in order.
    pub fn batch_info(&self) -> (r: Vec<Vec<String>>)
        ensures
            r@.len() == self@.len(),
            forall|i: int| 0 <= i < r@.len() ==> (#[trigger] r@[i])@.len() == self@[i].len(),
            forall|i: int, j: int|
                0 <= i < r@.len() && 0 <= j < r@[i]@.len() ==> (#[trigger] r@[i]@[j])@ == self@[i][j].name@,
    {
        let mut r: Vec<Vec<String>> = Vec::new();
        let n = self.batches.len();
        let mut i: usize = 0;
        while i < n
            invariant
                n == self.batches@.len(),
                i <= n,
                r@.len() == i,
                forall|x: int| 0 <= x < i ==> (#[trigger] r@[x])@.len() == self@[x].len(),
                forall|x: int, y: int|
                    0 <= x < i && 0 <= y < r@[x]@.len() ==> (#[trigger] r@[x]@[y])@ == self@[x][y].name@,
            decreases n - i,
        {
            let batch = &self.batches[i];
            assert(self@[i as int] == batch@);
            let m = batch.systems.len();
            let mut names: Vec<String> = Vec::new();
            let mut j: usize = 0;
            while j < m
                invariant
                    m == batch@.len(),
                    j <= m,
                    names@.len() == j,
                    forall|y: int| 0 <= y < j ==> (#[trigger] names@[y])@ == batch@[y].name@,
                decreases m - j,
            {
                let name = batch.systems[j].name.clone();
                names.push(name);
                j = j + 1;
            }
            r.push(names);
            i = i + 1;
        }
        r
    }

    /// The schedule's command buffer.
    pub fn cmd(&self) -> (r: &CommandBuffer<W>)
        ensures
            r@ == self.cmd_view(),
    {
        &self.cmd
    }

    /// The schedule's command buffer, for recording or clearing commands
    /// outside a run.
    pub fn cmd_mut(&mut self) -> (r: &mut CommandBuffer<W>)
        ensures
            r@ == old(self).cmd_view(),
            final(self).cmd_view() == final(r)@,
            final(self)@ == old(self)@,
    {
        &mut self.cmd
    }

    /// Takes the command buffer out, for lending it to a run; an empty one
    /// stands in its place.
    pub fn take_cmd(&mut self) -> (r: CommandBuffer<W>)
        ensures
            r@ == old(self).cmd_view(),
            is_blank(final(self).cmd_view()),
            final(self)@ == old(self)@,
    {
        let mut cmd = CommandBuffer::new();
        std::mem::swap(&mut cmd, &mut self.cmd);
        cmd
    }

    /// Puts a command buffer back after a run.
    pub fn put_cmd(&mut self, cmd: CommandBuffer<W>)
        ensures
            final(self).cmd_view() == cmd@,
            final(self)@ == old(self)@,
    {
        self.cmd = cmd;
    }

    /// Runs every batch in order, and each batch's systems one after the
    /// other. The first system that fails stops the run, and its error is
    /// returned; the systems after it do not run.
    pub fn execute_seq<C>(&mut self, context: &C) -> (r: Result<()>)
        where
            F: System<C>,
        ensures
            same_shape(old(self)@, final(self)@),
            final(self).cmd_view() == old(self).cmd_view(),
            r is Ok ==> forall|i: int, j: int|
                0 <= i < old(self)@.len() && 0 <= j < old(self)@[i].len() ==> F::ran(
                    #[trigger] old(self)@[i][j].func,
                    *context,
                    final(self)@[i][j].func,
                    Ok(()),
                ),
            r matches Err(e) ==> exists|i: int, j: int|
                0 <= i < old(self)@.len() && 0 <= j < old(self)@[i].len() && F::ran(
                    #[trigger] old(self)@[i][j].func,
                    *context,
                    final(self)@[i][j].func,
                    Err(e),
                ) && (forall|k: int, l: int|
                    0 <= k < old(self)@.len() && 0 <= l < old(self)@[k].len() && runs_before(k, l, i, j)
                        ==> F::ran(#[trigger] old(self)@[k][l].func, *context, final(self)@[k][l].func, Ok(())))
                    && (forall|k: int, l: int|
                    0 <= k < old(self)@.len() && 0 <= l < old(self)@[k].len() && runs_before(i, j, k, l)
                        ==> #[trigger] final(self)@[k][l] == old(self)@[k][l]),
            (forall|i: int| 0 <= i < old(self)@.len() ==> (#[trigger] old(self)@[i]).len() == 0) ==> r is Ok,
    {
        let n = self.batches.len();
        let mut i: usize = 0;
        while i < n
            invariant
                n == self.batches@.len(),
                n == old(self)@.len(),
                i <= n,
                same_shape(old(self)@, self@),
                self.cmd == old(self).cmd,
                forall|k: int, l: int|
                    0 <= k < i && 0 <= l < old(self)@[k].len() ==> F::ran(
                        #[trigger] old(self)@[k][l].func,
                        *context,
                        self@[k][l].func,
                        Ok(()),
                    ),
                forall|k: int| i <= k < n ==> #[trigger] self@[k] == old(self)@[k],
            decreases n - i,
        {
            let ghost before = self@;
            assert(before[i as int] == self.batches@[i as int]@);
            let batch = &mut self.batches[i];
            let ghost start = batch@;
            let m = batch.systems.len();
            let mut j: usize = 0;
            let mut failure: Option<Error> = None;
            let ghost mut at: int = 0;
            while j < m
                invariant
                    m == batch.systems@.len(),
                    j <= m,
                    start.len() == m,
                    forall|y: int|
                        0 <= y < m ==> (#[trigger] batch.systems@[y]).name == start[y].name
                            && batch.systems@[y].borrows == start[y].borrows,
                    failure is Some ==> j == m,
                    failure is None ==> (forall|y: int|
                        0 <= y < j ==> F::ran(
                            #[trigger] start[y].func,
                            *context,
                            batch.systems@[y].func,
                            Ok(()),
                        )) && (forall|y: int| j <= y < m ==> #[trigger] batch.systems@[y] == start[y]),
                    failure matches Some(e) ==> 0 <= at < m && F::ran(
                        start[at].func,
                        *context,
                        batch.systems@[at].func,
                        Err(e),
                    ) && (forall|y: int|
                        0 <= y < at ==> F::ran(
                            #[trigger] start[y].func,
                            *context,
                            batch.systems@[y].func,
                            Ok(()),
                        )) && (forall|y: int| at < y < m ==> #[trigger] batch.systems@[y] == start[y]),
                decreases m - j,
            {
                let ghost prev = batch.systems@;
                let system = &mut batch.systems[j];
                let res = system.func.execute(context);
                proof {
                    assert(batch.systems@ == prev.update(j as int, batch.systems@[j as int]));
                    assert(prev[j as int] == start[j as int]);
                    assert(F::ran(start[j as int].func, *context, batch.systems@[j as int].func, res));
                }
                let ghost outcome = res;
                proof {
                    assert forall|y: int| 0 <= y < m && y != j implies #[trigger] batch.systems@[y] == prev[y] by {}
                }
                match res {
                    Ok(u) => {
                        proof {
                            assert(outcome == Ok::<(), Error>(u));
                            assert forall|y: int| 0 <= y < j + 1 implies F::ran(
                                #[trigger] start[y].func,
                                *context,
                                batch.systems@[y].func,
                                Ok(()),
                            ) by {
                                if y < j {
                                    assert(batch.systems@[y] == prev[y]);
                                } else {
                                    assert(outcome == Ok::<(), Error>(()));
                                }
                            }
                        }
                        j = j + 1;
                    },
                    Err(e) => {
                        proof {
                            at = j as int;
                            assert forall|y: int| 0 <= y < at implies F::ran(
                                #[trigger] start[y].func,
                                *context,
                                batch.systems@[y].func,
                                Ok(()),
                            ) by {
                                assert(batch.systems@[y] == prev[y]);
                            }
                            assert forall|y: int| at < y < m implies #[trigger] batch.systems@[y] == start[y] by {
                                assert(batch.systems@[y] == prev[y]);
                            }
                        }
                        failure = Some(e);
                        j = m;
                    },
                }
            }
            let ghost done = batch.systems@;
            assert(self@ == before.update(i as int, done));
            if let Some(e) = failure {
                proof {
                    let ii = i as int;
                    assert(old(self)@[ii] == start);
                    assert forall|k: int, l: int|
                        0 <= k < old(self)@.len() && 0 <= l < old(self)@[k].len() && runs_before(k, l, ii, at)
                            implies F::ran(#[trigger] old(self)@[k][l].func, *context, self@[k][l].func, Ok(())) by {
                        if k < ii {
                            assert(self@[k] == before[k]);
                        } else {
                            assert(self@[k] == done);
                        }
                    }
                    assert forall|k: int, l: int|
                        0 <= k < old(self)@.len() && 0 <= l < old(self)@[k].len() && runs_before(ii, at, k, l)
                            implies #[trigger] self@[k][l] == old(self)@[k][l] by {
                        if k > ii {
                            assert(self@[k] == before[k]);
                        } else {
                            assert(self@[k] == done);
                        }
                    }
                    assert(F::ran(old(self)@[ii][at].func, *context, self@[ii][at].func, Err(e)));
                }
                return Err(e);
            }
            proof {
                let ii = i as int;
                assert(old(self)@[ii] == start);
                assert forall|k: int, l: int|
                    0 <= k < ii + 1 && 0 <= l < old(self)@[k].len() implies F::ran(
                    #[trigger] old(self)@[k][l].func,
                    *context,
                    self@[k][l].func,
                    Ok(()),
                ) by {
                    if k < ii {
                        assert(self@[k] == before[k]);
                    } else {
                        assert(self@[k] == done);
                    }
                }
                assert forall|k: int| ii + 1 <= k < n implies #[trigger] self@[k] == old(self)@[k] by {
                    assert(self@[k] == before[k]);
                }
            }
            i = i + 1;
        }
        Ok(())
    }
}

} // verus!
