use hecs::{CommandBuffer as RecordedCommands, Component, DynamicBundle, Entity, World};
use vstd::prelude::*;

use crate::ecs::{recorded_clear, recorded_count, recorded_new, recorded_run_on, world_despawn};
use crate::error::{Error, Result};

verus! {

/// A mutation of the world whose replay is deferred.
pub trait Deferred: Sized {
    /// Applying `this` turns the world `before` into `after`. An
    /// implementation that says nothing more keeps this default.
    open spec fn applied(this: Self, before: World, after: World) -> bool {
        true
    }

    /// Performs the mutation.
    fn apply(self, world: &mut World)
        ensures
            Self::applied(self, *old(world), *final(world)),
    ;

    /// `this` is a mutation that replays every command of `cmd`. An
    /// implementation that says nothing more keeps this default.
    open spec fn replays(this: Self, cmd: CommandBuffer<Self>) -> bool {
        true
    }

    /// The mutation that replays every command of `cmd`.
    fn replay(cmd: CommandBuffer<Self>) -> (r: Self)
        ensures
            Self::replays(r, cmd),
    ;
}

/// One step of a replay.
pub enum Replay<W> {
    /// The store's own log of spawns and inserts, applied in recording order.
    Log(RecordedCommands),
    /// An arbitrary mutation.
    Write(W),
    /// The despawn of an entity.
    Despawn(Entity),
}

/// The steps of a replay: the log, then the writes in recording order, then
/// the despawns in recording order.
pub open spec fn replay_order<W>(log: RecordedCommands, writes: Seq<W>, despawns: Seq<Entity>) -> Seq<
    Replay<W>,
> {
    seq![Replay::Log(log)] + writes.map_values(|w: W| Replay::Write(w)) + despawns.map_values(
        |e: Entity| Replay::Despawn(e),
    )
}

proof fn lemma_replay_despawns<W>(log: RecordedCommands, writes: Seq<W>, despawns: Seq<Entity>, e: Entity)
    requires
        replay_order(log, writes, despawns).contains(Replay::Despawn(e)),
    ensures
        despawns.contains(e),
{
    let s = replay_order(log, writes, despawns);
    let k = choose|k: int| 0 <= k < s.len() && s[k] == Replay::<W>::Despawn(e);
    let w = writes.len() as int;
    if k == 0 {
        assert(s[0] == Replay::<W>::Log(log));
    } else if k <= w {
        assert(s[k] == Replay::<W>::Write(writes[k - 1]));
    } else {
        assert(s[k] == Replay::<W>::Despawn(despawns[k - 1 - w]));
        assert(despawns[k - 1 - w] == e);
    }
}

/// `worlds` are the states of the world around the first `n` steps of
/// `plan`: each write step turned its state into the next.
pub open spec fn steps_through<W: Deferred>(plan: Seq<Replay<W>>, worlds: Seq<World>, n: int) -> bool {
    &&& 0 <= n <= plan.len()
    &&& worlds.len() == n + 1
    &&& forall|k: int|
        0 <= k < n && (#[trigger] plan[k]) is Write ==> W::applied(
            plan[k]->Write_0,
            worlds[k],
            worlds[k + 1],
        )
}

/// The first `n` steps of `plan`, one after the other, turned `before` into
/// `after`.
pub open spec fn replayed<W: Deferred>(plan: Seq<Replay<W>>, before: World, after: World, n: int) -> bool {
    exists|worlds: Seq<World>|
        #[trigger] steps_through(plan, worlds, n) && worlds[0] == before && worlds[n] == after
}

/// Applies the steps of a replay to `world`, one after the other. A despawn
/// of an entity that does not exist ends the replay with `NoSuchEntity`
/// right after that step.
pub fn replay<W: Deferred>(plan: Vec<Replay<W>>, world: &mut World) -> (r: Result<()>)
    ensures
        r is Ok ==> replayed(plan@, *old(world), *final(world), plan@.len() as int),
        match r {
            Ok(()) => true,
            Err(Error::NoSuchEntity(e)) => exists|k: int|
                0 <= k < plan@.len() && plan@[k] == Replay::<W>::Despawn(e) && replayed(
                    plan@,
                    *old(world),
                    *final(world),
                    k + 1,
                ),
            Err(_) => false,
        },
{
    let ghost all = plan@;
    let ghost len = all.len() as int;
    let mut rest = plan;
    let mut pending: Vec<Replay<W>> = Vec::new();
    while rest.len() > 0
        invariant
            all == plan@,
            len == all.len(),
            rest@.len() + pending@.len() == len,
            rest@ == all.subrange(0, rest@.len() as int),
            forall|k: int| 0 <= k < pending@.len() ==> #[trigger] pending@[k] == all[len - 1 - k],
        decreases rest@.len(),
    {
        let ghost before = rest@;
        match rest.pop() {
            Some(step) => {
                assert(before[before.len() - 1] == step);
                pending.push(step);
            },
            None => {},
        }
        assert(rest@ =~= all.subrange(0, rest@.len() as int));
    }
    let ghost mut worlds: Seq<World> = seq![*world];
    let ghost start = *world;
    while pending.len() > 0
        invariant
            all == plan@,
            len == all.len(),
            pending@.len() <= len,
            forall|k: int| 0 <= k < pending@.len() ==> #[trigger] pending@[k] == all[len - 1 - k],
            steps_through(all, worlds, len - pending@.len()),
            worlds[0] == start,
            start == *old(world),
            worlds[len - pending@.len()] == *world,
        decreases pending@.len(),
    {
        let ghost done = len - pending@.len();
        let ghost before = pending@;
        let ghost prev = worlds;
        assert(before[before.len() - 1] == all[done]);
        match pending.pop() {
            Some(Replay::Log(mut log)) => {
                recorded_run_on(&mut log, world);
            },
            Some(Replay::Write(w)) => {
                w.apply(world);
            },
            Some(Replay::Despawn(e)) => {
                let res = world_despawn(world, e);
                proof {
                    worlds = prev.push(*world);
                    assert forall|k: int|
                        0 <= k < done + 1 && (#[trigger] all[k]) is Write implies W::applied(
                        all[k]->Write_0,
                        worlds[k],
                        worlds[k + 1],
                    ) by {
                        assert(worlds[k] == prev[k]);
                        if k < done {
                            assert(worlds[k + 1] == prev[k + 1]);
                        }
                    }
                    assert(steps_through(all, worlds, done + 1));
                }
                match res {
                    Ok(()) => {},
                    Err(_) => {
                        proof {
                            assert(replayed(all, start, *world, done + 1));
                        }
                        return Err(Error::NoSuchEntity(e));
                    },
                }
                continue;
            },
            None => {},
        }
        proof {
            worlds = prev.push(*world);
            assert forall|k: int|
                0 <= k < done + 1 && (#[trigger] all[k]) is Write implies W::applied(
                all[k]->Write_0,
                worlds[k],
                worlds[k + 1],
            ) by {
                assert(worlds[k] == prev[k]);
                if k < done {
                    assert(worlds[k + 1] == prev[k + 1]);
                }
            }
        }
    }
    proof {
        assert(steps_through(all, worlds, len));
    }
    Ok(())
}

/// Records spawns, inserts, arbitrary writes and despawns, and replays them
/// against a world later: first the spawns and inserts, then the writes in
/// the order they were recorded, then the despawns in that order.
pub struct CommandBuffer<W> {
    components: RecordedCommands,
    despawns: Vec<Entity>,
    writes: Vec<W>,
}

impl<W> View for CommandBuffer<W> {
    type V = (nat, Seq<Entity>, Seq<W>);

    /// The number of recorded spawns and inserts, the despawned entities and
    /// the writes.
    closed spec fn view(&self) -> (nat, Seq<Entity>, Seq<W>) {
        (recorded_count(self.components), self.despawns@, self.writes@)
    }
}

/// The command buffer records nothing.
pub open spec fn is_blank<W>(v: (nat, Seq<Entity>, Seq<W>)) -> bool {
    v.0 == 0 && v.1.len() == 0 && v.2.len() == 0
}

impl<W> CommandBuffer<W> {
    /// The store's own log of spawns and inserts.
    pub closed spec fn log(&self) -> RecordedCommands {
        self.components
    }

    /// An empty command buffer.
    pub fn new() -> (r: CommandBuffer<W>)
        ensures
            is_blank(r@),
    {
        CommandBuffer { components: recorded_new(), despawns: Vec::new(), writes: Vec::new() }
    }

    /// Relies on hecs::CommandBuffer::insert: records one insert of the
    /// components into an existing or reserved entity.
    #[verifier::external_body]
    pub fn insert<B: DynamicBundle>(&mut self, entity: Entity, components: B)
        ensures
            final(self)@ == (old(self)@.0 + 1, old(self)@.1, old(self)@.2),
    {
        self.components.insert(entity, components)
    }

    /// Relies on hecs::CommandBuffer::insert_one: records one insert of a
    /// single component into an existing or reserved entity.
    #[verifier::external_body]
    pub fn insert_one<C: Component>(&mut self, entity: Entity, component: C)
        ensures
            final(self)@ == (old(self)@.0 + 1, old(self)@.1, old(self)@.2),
    {
        self.components.insert_one(entity, component)
    }

    /// Relies on hecs::CommandBuffer::spawn: records one spawn of a new
    /// entity with the components.
    #[verifier::external_body]
    pub fn spawn<B: DynamicBundle>(&mut self, components: B)
        ensures
            final(self)@ == (old(self)@.0 + 1, old(self)@.1, old(self)@.2),
    {
        self.components.spawn(components)
    }

    /// Records the despawn of an entity, which runs after every other command.
    pub fn despawn(&mut self, entity: Entity)
        ensures
            final(self)@ == (old(self)@.0, old(self)@.1.push(entity), old(self)@.2),
    {
        self.despawns.push(entity)
    }

    /// Records an arbitrary mutation of the world.
    pub fn write(&mut self, cmd: W)
        ensures
            final(self)@ == (old(self)@.0, old(self)@.1, old(self)@.2.push(cmd)),
    {
        self.writes.push(cmd)
    }

    /// Drops every recorded command without replaying it.
    pub fn clear(&mut self)
        ensures
            is_blank(final(self)@),
    {
        recorded_clear(&mut self.components);
        self.despawns.clear();
        self.writes.clear();
    }

    /// The number of recorded despawns.
    pub fn despawn_count(&self) -> (r: usize)
        ensures
            r == self@.1.len(),
    {
        self.despawns.len()
    }

    /// The number of recorded writes.
    pub fn write_count(&self) -> (r: usize)
        ensures
            r == self@.2.len(),
    {
        self.writes.len()
    }
}

impl<W: Deferred> CommandBuffer<W> {
    /// Nests `other`: its commands replay, in their own order, at the point
    /// among this buffer's writes where it was appended.
    pub fn append(&mut self, other: CommandBuffer<W>)
        ensures
            final(self)@.0 == old(self)@.0,
            final(self)@.1 == old(self)@.1,
            final(self)@.2.len() == old(self)@.2.len() + 1,
            final(self)@.2.subrange(0, old(self)@.2.len() as int) == old(self)@.2,
            W::replays(final(self)@.2.last(), other),
    {
        self.writes.push(W::replay(other));
        assert(self.writes@.subrange(0, old(self).writes@.len() as int) =~= old(self).writes@);
    }

    /// Empties the buffer into the steps of its replay.
    pub fn drain(&mut self) -> (r: Vec<Replay<W>>)
        ensures
            r@ == replay_order(old(self).log(), old(self)@.2, old(self)@.1),
            is_blank(final(self)@),
    {
        let mut log = recorded_new();
        std::mem::swap(&mut log, &mut self.components);
        let mut writes: Vec<W> = Vec::new();
        std::mem::swap(&mut writes, &mut self.writes);
        let mut despawns: Vec<Entity> = Vec::new();
        std::mem::swap(&mut despawns, &mut self.despawns);
        let mut plan: Vec<Replay<W>> = Vec::new();
        plan.push(Replay::Log(log));
        let ghost ws = writes@;
        let mut rev: Vec<W> = Vec::new();
        while writes.len() > 0
            invariant
                rev@.len() + writes@.len() == ws.len(),
                writes@ == ws.subrange(0, writes@.len() as int),
                forall|k: int| 0 <= k < rev@.len() ==> #[trigger] rev@[k] == ws[ws.len() - 1 - k],
            decreases writes@.len(),
        {
            let ghost n = writes@.len();
            match writes.pop() {
                Some(w) => {
                    assert(w == ws[n - 1]);
                    rev.push(w);
                },
                None => {},
            }
            assert(writes@ =~= ws.subrange(0, writes@.len() as int));
        }
        let ghost head = plan@;
        assert(head.len() == 1);
        while rev.len() > 0
            invariant
                rev@.len() <= ws.len(),
                plan@.len() == 1 + ws.len() - rev@.len(),
                head.len() == 1,
                plan@[0] == head[0],
                forall|k: int| 0 <= k < rev@.len() ==> #[trigger] rev@[k] == ws[ws.len() - 1 - k],
                forall|k: int| 1 <= k < plan@.len() ==> #[trigger] plan@[k] == Replay::Write(ws[k - 1]),
            decreases rev@.len(),
        {
            let ghost n = rev@.len();
            match rev.pop() {
                Some(w) => {
                    assert(w == ws[ws.len() - n]);
                    plan.push(Replay::Write(w));
                },
                None => {},
            }
        }
        let ghost ds = despawns@;
        let m = despawns.len();
        let mut i: usize = 0;
        while i < m
            invariant
                m == ds.len(),
                despawns@ == ds,
                i <= m,
                plan@.len() == 1 + ws.len() + i,
                head.len() == 1,
                plan@[0] == head[0],
                forall|k: int| 1 <= k < 1 + ws.len() ==> #[trigger] plan@[k] == Replay::Write(ws[k - 1]),
                forall|k: int|
                    1 + ws.len() <= k < plan@.len() ==> #[trigger] plan@[k] == Replay::<W>::Despawn(
                        ds[k - 1 - ws.len()],
                    ),
            decreases m - i,
        {
            plan.push(Replay::Despawn(despawns[i]));
            i = i + 1;
        }
        assert(plan@ =~= replay_order(old(self).log(), ws, ds));
        plan
    }

    /// Replays the recorded commands against `world` and empties the buffer:
    /// the steps of `drain`, in order. A despawn of an entity that does not
    /// exist ends the replay with `NoSuchEntity`.
    pub fn execute(&mut self, world: &mut World) -> (r: Result<()>)
        ensures
            is_blank(final(self)@),
            r is Ok ==> replayed(
                replay_order(old(self).log(), old(self)@.2, old(self)@.1),
                *old(world),
                *final(world),
                1 + old(self)@.2.len() + old(self)@.1.len() as int,
            ),
            match r {
                Ok(()) => true,
                Err(Error::NoSuchEntity(e)) => old(self)@.1.contains(e) && exists|k: int|
                    0 <= k < 1 + old(self)@.2.len() + old(self)@.1.len() && replay_order(
                        old(self).log(),
                        old(self)@.2,
                        old(self)@.1,
                    )[k] == Replay::<W>::Despawn(e) && replayed(
                        replay_order(old(self).log(), old(self)@.2, old(self)@.1),
                        *old(world),
                        *final(world),
                        k + 1,
                    ),
                Err(_) => false,
            },
    {
        let plan = self.drain();
        let r = replay(plan, world);
        proof {
            if let Err(Error::NoSuchEntity(e)) = r {
                let order = replay_order(old(self).log(), old(self)@.2, old(self)@.1);
                let k = choose|k: int|
                    0 <= k < order.len() && order[k] == Replay::<W>::Despawn(e) && replayed(
                        order,
                        *old(world),
                        *final(world),
                        k + 1,
                    );
                assert(order.contains(Replay::<W>::Despawn(e)));
                lemma_replay_despawns(old(self).log(), old(self)@.2, old(self)@.1, e);
            }
        }
        r
    }
}

/// The work of the flush system: replays the commands against the world
/// when the run has one, and drops them when it has none. Either way the
/// buffer ends empty.
pub fn flush_commands<W: Deferred>(world: Option<&mut World>, cmd: &mut CommandBuffer<W>) -> (r: Result<()>)
    ensures
        is_blank(final(cmd)@),
        world is None ==> r is Ok,
        match r {
            Ok(()) => true,
            Err(Error::NoSuchEntity(e)) => old(cmd)@.1.contains(e),
            Err(_) => false,
        },
{
    match world {
        Some(w) => cmd.execute(w),
        None => {
            cmd.clear();
            Ok(())
        },
    }
}

} // verus!
