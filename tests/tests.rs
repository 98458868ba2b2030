use std::any::{Any, TypeId};
use std::collections::hash_map::DefaultHasher;
use std::hash::{Hash, Hasher};

use atomic_refcell::AtomicRefCell;
use hecs::{Fetch, Query, World};
use hecs_schedule::{
    flush_commands, Access, Borrows, CommandBuffer, Context, Deferred, DynamicSystem, ErasedCell, Error, Schedule,
    ScheduleBuilder, SubWorldRaw, System,
};

fn key(id: TypeId) -> u64 {
    let mut hasher = DefaultHasher::new();
    id.hash(&mut hasher);
    hasher.finish()
}

fn shared<T: 'static>() -> Access {
    Access::shared(key(TypeId::of::<T>()), "component")
}

fn unique<T: 'static>() -> Access {
    Access::unique(key(TypeId::of::<T>()), "component")
}

// The accesses a query of the store declares.
fn decl<Q: Query>() -> Borrows {
    let mut borrows = Borrows::new();
    Q::Fetch::for_each_borrow(|id, exclusive| borrows.push(Access::new(key(id), "query", exclusive)));
    borrows
}

fn accesses(list: &[Access]) -> Borrows {
    let mut b = Borrows::new();
    for a in list {
        b.push(*a);
    }
    b
}

#[test]
fn has() {
    let mut world = World::default();

    world.spawn((67_i32, 7.0_f32));

    let subworld = SubWorldRaw::new(&world, decl::<(&i32, &mut f32, &String)>(), "(&i32, &mut f32, &String)");
    let subworld = subworld.split(decl::<(&i32, &mut f32)>(), "(&i32, &mut f32)").ok().unwrap();

    assert!(subworld.has(&shared::<i32>()));
    assert!(!subworld.has(&unique::<i32>()));
    assert!(subworld.has(&shared::<f32>()));
    assert!(subworld.has(&unique::<f32>()));

    assert!(subworld.has_all(&decl::<(&i32, &f32)>()));
    assert!(!subworld.has_all(&decl::<(&mut i32, &f32)>()));
    assert!(subworld.has_all(&decl::<(&mut f32, &i32)>()));
    assert!(!subworld.has_all(&decl::<(&mut f32, &i32, &u32)>()));
}

#[test]
fn query() {
    let mut world = World::default();

    world.spawn((67_i32, 7.0_f32));
    let entity = world.spawn((42_i32, 3.1415_f32));

    let subworld = SubWorldRaw::new(&world, decl::<(&i32, &mut f32)>(), "(&i32, &mut f32)");

    let w = subworld.try_query(&decl::<(&i32, &mut f32)>(), "(&i32, &mut f32)").ok().unwrap();
    let mut query = w.query::<(&i32, &mut f32)>();
    assert_eq!(query.iter().count(), 2);

    assert!(subworld.try_query(&decl::<(&mut i32, &f32)>(), "(&mut i32, &f32)").is_err());
    let w = subworld.try_component(&shared::<i32>()).ok().unwrap();
    let val = w.get::<&i32>(entity).unwrap();
    assert_eq!(*val, 42);
}

#[test]
fn custom_query() {
    let mut world = World::default();

    // A query over `&i32` and `&mut f32`, declared by hand.
    let foo = [shared::<i32>(), unique::<f32>()];

    world.spawn((67_i32, 7.0_f32));
    let entity = world.spawn((42_i32, 3.1415_f32));

    let mut d = accesses(&foo);
    d.push(shared::<&'static str>());
    let subworld = SubWorldRaw::new(&world, d, "(Foo, &&'static str)");

    assert!(subworld.has_all(&decl::<(&i32, &f32)>()));
    assert!(!subworld.has_all(&decl::<(&mut i32, &f32)>()));
    assert!(subworld.has_all(&decl::<(&mut f32, &i32)>()));
    assert!(subworld.has_all(&decl::<(&&'static str, &i32)>()));
    assert!(!subworld.has_all(&decl::<(&mut &'static str, &i32)>()));
    assert!(!subworld.has_all(&decl::<(&mut f32, &i32, &u32)>()));

    let w = subworld.try_query(&decl::<&i32>(), "&i32").ok().unwrap();
    let mut query = w.query::<&i32>();
    let view = query.view();
    let mut one = w.query_one::<&i32>(entity).unwrap();
    let val = one.get().unwrap();
    assert_eq!(*val, 42);

    let w = subworld.try_query(&accesses(&foo), "Foo").ok().unwrap();
    assert_eq!(w.query::<(&i32, &mut f32)>().iter().count(), 2);

    assert!(subworld.try_query(&decl::<(&mut i32, &f32)>(), "(&mut i32, &f32)").is_err());
    let val = view.get(entity).unwrap();
    assert_eq!(*val, 42);
}

struct Op(Box<dyn FnOnce(&mut World) + Send + Sync>);

impl Deferred for Op {
    fn apply(self, world: &mut World) {
        (self.0)(world)
    }

    fn replay(mut cmd: CommandBuffer<Op>) -> Op {
        Op(Box::new(move |w| cmd.execute(w).ok().unwrap()))
    }
}

#[test]
fn commandbuffer() {
    let mut world = World::default();
    let e = world.reserve_entity();

    let mut cmds: CommandBuffer<Op> = CommandBuffer::new();

    cmds.spawn((42_i32, 7.0_f32));
    cmds.insert(e, (89_usize, 42_i32, String::from("Foo")));

    cmds.write(Op(Box::new(move |w: &mut World| {
        w.remove_one::<usize>(e).unwrap();
    })));

    cmds.execute(&mut world).ok().unwrap();

    assert!(world
        .query::<(&i32, &f32)>()
        .iter()
        .map(|(_, val)| val)
        .eq([(&42, &7.0)]))
}

#[test]
fn split() {
    let world = World::default();

    let a = SubWorldRaw::new(&world, decl::<(&i32, &f32)>(), "(&i32, &f32)");

    let b = a.split(decl::<&f32>(), "&f32").ok().unwrap();
    let _empty = a.split(decl::<()>(), "()").ok().unwrap();
    assert!(b.try_query(&decl::<&f32>(), "&f32").is_ok());
    assert!(b.try_query(&decl::<&i32>(), "&i32").is_err());
}

#[test]
fn atomic() {
    let world = AtomicRefCell::new(World::default());

    world.borrow_mut().spawn(("a",));
    let e = world.borrow_mut().spawn(("b", 4.5_f32));

    let a = SubWorldRaw::new(world.borrow(), decl::<(&&'static str, &mut f32)>(), "(&&str, &mut f32)");
    let b = a.split(decl::<&&'static str>(), "&&str").ok().unwrap();

    let inner: &World = a.try_query(&Borrows::new(), "()").ok().unwrap();
    let ref_world = SubWorldRaw::new(inner, decl::<(&&'static str, &mut f32)>(), "(&&str, &mut f32)")
        .split(decl::<&f32>(), "&f32")
        .ok()
        .unwrap();
    let w = ref_world.try_component(&shared::<f32>()).ok().unwrap();
    assert_eq!(*w.get::<&f32>(e).unwrap(), 4.5);

    let empty = a.into_empty();

    // Count total number of entities
    let w = empty.try_query(&decl::<()>(), "()").ok().unwrap();
    assert_eq!(w.query::<()>().iter().count(), 2);

    let w = b.try_query(&decl::<&&'static str>(), "&&str").ok().unwrap();
    assert!(w.query::<&&'static str>().iter().map(|(_, val)| *val).eq(["a", "b"]));
}

type Value = Box<dyn Any + Send + Sync>;

fn context_body() {
    let a: Value = Box::new(64_i32);
    let b: Value = Box::new("Hello, World");
    let with: Value = Box::new(());

    let context = Context::new(vec![
        ErasedCell::new(key(TypeId::of::<i32>()), a),
        ErasedCell::new(key(TypeId::of::<&str>()), b),
        ErasedCell::new(key(TypeId::of::<()>()), with),
    ]);

    {
        let a = context.borrow_shared(shared::<i32>()).ok().unwrap();
        let mut b = context.borrow_unique(unique::<&str>()).ok().unwrap();

        assert_eq!(*b.downcast_ref::<&str>().unwrap(), "Hello, World");
        *b.downcast_mut::<&str>().unwrap() = "Foo Fighters";
        drop(b);

        let b = context.borrow_shared(shared::<&str>()).ok().unwrap();
        assert_eq!(*a.downcast_ref::<i32>().unwrap(), 64);
        assert_eq!(*b.downcast_ref::<&str>().unwrap(), "Foo Fighters");

        let c = context.borrow_shared(shared::<f32>());
        assert!(c.is_err());
    }
}

#[test]
fn context_context() {
    context_body();
}

#[test]
fn mod_context() {
    context_body();
}

type Ctx = Context<Value>;

struct Step(Box<dyn FnMut(&Ctx) -> hecs_schedule::Result<()>>);

impl System<Ctx> for Step {
    fn execute(&mut self, context: &Ctx) -> hecs_schedule::Result<()> {
        (self.0)(context)
    }
}

fn fail(message: &str) -> Error {
    Error::SystemError("system".to_string(), anyhow::Error::msg(message.to_string()))
}

fn step(name: &str, borrows: &[Access], f: impl FnMut(&Ctx) -> hecs_schedule::Result<()> + 'static) -> DynamicSystem<Step> {
    DynamicSystem::new(Step(Box::new(f)), name.to_string(), accesses(borrows))
}

fn flush_step() -> DynamicSystem<Step> {
    step("flush", &[unique::<World>(), unique::<CommandBuffer<Op>>()], |c| {
        let mut w = c.maybe_unique(unique::<World>())?;
        let mut cmd = c.borrow_unique(unique::<CommandBuffer<Op>>())?;
        let world = w.as_mut().map(|w| w.downcast_mut::<World>().unwrap());
        flush_commands(world, cmd.downcast_mut::<CommandBuffer<Op>>().unwrap())
    })
}

#[test]
fn test_schedule() {
    let mut world = World::default();

    let a = world.spawn((789,));
    let b = world.reserve_entity();

    let mut schedule = ScheduleBuilder::new();

    #[derive(Default, Debug, Clone, Copy, PartialEq)]
    struct Foo {
        val: i32,
    }

    let value = Foo { val: 42 };

    let view = |d: Borrows| {
        let mut d = d;
        d.push(shared::<World>());
        d
    };

    let system = step("system", &[], move |c| {
        let w = c.borrow_shared(shared::<World>())?;
        let sub = SubWorldRaw::new(w.downcast_ref::<World>().unwrap(), decl::<&i32>(), "&i32");
        let world = sub.try_component(&shared::<i32>())?;
        if *world.get::<&i32>(a).unwrap() != 789 {
            return Err(fail("Entity did not match"));
        }
        Ok(())
    });
    let system = DynamicSystem::new(system.func, system.name, view(decl::<&i32>()));

    let spawn_system = step("spawn_system", &[unique::<CommandBuffer<Op>>()], move |c| {
        let mut cmd = c.borrow_unique(unique::<CommandBuffer<Op>>())?;
        cmd.downcast_mut::<CommandBuffer<Op>>().unwrap().insert(b, ("b", 8));
        Ok(())
    });

    schedule.add_system(spawn_system);
    schedule.add_system(system);
    schedule.flush(flush_step());

    schedule.add_system(step("set", &[unique::<Foo>()], |c| {
        c.borrow_unique(unique::<Foo>())?.downcast_mut::<Foo>().unwrap().val = 56;
        Ok(())
    }));

    schedule.add_system(step("hello", &[unique::<CommandBuffer<Op>>()], move |c| {
        let mut cmd = c.borrow_unique(unique::<CommandBuffer<Op>>())?;
        cmd.downcast_mut::<CommandBuffer<Op>>().unwrap().insert_one(a, "Hello, World!");
        Ok(())
    }));

    let check = step("check", &[], move |c| {
        let w = c.borrow_shared(shared::<World>())?;
        let sub = SubWorldRaw::new(w.downcast_ref::<World>().unwrap(), decl::<(&&'static str, &i32)>(), "q");
        let world = sub.try_query(&decl::<(&&'static str, &i32)>(), "(&&str, &i32)")?;
        let mut query = world.query_one::<(&&'static str, &i32)>(b).map_err(|_| Error::NoSuchEntity(b))?;
        let (name, val) = query.get().ok_or(Error::UnsatisfiedQuery(b, "(&&str, &i32)"))?;
        if !(*name == "b" && *val == 8) {
            return Err(fail("Entity does not match"));
        }
        Ok(())
    });
    schedule.add_system(DynamicSystem::new(check.func, check.name, view(decl::<(&&'static str, &i32)>())));

    let mut schedule: Schedule<Step, Op> = schedule.build(flush_step());

    let cmd = schedule.take_cmd();
    let world_cell: Value = Box::new(world);
    let value_cell: Value = Box::new(value);
    let cmd_cell: Value = Box::new(cmd);
    let context = Context::new(vec![
        ErasedCell::new(key(TypeId::of::<World>()), world_cell),
        ErasedCell::new(key(TypeId::of::<Foo>()), value_cell),
        ErasedCell::new(key(TypeId::of::<CommandBuffer<Op>>()), cmd_cell),
    ]);
    schedule.execute_seq(&context).ok().unwrap();

    let value = context.borrow_shared(shared::<Foo>()).ok().unwrap();
    assert_eq!(*value.downcast_ref::<Foo>().unwrap(), Foo { val: 56 });
    let cmd = context.borrow_shared(shared::<CommandBuffer<Op>>()).ok().unwrap();
    let cmd = cmd.downcast_ref::<CommandBuffer<Op>>().unwrap();
    assert_eq!(cmd.despawn_count() + cmd.write_count(), 0);
    let world = context.borrow_shared(shared::<World>()).ok().unwrap();
    assert_eq!(*world.downcast_ref::<World>().unwrap().get::<&&str>(a).unwrap(), "Hello, World!");
}

#[test]
#[should_panic]
fn fail_query() {
    let mut world = World::default();

    let entity = world.spawn((42_i32, 3.1415_f32));

    let subworld = SubWorldRaw::new(&world, decl::<(&i32, &f32)>(), "(&i32, &f32)");

    let w = subworld.try_component(&shared::<u64>()).ok().unwrap();
    let val = w.get::<&u64>(entity).unwrap();
    assert_eq!(*val, 42);
}

#[test]
#[should_panic]
fn schedule_fail() {
    let mut builder = ScheduleBuilder::new();
    builder.add_system(step("failing", &[], |_| Err(fail("Dummy Error"))));
    let mut schedule: Schedule<Step, Op> = builder.build(flush_step());

    let context: Ctx = Context::new(Vec::new());
    schedule.execute_seq(&context).unwrap();
}
