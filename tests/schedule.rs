use hecs_schedule::{Access, Batch, Borrows, DynamicSystem, Error, Schedule, ScheduleBuilder, System};
use std::cell::RefCell;
use std::rc::Rc;

const INT: u64 = 1;
const FLOAT: u64 = 2;
const TEXT: u64 = 3;
const WORLD: u64 = 10;
const CMD: u64 = 11;

struct Probe {
    label: &'static str,
    fail: bool,
    log: Rc<RefCell<Vec<&'static str>>>,
}

impl System<()> for Probe {
    fn execute(&mut self, _: &()) -> hecs_schedule::Result<()> {
        self.log.borrow_mut().push(self.label);
        if self.fail {
            Err(Error::SystemError(self.label.to_string(), anyhow::Error::msg("Dummy Error")))
        } else {
            Ok(())
        }
    }
}

fn list(accesses: &[Access]) -> Borrows {
    let mut b = Borrows::new();
    for a in accesses {
        b.push(*a);
    }
    b
}

fn read(id: u64) -> Access {
    Access::shared(id, "read")
}

fn write(id: u64) -> Access {
    Access::unique(id, "write")
}

// A system that reaches components through a view of the world, which
// borrows the world itself shared.
fn system(label: &'static str, accesses: &[Access], log: &Rc<RefCell<Vec<&'static str>>>) -> DynamicSystem<Probe> {
    let mut borrows = list(accesses);
    borrows.push(read(WORLD));
    DynamicSystem::new(Probe { label, fail: false, log: log.clone() }, label.to_string(), borrows)
}

fn flush_system(log: &Rc<RefCell<Vec<&'static str>>>) -> DynamicSystem<Probe> {
    DynamicSystem::new(
        Probe { label: "flush", fail: false, log: log.clone() },
        "flush".to_string(),
        list(&[write(WORLD), write(CMD)]),
    )
}

fn shape(s: &Schedule<Probe, ()>) -> Vec<Vec<String>> {
    s.batch_info()
}

#[test]
fn shared_reads_share_a_batch() {
    let log = Rc::new(RefCell::new(Vec::new()));
    let mut b = ScheduleBuilder::new();
    b.add_system(system("a", &[read(INT)], &log));
    b.add_system(system("b", &[read(INT)], &log));
    let s: Schedule<Probe, ()> = b.build(flush_system(&log));
    assert_eq!(shape(&s), vec![vec!["a".to_string(), "b".to_string()], vec!["flush".to_string()]]);
}

#[test]
fn read_then_write_split_in_order() {
    let log = Rc::new(RefCell::new(Vec::new()));
    let mut b = ScheduleBuilder::new();
    b.add_system(system("reader", &[read(INT)], &log));
    b.add_system(system("writer", &[write(INT)], &log));
    let s: Schedule<Probe, ()> = b.build(flush_system(&log));
    assert_eq!(s.batch_count(), 3);
    assert_eq!(shape(&s)[0], vec!["reader".to_string()]);
    assert_eq!(shape(&s)[1], vec!["writer".to_string()]);
}

#[test]
fn three_systems_three_batches() {
    let log = Rc::new(RefCell::new(Vec::new()));
    let mut b = ScheduleBuilder::new();
    b.add_system(system("abc", &[read(INT), read(FLOAT), read(TEXT)], &log));
    b.add_system(system("wa", &[write(INT)], &log));
    b.add_system(system("ra", &[read(INT)], &log));
    let s: Schedule<Probe, ()> = b.build(flush_system(&log));
    let names = shape(&s);
    assert_eq!(names.len(), 4);
    assert_eq!(names[0], vec!["abc".to_string()]);
    assert_eq!(names[1], vec!["wa".to_string()]);
    assert_eq!(names[2], vec!["ra".to_string()]);
    assert_eq!(names[3], vec!["flush".to_string()]);
}

#[test]
fn disjoint_writes_share_a_batch() {
    let log = Rc::new(RefCell::new(Vec::new()));
    let mut b = ScheduleBuilder::new();
    b.add_system(system("wi", &[write(INT)], &log));
    b.add_system(system("wf", &[write(FLOAT)], &log));
    b.add_system(system("rt", &[read(TEXT)], &log));
    let s: Schedule<Probe, ()> = b.build(flush_system(&log));
    assert_eq!(shape(&s)[0], vec!["wi".to_string(), "wf".to_string(), "rt".to_string()]);
}

#[test]
fn exclusive_entry_is_not_downgraded() {
    let log = Rc::new(RefCell::new(Vec::new()));
    let mut b = ScheduleBuilder::new();
    b.add_system(system("both", &[write(INT), read(INT)], &log));
    b.add_system(system("reader", &[read(INT)], &log));
    let s: Schedule<Probe, ()> = b.build(flush_system(&log));
    assert_eq!(shape(&s)[0], vec!["both".to_string()]);
    assert_eq!(shape(&s)[1], vec!["reader".to_string()]);
}

#[test]
fn barrier_seals_the_open_batch() {
    let log = Rc::new(RefCell::new(Vec::new()));
    let mut b = ScheduleBuilder::new();
    b.add_system(system("a", &[read(INT)], &log));
    b.barrier();
    b.add_system(system("b", &[read(INT)], &log));
    let s: Schedule<Probe, ()> = b.build(flush_system(&log));
    assert_eq!(shape(&s)[0], vec!["a".to_string()]);
    assert_eq!(shape(&s)[1], vec!["b".to_string()]);
}

#[test]
fn append_matches_adding_in_order() {
    let log = Rc::new(RefCell::new(Vec::new()));
    let mut left = ScheduleBuilder::new();
    left.add_system(system("l1", &[read(INT)], &log));
    let mut right = ScheduleBuilder::new();
    right.add_system(system("r1", &[read(FLOAT)], &log));
    right.add_system(system("r2", &[write(FLOAT)], &log));
    left.append(&mut right);
    let joined: Schedule<Probe, ()> = left.build(flush_system(&log));

    let mut direct = ScheduleBuilder::new();
    direct.add_system(system("l1", &[read(INT)], &log));
    direct.add_system(system("r1", &[read(FLOAT)], &log));
    direct.add_system(system("r2", &[write(FLOAT)], &log));
    let expected: Schedule<Probe, ()> = direct.build(flush_system(&log));

    assert_eq!(shape(&joined), shape(&expected));
    assert_eq!(shape(&joined)[0], vec!["l1".to_string(), "r1".to_string()]);
    let emptied: Schedule<Probe, ()> = right.build(flush_system(&log));
    assert_eq!(shape(&emptied), vec![vec!["flush".to_string()]]);
}

#[test]
fn no_batch_holds_a_writer_and_another_user() {
    let log = Rc::new(RefCell::new(Vec::new()));
    let mut b = ScheduleBuilder::new();
    b.add_system(system("r", &[read(INT), read(FLOAT)], &log));
    b.add_system(system("w", &[write(FLOAT)], &log));
    b.add_system(system("r2", &[read(INT)], &log));
    b.add_system(system("w2", &[write(INT)], &log));
    let s: Schedule<Probe, ()> = b.build(flush_system(&log));
    for batch in s.batches() {
        let systems = batch.systems();
        for (i, x) in systems.iter().enumerate() {
            for (j, y) in systems.iter().enumerate() {
                if i == j {
                    continue;
                }
                for k in 0..x.borrows().len() {
                    for l in 0..y.borrows().len() {
                        assert!(!x.borrows().get(k).conflicts(&y.borrows().get(l)));
                    }
                }
            }
        }
    }
}

#[test]
fn sequential_run_stops_at_first_failure() {
    let log = Rc::new(RefCell::new(Vec::new()));
    let mut b = ScheduleBuilder::new();
    b.add_system(DynamicSystem::new(
        Probe { label: "failing", fail: true, log: log.clone() },
        "failing".to_string(),
        list(&[write(INT)]),
    ));
    b.add_system(system("same_batch", &[read(FLOAT)], &log));
    b.add_system(system("later", &[read(INT)], &log));
    let mut s: Schedule<Probe, ()> = b.build(flush_system(&log));
    match s.execute_seq(&()) {
        Err(Error::SystemError(name, cause)) => {
            assert_eq!(name, "failing");
            assert_eq!(cause.to_string(), "Dummy Error");
        }
        _ => panic!("the failure was not reported"),
    }
    assert_eq!(*log.borrow(), vec!["failing"]);
}

#[test]
fn sequential_run_visits_every_system_in_order() {
    let log = Rc::new(RefCell::new(Vec::new()));
    let mut b = ScheduleBuilder::new();
    b.add_system(system("a", &[read(INT)], &log));
    b.add_system(system("b", &[write(INT)], &log));
    let mut s: Schedule<Probe, ()> = b.build(flush_system(&log));
    assert!(s.execute_seq(&()).is_ok());
    assert!(s.execute_seq(&()).is_ok());
    assert_eq!(*log.borrow(), vec!["a", "b", "flush", "a", "b", "flush"]);
}

#[test]
fn schedule_from_batches() {
    let log = Rc::new(RefCell::new(Vec::new()));
    let mut first = Batch::new();
    first.systems_mut().push(system("x", &[write(INT)], &log));
    let s: Schedule<Probe, ()> = Schedule::new(vec![first, Batch::new()]);
    assert_eq!(s.batch_count(), 2);
    assert_eq!(s.batches()[0].len(), 1);
    assert_eq!(s.batches()[1].len(), 0);
    assert_eq!(s.cmd().despawn_count(), 0);
    assert_eq!(s.batches()[0].systems()[0].name(), "x");
}

#[test]
fn command_buffer_is_lent_and_returned() {
    let log = Rc::new(RefCell::new(Vec::new()));
    let mut b = ScheduleBuilder::new();
    b.add_system(system("a", &[read(INT)], &log));
    let mut s: Schedule<Probe, ()> = b.build(flush_system(&log));
    let world = hecs::World::new();
    s.cmd_mut().despawn(world.reserve_entity());
    assert_eq!(s.cmd().despawn_count(), 1);
    let lent = s.take_cmd();
    assert_eq!(lent.despawn_count(), 1);
    assert_eq!(s.cmd().despawn_count(), 0);
    s.put_cmd(lent);
    assert_eq!(s.cmd().despawn_count(), 1);
    s.cmd_mut().clear();
    assert_eq!(s.cmd().despawn_count(), 0);
}

#[test]
fn batches_can_be_run_one_by_one() {
    let log = Rc::new(RefCell::new(Vec::new()));
    let mut b = ScheduleBuilder::new();
    b.add_system(system("a", &[write(INT)], &log));
    b.add_system(system("b", &[write(INT)], &log));
    let mut s: Schedule<Probe, ()> = b.build(flush_system(&log));
    let batch = s.batch_mut(1);
    assert_eq!(batch.len(), 1);
    for sys in batch.systems_mut().iter_mut() {
        assert!(sys.execute(&()).is_ok());
        sys.func_mut().label = "renamed";
        assert!(sys.execute(&()).is_ok());
    }
    assert_eq!(*log.borrow(), vec!["b", "renamed"]);
    assert_eq!(s.batches()[1].systems()[0].name(), "b");
}

#[test]
fn flush_system_runs_last() {
    let log = Rc::new(RefCell::new(Vec::new()));
    let mut b = ScheduleBuilder::new();
    b.add_system(system("a", &[read(INT)], &log));
    b.flush(flush_system(&log));
    b.add_system(system("b", &[read(INT)], &log));
    let s: Schedule<Probe, ()> = b.build(flush_system(&log));
    let names = shape(&s);
    assert_eq!(
        names,
        vec![
            vec!["a".to_string()],
            vec!["flush".to_string()],
            vec!["b".to_string()],
            vec!["flush".to_string()]
        ]
    );
}
