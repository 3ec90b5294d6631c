use echo::channel::oneshot;
use echo::executor::{make_progress, spawn, AwaitJoin, BlockOnError, Executor};
use echo::future::{Immediate, RecvOr, SendThen};

#[test]
fn test_spawn() {
    let mut executor: Executor<i32> = Executor::new();
    executor.spawn(Box::new(Immediate::new(1 + 2)));
}

#[test]
fn test_block_on() {
    let mut executor: Executor<i32> = Executor::new();
    let (tx, rx) = oneshot(&mut executor.sched);
    tx.send(&mut executor.sched, 42).unwrap();
    let result = executor.block_on(Box::new(RecvOr::new(rx, 0)), 4);
    let res = result.unwrap();
    println!("Received: {}", res);
    assert_eq!(res, 42);
}

#[test]
fn test_send_from_fut() {
    let mut executor: Executor<i32> = Executor::new();
    let (tx, rx) = oneshot(&mut executor.sched);
    println!("Sending 42");
    executor.spawn(Box::new(SendThen::new(tx, 42, 0)));
    let result = executor.block_on(Box::new(RecvOr::new(rx, 0)), 4);
    let res = result.unwrap();
    println!("Received: {}", res);
    assert_eq!(res, 42);
}

#[test]
fn test_spawned_task_completes_and_leaves_table() {
    let mut e: Executor<i32> = Executor::new();
    let h = e.spawn(Box::new(Immediate::new(1 + 2)));
    assert!(e.is_task_live(h.task_id()));
    e.run();
    assert!(!e.is_task_live(h.task_id()));
    assert_eq!(Some(3), h.try_recv(&mut e.sched));
    assert_eq!(None, h.try_recv(&mut e.sched));
}

#[test]
fn test_every_spawned_task_completes_exactly_once() {
    let mut e: Executor<i32> = Executor::new();
    let h1 = e.spawn(Box::new(Immediate::new(10)));
    let h2 = e.spawn(Box::new(Immediate::new(20)));
    let h3 = e.spawn(Box::new(Immediate::new(30)));
    assert_eq!(0, h1.task_id());
    assert_eq!(1, h2.task_id());
    assert_eq!(2, h3.task_id());
    make_progress(&mut e);
    assert!(!e.is_task_live(0));
    assert!(!e.is_task_live(1));
    assert!(!e.is_task_live(2));
    assert_eq!(Some(10), h1.try_recv(&mut e.sched));
    assert_eq!(Some(20), h2.try_recv(&mut e.sched));
    assert_eq!(Some(30), h3.try_recv(&mut e.sched));
    assert_eq!(None, h1.try_recv(&mut e.sched));
    assert_eq!(None, h2.try_recv(&mut e.sched));
    assert_eq!(None, h3.try_recv(&mut e.sched));
}

#[test]
fn test_parent_resolves_only_after_child() {
    let mut e: Executor<i32> = Executor::new();
    let (tx, rx) = oneshot(&mut e.sched);
    let child = e.spawn(Box::new(RecvOr::new(rx, -1)));
    let child_id = child.task_id();
    let parent = e.spawn(Box::new(AwaitJoin::new(child, -2)));
    e.run();
    // The child still waits on the channel, so the parent cannot have resolved.
    assert!(e.is_task_live(child_id));
    assert!(e.is_task_live(parent.task_id()));
    assert_eq!(None, parent.try_recv(&mut e.sched));
    // Fulfil the channel: the send wakes the child; its completion wakes the
    // parent; each wake lands in the next drain pass.
    tx.send(&mut e.sched, 42).unwrap();
    e.run();
    assert!(!e.is_task_live(child_id));
    e.run();
    assert!(!e.is_task_live(parent.task_id()));
    assert_eq!(Some(42), parent.try_recv(&mut e.sched));
}

#[test]
fn test_block_on_child_fulfilled_by_second_task() {
    let mut e: Executor<i32> = Executor::new();
    let (tx, rx) = oneshot(&mut e.sched);
    e.spawn(Box::new(SendThen::new(tx, 41, 0)));
    let result = e.block_on(Box::new(RecvOr::new(rx, 0)), 8);
    assert_eq!(41, result.unwrap());
}

#[test]
fn test_block_on_reports_parked_task() {
    let mut e: Executor<i32> = Executor::new();
    let (_tx, rx) = oneshot(&mut e.sched);
    let result = e.block_on(Box::new(RecvOr::new(rx, 0)), 4);
    assert_eq!(Err(BlockOnError::Incomplete), result);
}

#[test]
fn test_free_spawn_and_make_progress() {
    let mut e: Executor<i32> = Executor::new();
    let h = spawn(&mut e, Box::new(Immediate::new(5)));
    make_progress(&mut e);
    assert_eq!(Some(5), h.try_recv(&mut e.sched));
}

#[test]
fn test_dropped_handle_discards_result() {
    let mut e: Executor<i32> = Executor::new();
    let h = e.spawn(Box::new(Immediate::new(9)));
    let h2 = e.spawn(Box::new(Immediate::new(8)));
    h.close(&mut e.sched);
    e.run();
    // Both tasks ran to completion; the closed handle's result was discarded.
    assert!(!e.is_task_live(0));
    assert!(!e.is_task_live(1));
    assert_eq!(Some(8), h2.try_recv(&mut e.sched));
}
