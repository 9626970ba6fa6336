use std::cell::{Cell, RefCell};
use std::future::Future;
use std::pin::Pin;
use std::rc::Rc;
use std::task::{Context, Poll};

use yulvon::atomics::{AtomicCounter, AtomicQueue};
use yulvon::rt_scheduler::{RtScheduler, MAX_TASKS};
use yulvon::runtime::{Executor, PollOutcome};

#[test]
fn queue_scenario_capacity_four() {
    let mut q: AtomicQueue<char> = AtomicQueue::new(4);
    assert!(q.push('A'));
    assert!(q.push('B'));
    assert!(q.push('C'));
    assert!(!q.push('D'));
    assert_eq!(q.pop(), Some('A'));
    assert!(q.push('D'));
    assert_eq!(q.pop(), Some('B'));
    assert_eq!(q.pop(), Some('C'));
    assert_eq!(q.pop(), Some('D'));
    assert_eq!(q.pop(), None);
}

#[test]
fn queue_pop_on_empty_is_none() {
    let mut q: AtomicQueue<u32> = AtomicQueue::new(2);
    assert_eq!(q.pop(), None);
    assert!(q.push(7));
    assert_eq!(q.pop(), Some(7));
    assert_eq!(q.pop(), None);
}

#[test]
fn queue_of_one_slot_is_always_full() {
    let mut q: AtomicQueue<u32> = AtomicQueue::new(1);
    assert!(!q.push(1));
    assert_eq!(q.pop(), None);
}

#[test]
fn queue_full_rejection_keeps_contents() {
    let mut q: AtomicQueue<u32> = AtomicQueue::new(3);
    assert!(q.push(1));
    assert!(q.push(2));
    assert!(!q.push(3));
    assert!(!q.push(4));
    assert_eq!(q.pop(), Some(1));
    assert_eq!(q.pop(), Some(2));
    assert_eq!(q.pop(), None);
}

#[test]
fn queue_fifo_across_many_wraps() {
    let mut q: AtomicQueue<u64> = AtomicQueue::new(5);
    let mut next_in: u64 = 0;
    let mut next_out: u64 = 0;
    for round in 0..100u64 {
        let pushes = round % 4 + 1;
        for _ in 0..pushes {
            if q.push(next_in) {
                next_in += 1;
            }
        }
        let pops = (round + 1) % 4 + 1;
        for _ in 0..pops {
            if let Some(v) = q.pop() {
                assert_eq!(v, next_out);
                next_out += 1;
            }
        }
    }
    while let Some(v) = q.pop() {
        assert_eq!(v, next_out);
        next_out += 1;
    }
    assert_eq!(next_in, next_out);
}

#[test]
fn counter_scenario() {
    let mut c = AtomicCounter::new(10);
    assert_eq!(c.fetch_add(5), 10);
    assert_eq!(c.load(), 15);
    assert_eq!(c.compare_and_swap(15, 20), 15);
    assert_eq!(c.load(), 20);
    assert_eq!(c.compare_and_swap(15, 99), 20);
    assert_eq!(c.load(), 20);
}

#[test]
fn counter_store_and_wrapping_add() {
    let mut c = AtomicCounter::new(0);
    c.store(usize::MAX);
    assert_eq!(c.load(), usize::MAX);
    assert_eq!(c.fetch_add(2), usize::MAX);
    assert_eq!(c.load(), 1);
}

#[test]
fn scheduler_runs_each_task_once_in_order() {
    let total = Rc::new(Cell::new(0u32));
    let order = Rc::new(RefCell::new(Vec::new()));
    let mut s: RtScheduler<Box<dyn Fn()>> = RtScheduler::new();
    for k in 1..=3u32 {
        let total = total.clone();
        let order = order.clone();
        assert!(s.schedule(Box::new(move || {
            total.set(total.get() + k);
            order.borrow_mut().push(k);
        })));
    }
    s.run();
    assert_eq!(total.get(), 6);
    assert_eq!(*order.borrow(), vec![1, 2, 3]);
    s.run();
    assert_eq!(total.get(), 6);
}

fn bump_nothing() {}

#[test]
fn scheduler_rejects_when_full() {
    let mut s: RtScheduler<fn()> = RtScheduler::new();
    for _ in 0..MAX_TASKS - 1 {
        assert!(s.schedule(bump_nothing));
    }
    assert!(!s.schedule(bump_nothing));
    s.run();
    assert!(s.schedule(bump_nothing));
}

struct ReadyWith {
    value: u32,
    seen: Rc<RefCell<Vec<u32>>>,
}

impl Future for ReadyWith {
    type Output = ();
    fn poll(self: Pin<&mut Self>, _cx: &mut Context<'_>) -> Poll<()> {
        self.seen.borrow_mut().push(self.value);
        Poll::Ready(())
    }
}

struct NeverReady {
    polls: Rc<Cell<u32>>,
}

impl Future for NeverReady {
    type Output = ();
    fn poll(self: Pin<&mut Self>, _cx: &mut Context<'_>) -> Poll<()> {
        self.polls.set(self.polls.get() + 1);
        Poll::Pending
    }
}

type Slot = RefCell<Pin<Box<dyn Future<Output = ()>>>>;

fn poll_with_noop_waker(slot: &Slot) -> PollOutcome {
    let waker = futures::task::noop_waker();
    let mut cx = Context::from_waker(&waker);
    match slot.borrow_mut().as_mut().poll(&mut cx) {
        Poll::Ready(()) => PollOutcome::Ready,
        Poll::Pending => PollOutcome::Pending,
    }
}

#[test]
fn executor_completes_ready_task_once() {
    let seen = Rc::new(RefCell::new(Vec::new()));
    let mut exec: Executor<Slot> = Executor::new();
    exec.spawn(RefCell::new(Box::pin(ReadyWith { value: 42, seen: seen.clone() })));
    exec.run(poll_with_noop_waker);
    assert_eq!(*seen.borrow(), vec![42]);
    assert_eq!(exec.run_once(&poll_with_noop_waker), None);
    exec.run(poll_with_noop_waker);
    assert_eq!(*seen.borrow(), vec![42]);
}

#[test]
fn executor_drops_pending_task_after_one_poll() {
    let polls = Rc::new(Cell::new(0u32));
    let mut exec: Executor<Slot> = Executor::new();
    exec.spawn(RefCell::new(Box::pin(NeverReady { polls: polls.clone() })));
    exec.run(poll_with_noop_waker);
    assert_eq!(polls.get(), 1);
    assert_eq!(exec.run_once(&poll_with_noop_waker), None);
    exec.run(poll_with_noop_waker);
    assert_eq!(polls.get(), 1);
}

#[test]
fn executor_run_once_reports_outcomes_in_spawn_order() {
    let polls = Rc::new(Cell::new(0u32));
    let seen = Rc::new(RefCell::new(Vec::new()));
    let mut exec: Executor<Slot> = Executor::new();
    exec.spawn(RefCell::new(Box::pin(NeverReady { polls: polls.clone() })));
    exec.spawn(RefCell::new(Box::pin(ReadyWith { value: 7, seen: seen.clone() })));
    assert_eq!(exec.run_once(&poll_with_noop_waker), Some(PollOutcome::Pending));
    assert_eq!(exec.run_once(&poll_with_noop_waker), Some(PollOutcome::Ready));
    assert_eq!(exec.run_once(&poll_with_noop_waker), None);
    assert_eq!(polls.get(), 1);
    assert_eq!(*seen.borrow(), vec![7]);
}
