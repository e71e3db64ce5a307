use std::cell::Cell;
use std::rc::Rc;

use wakeup::{AssertionKind, AssertionRequest, BackendError, Session};

/// A stand-in for an operating system assertion that counts its releases.
struct Fake {
    released: Rc<Cell<u32>>,
}

impl Drop for Fake {
    fn drop(&mut self) {
        self.released.set(self.released.get() + 1);
    }
}

fn requests(kinds: &[AssertionKind]) -> Vec<AssertionRequest> {
    kinds.iter().map(|k| AssertionRequest::new(*k, "test")).collect()
}

fn session(kinds: &[AssertionKind], released: &Rc<Cell<u32>>) -> Session<Fake> {
    let reqs = requests(kinds);
    let released = released.clone();
    match Session::create(&reqs, |_r: &AssertionRequest| {
        Ok::<Fake, BackendError>(Fake { released: released.clone() })
    }) {
        Ok(s) => s,
        Err(e) => panic!("creation failed: {}", e.message()),
    }
}

fn kinds_of(s: &Session<Fake>) -> Vec<AssertionKind> {
    s.held().iter().map(|h| h.kind()).collect()
}

#[test]
fn create_holds_every_request_in_order() {
    let released = Rc::new(Cell::new(0));
    let s = session(&[AssertionKind::IdleSystem, AssertionKind::Display, AssertionKind::UserActive], &released);
    assert_eq!(s.len(), 3);
    assert!(!s.is_empty());
    assert_eq!(
        kinds_of(&s),
        vec![AssertionKind::IdleSystem, AssertionKind::Display, AssertionKind::UserActive]
    );
    let times: Vec<Option<u64>> = s.held().iter().map(|h| h.release_at()).collect();
    assert_eq!(times, vec![None, None, None]);
    drop(s);
    assert_eq!(released.get(), 3);
}

#[test]
fn create_releases_what_it_made_on_first_failure() {
    let released = Rc::new(Cell::new(0u32));
    let calls = Rc::new(Cell::new(0u32));
    let reqs = requests(&[AssertionKind::IdleSystem, AssertionKind::Disk, AssertionKind::System]);
    let r = Session::create(&reqs, |q: &AssertionRequest| {
        calls.set(calls.get() + 1);
        if q.kind == AssertionKind::Disk {
            Err(BackendError::new("no disk".to_string()))
        } else {
            Ok(Fake { released: released.clone() })
        }
    });
    match r {
        Ok(_) => panic!("expected a failure"),
        Err(e) => assert_eq!(e.message(), "no disk"),
    }
    assert_eq!(calls.get(), 2);
    assert_eq!(released.get(), 1);
}

#[test]
fn empty_session() {
    let s: Session<Fake> = Session::new();
    assert!(s.is_empty());
    assert_eq!(s.len(), 0);
}

#[test]
fn set_release_at_touches_only_its_kind() {
    let released = Rc::new(Cell::new(0));
    let mut s = session(&[AssertionKind::IdleSystem, AssertionKind::UserActive], &released);
    s.set_release_at(AssertionKind::UserActive, 5_000);
    let times: Vec<Option<u64>> = s.held().iter().map(|h| h.release_at()).collect();
    assert_eq!(times, vec![None, Some(5_000)]);
    assert_eq!(kinds_of(&s), vec![AssertionKind::IdleSystem, AssertionKind::UserActive]);
}

#[test]
fn drop_expired_releases_exactly_the_expired() {
    let released = Rc::new(Cell::new(0));
    let mut s = session(
        &[AssertionKind::IdleSystem, AssertionKind::UserActive, AssertionKind::Display],
        &released,
    );
    s.set_release_at(AssertionKind::UserActive, 100);
    s.drop_expired(99);
    assert_eq!(s.len(), 3);
    assert_eq!(released.get(), 0);
    s.drop_expired(100);
    assert_eq!(kinds_of(&s), vec![AssertionKind::IdleSystem, AssertionKind::Display]);
    assert_eq!(released.get(), 1);
    // Releasing again at the same time releases nothing more.
    s.drop_expired(100);
    assert_eq!(s.len(), 2);
    assert_eq!(released.get(), 1);
}

#[test]
fn next_wake_is_the_soonest_release_or_the_fallback() {
    let released = Rc::new(Cell::new(0));
    let mut s = session(
        &[AssertionKind::IdleSystem, AssertionKind::UserActive, AssertionKind::Display],
        &released,
    );
    assert_eq!(s.next_wake(10, 777), 777);
    s.set_release_at(AssertionKind::UserActive, 250);
    s.set_release_at(AssertionKind::Display, 40);
    assert_eq!(s.next_wake(10, 777), 30);
    // A release time that has passed gives no wait at all.
    assert_eq!(s.next_wake(60, 777), 0);
    // The soonest release wins even over a shorter fallback.
    assert_eq!(s.next_wake(10, 5), 30);
}

#[test]
fn no_busy_wait_after_dropping_expired() {
    let released = Rc::new(Cell::new(0));
    let mut s = session(&[AssertionKind::UserActive, AssertionKind::Display], &released);
    s.set_release_at(AssertionKind::UserActive, 50);
    s.set_release_at(AssertionKind::Display, 80);
    s.drop_expired(50);
    assert!(s.next_wake(50, 1) > 0);
    assert_eq!(s.next_wake(50, 1), 30);
}

#[test]
fn wait_for_pid_keeps_holding_while_the_process_lives() {
    let released = Rc::new(Cell::new(0));
    let mut s = session(&[AssertionKind::UserActive], &released);
    s.set_release_at(AssertionKind::UserActive, 100);
    assert_eq!(s.wait_for_pid_step(true, 0, 500), Some(100));
    assert_eq!(s.wait_for_pid_step(true, 90, 500), Some(10));
    // Every assertion has expired, but the process still lives.
    assert_eq!(s.wait_for_pid_step(true, 100, 500), Some(500));
    assert!(s.is_empty());
    assert_eq!(released.get(), 1);
    assert_eq!(s.wait_for_pid_step(false, 200, 500), None);
}

#[test]
fn wait_for_pid_polls_no_longer_than_the_interval() {
    let released = Rc::new(Cell::new(0));
    let mut s = session(&[AssertionKind::UserActive], &released);
    s.set_release_at(AssertionKind::UserActive, 10_000);
    assert_eq!(s.wait_for_pid_step(true, 0, 500), Some(500));
    assert_eq!(s.wait_for_pid_step(false, 0, 500), None);
    assert_eq!(s.len(), 1);
}

#[test]
fn hold_for_never_sleeps_past_the_deadline() {
    let released = Rc::new(Cell::new(0));
    let mut s = session(&[AssertionKind::IdleSystem, AssertionKind::UserActive], &released);
    s.set_release_at(AssertionKind::UserActive, 300);
    assert_eq!(s.hold_for_step(0, 1_000), Some(300));
    assert_eq!(s.hold_for_step(300, 1_000), Some(700));
    assert_eq!(s.len(), 1);
    assert_eq!(s.hold_for_step(900, 1_000), Some(100));
    assert_eq!(s.hold_for_step(1_000, 1_000), None);
    assert_eq!(s.hold_for_step(5_000, 1_000), None);
    assert_eq!(s.len(), 1);
}

#[test]
fn hold_until_released_ends_when_everything_expired() {
    let released = Rc::new(Cell::new(0));
    let mut s = session(&[AssertionKind::UserActive, AssertionKind::Display], &released);
    s.set_release_at(AssertionKind::UserActive, 20);
    s.set_release_at(AssertionKind::Display, 50);
    assert_eq!(s.hold_until_released_step(0, 3_600), Some(20));
    assert_eq!(s.hold_until_released_step(20, 3_600), Some(30));
    assert_eq!(s.len(), 1);
    assert_eq!(s.hold_until_released_step(50, 3_600), None);
    assert!(s.is_empty());
    assert_eq!(released.get(), 2);
    assert_eq!(s.hold_until_released_step(60, 3_600), None);
}

#[test]
fn hold_until_released_uses_the_backstop_without_release_times() {
    let released = Rc::new(Cell::new(0));
    let mut s = session(&[AssertionKind::IdleSystem], &released);
    assert_eq!(s.hold_until_released_step(0, 3_600), Some(3_600));
    assert_eq!(s.len(), 1);
}
