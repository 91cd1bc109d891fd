use wormhole::model::ExpiryAction;
use wormhole::worker::{Command, Event, Reply, Worker};

fn s(x: &str) -> String {
    x.to_string()
}

fn ids(replies: &[Reply]) -> Vec<(u64, String)> {
    replies.iter().map(|r| (r.id, r.value.clone())).collect()
}

#[test]
fn unknown_key_reads_empty() {
    let w = Worker::new();
    assert_eq!(w.get_current_value(&s("nobody")), "");
}

#[test]
fn read_after_write() {
    let mut w = Worker::new();
    w.update(s("alice"), s("x"), 0);
    assert_eq!(w.get_current_value(&s("alice")), "x");
    assert_eq!(w.get_current_value(&s("bob")), "");
}

#[test]
fn first_write_inserts_timer_then_resets_it() {
    let mut w = Worker::new();
    let first = w.update(s("alice"), s("x"), 0);
    assert!(matches!(first.expiry, ExpiryAction::Insert));
    assert!(first.replies.is_empty());
    let second = w.update(s("alice"), s("y"), 10);
    assert!(matches!(second.expiry, ExpiryAction::Reset));
}

#[test]
fn blocked_poll_answered_by_change() {
    let mut w = Worker::new();
    w.update(s("alice"), s("x"), 0);
    assert_eq!(w.await_different_value(7, s("alice"), s("x")), None);
    let out = w.update(s("alice"), s("y"), 100);
    assert_eq!(ids(&out.replies), vec![(7, s("y"))]);
    let again = w.update(s("alice"), s("z"), 200);
    assert!(again.replies.is_empty());
}

#[test]
fn stale_view_answered_at_once() {
    let mut w = Worker::new();
    w.update(s("alice"), s("x"), 0);
    assert_eq!(w.await_different_value(1, s("alice"), s("old")), Some(s("x")));
    let out = w.update(s("alice"), s("y"), 1);
    assert!(out.replies.is_empty());
}

#[test]
fn same_value_twice_wakes_nobody() {
    let mut w = Worker::new();
    w.update(s("k"), s("v"), 0);
    assert_eq!(w.await_different_value(3, s("k"), s("v")), None);
    assert!(w.update(s("k"), s("v"), 10).replies.is_empty());
    assert!(w.update(s("k"), s("v"), 20).replies.is_empty());
    let out = w.update(s("k"), s("w"), 30);
    assert_eq!(ids(&out.replies), vec![(3, s("w"))]);
}

#[test]
fn two_waiters_both_answered() {
    let mut w = Worker::new();
    w.update(s("carol"), s("p"), 0);
    assert_eq!(w.await_different_value(1, s("carol"), s("p")), None);
    assert_eq!(w.await_different_value(2, s("carol"), s("p")), None);
    let out = w.update(s("carol"), s("q"), 50);
    assert_eq!(ids(&out.replies), vec![(1, s("q")), (2, s("q"))]);
}

#[test]
fn poll_on_unknown_key_waits_for_first_write() {
    let mut w = Worker::new();
    assert_eq!(w.await_different_value(9, s("dave"), s("")), None);
    let out = w.update(s("dave"), s("hi"), 5);
    assert_eq!(ids(&out.replies), vec![(9, s("hi"))]);
}

#[test]
fn value_expires_after_ttl() {
    let mut w = Worker::new();
    w.update(s("bob"), s("z"), 0);
    let replies = w.expire(&s("bob"), 5100);
    assert!(replies.is_empty());
    assert_eq!(w.get_current_value(&s("bob")), "");
}

#[test]
fn expiry_at_exact_deadline() {
    let mut w = Worker::new();
    w.update(s("bob"), s("z"), 1000);
    w.expire(&s("bob"), 6000);
    assert_eq!(w.get_current_value(&s("bob")), "");
}

#[test]
fn write_postpones_expiry() {
    let mut w = Worker::new();
    w.update(s("erin"), s("a"), 0);
    w.update(s("erin"), s("a"), 4000);
    assert!(w.expire(&s("erin"), 5000).is_empty());
    assert_eq!(w.get_current_value(&s("erin")), "a");
    w.update(s("erin"), s("b"), 8000);
    w.expire(&s("erin"), 9000);
    assert_eq!(w.get_current_value(&s("erin")), "b");
    w.expire(&s("erin"), 13000);
    assert_eq!(w.get_current_value(&s("erin")), "");
}

#[test]
fn expiry_answers_waiters_with_default() {
    let mut w = Worker::new();
    w.update(s("fay"), s("x"), 0);
    assert_eq!(w.await_different_value(4, s("fay"), s("x")), None);
    let replies = w.expire(&s("fay"), 5000);
    assert_eq!(ids(&replies), vec![(4, s(""))]);
    assert_eq!(w.get_current_value(&s("fay")), "");
    let first = w.update(s("fay"), s("y"), 6000);
    assert!(matches!(first.expiry, ExpiryAction::Insert));
}

#[test]
fn waiter_on_default_survives_expiry() {
    let mut w = Worker::new();
    w.update(s("gus"), s(""), 0);
    assert_eq!(w.await_different_value(5, s("gus"), s("")), None);
    assert!(w.expire(&s("gus"), 5000).is_empty());
    let out = w.update(s("gus"), s("back"), 6000);
    assert!(matches!(out.expiry, ExpiryAction::Insert));
    assert_eq!(ids(&out.replies), vec![(5, s("back"))]);
}

#[test]
fn expiry_of_unknown_key_is_ignored() {
    let mut w = Worker::new();
    assert!(w.expire(&s("nobody"), 10000).is_empty());
    assert_eq!(w.get_current_value(&s("nobody")), "");
}

#[test]
fn keys_are_independent() {
    let mut w = Worker::new();
    w.update(s("a"), s("1"), 0);
    w.update(s("b"), s("2"), 3000);
    w.expire(&s("a"), 5000);
    w.expire(&s("b"), 5000);
    assert_eq!(w.get_current_value(&s("a")), "");
    assert_eq!(w.get_current_value(&s("b")), "2");
}

#[test]
fn handle_dispatches_commands() {
    let mut w = Worker::new();
    let step = w.handle(Event::Command(Command::Update(s("alice"), s("x"))), 0);
    match step.expiry {
        Some((key, ExpiryAction::Insert)) => assert_eq!(key, "alice"),
        _ => panic!("expected a new timer for alice"),
    }
    let read = w.handle(Event::Command(Command::GetCurrentValue(s("alice"), 11)), 1);
    assert!(read.expiry.is_none());
    assert_eq!(ids(&read.replies), vec![(11, s("x"))]);
    let poll = w.handle(Event::Command(Command::AwaitDifferentValue(s("alice"), s("x"), 12)), 2);
    assert!(poll.replies.is_empty());
    let change = w.handle(Event::Command(Command::Update(s("alice"), s("y"))), 3);
    assert!(matches!(change.expiry, Some((_, ExpiryAction::Reset))));
    assert_eq!(ids(&change.replies), vec![(12, s("y"))]);
    let now = w.handle(Event::Command(Command::AwaitDifferentValue(s("alice"), s("x"), 13)), 4);
    assert_eq!(ids(&now.replies), vec![(13, s("y"))]);
    let fired = w.handle(Event::Expired(s("alice")), 5003);
    assert!(fired.replies.is_empty());
    let read = w.handle(Event::Command(Command::GetCurrentValue(s("alice"), 14)), 5004);
    assert_eq!(ids(&read.replies), vec![(14, s(""))]);
}
