use std::time::Duration;
use std::time::Instant;

use node_events::emitter::{Emitter, RecvTimeoutError, TryRecvError, MAX_PENDING_EVENTS};
use node_events::events::Event;

fn peer(nid: &str) -> Event {
    Event::PeerConnected { nid: nid.to_string() }
}

fn seed(rid: &str, nid: &str) -> Event {
    Event::SeedDiscovered { rid: rid.to_string(), nid: nid.to_string() }
}

#[test]
fn emitting_with_no_subscribers_is_harmless() {
    let mut emitter = Emitter::default();
    emitter.emit(peer("alice"));
    emitter.emit(seed("repo", "bob"));
    assert_eq!(emitter.subscriptions(), 0);
    assert_eq!(emitter.pending(), 0);
}

#[test]
fn subscriber_sees_nothing_emitted_before_it_subscribed() {
    let mut emitter = Emitter::default();
    emitter.emit(peer("alice"));
    emitter.emit(peer("bob"));
    let mut events = emitter.subscribe();
    assert_eq!(events.try_recv(), Err(TryRecvError::Empty));
    emitter.emit(peer("carol"));
    assert_eq!(events.try_recv(), Ok(peer("carol")));
    assert_eq!(events.try_recv(), Err(TryRecvError::Empty));
}

#[test]
fn every_subscriber_sees_the_run_in_order() {
    let mut emitter = Emitter::default();
    let mut feeds = vec![
        emitter.subscribe(),
        emitter.subscribe(),
        emitter.subscribe(),
    ];
    let run = vec![peer("alice"), seed("repo", "bob"), peer("carol")];
    for e in &run {
        emitter.emit(e.clone());
    }
    for feed in feeds.iter_mut() {
        for e in &run {
            assert_eq!(feed.try_recv(), Ok(e.clone()));
        }
        assert_eq!(feed.try_recv(), Err(TryRecvError::Empty));
    }
}

#[test]
fn two_subscribers_observe_one_event_exactly_once_each() {
    let mut emitter = Emitter::default();
    let mut s1 = emitter.subscribe();
    let mut s2 = emitter.subscribe();
    let x = seed("repo", "eve");
    emitter.emit(x.clone());
    assert_eq!(s1.try_recv(), Ok(x.clone()));
    assert_eq!(s1.try_recv(), Err(TryRecvError::Empty));
    assert_eq!(s2.try_recv(), Ok(x.clone()));
    assert_eq!(s2.try_recv(), Err(TryRecvError::Empty));
}

#[test]
fn filling_the_queue_leaves_pending_at_capacity() {
    let mut emitter = Emitter::default();
    let _events = emitter.subscribe();
    for _ in 0..MAX_PENDING_EVENTS {
        emitter.emit(peer("alice"));
    }
    assert_eq!(emitter.pending(), MAX_PENDING_EVENTS);
    assert_eq!(emitter.subscriptions(), 1);
}

#[test]
fn overflowing_subscriber_is_pruned_lazily() {
    let mut emitter = Emitter::default();
    let _events = emitter.subscribe();
    for _ in 0..MAX_PENDING_EVENTS {
        emitter.emit(peer("alice"));
    }
    // The queue is full: this delivery fails and the subscriber gets nothing
    // further, but the registry still counts it until the next emit.
    emitter.emit(peer("bob"));
    assert_eq!(emitter.subscriptions(), 1);
    emitter.emit(peer("carol"));
    assert_eq!(emitter.subscriptions(), 0);
    assert_eq!(emitter.pending(), 0);
}

#[test]
fn dropped_handle_is_discovered_on_delivery() {
    let mut emitter = Emitter::default();
    let events = emitter.subscribe();
    let _keep = emitter.subscribe();
    drop(events);
    assert_eq!(emitter.subscriptions(), 2);
    // The delivery to the dropped handle fails here and is pruned next time.
    emitter.emit(peer("alice"));
    assert_eq!(emitter.subscriptions(), 2);
    emitter.emit(peer("bob"));
    assert_eq!(emitter.subscriptions(), 1);
}

#[test]
fn wait_returns_the_value_of_the_first_satisfying_event() {
    let mut emitter = Emitter::default();
    let mut events = emitter.subscribe();
    emitter.emit(peer("alice"));
    emitter.emit(seed("repo", "bob"));
    emitter.emit(peer("carol"));
    let started = Instant::now();
    let got = events.wait(
        |e: &Event| match e {
            Event::SeedDiscovered { nid, .. } => Some(nid.clone()),
            _ => None,
        },
        Duration::from_secs(5),
    );
    assert_eq!(got, Ok("bob".to_string()));
    // The event arrived well before the timeout, so the wait returned well
    // within it.
    assert!(started.elapsed() < Duration::from_secs(5));
    // Events up to and including the match were consumed; later ones remain.
    assert_eq!(events.try_recv(), Ok(peer("carol")));
}

#[test]
fn wait_times_out_while_the_producer_lives() {
    let mut emitter = Emitter::default();
    let mut events = emitter.subscribe();
    emitter.emit(peer("alice"));
    let started = Instant::now();
    let got: Result<(), RecvTimeoutError> = events.wait(
        |e: &Event| match e {
            Event::SeedDiscovered { .. } => Some(()),
            _ => None,
        },
        Duration::from_millis(80),
    );
    assert_eq!(got, Err(RecvTimeoutError::Timeout));
    // Blocked about as long as asked, and not unboundedly longer.
    assert!(started.elapsed() >= Duration::from_millis(80));
    assert!(started.elapsed() < Duration::from_secs(5));
}

#[test]
fn wait_reports_disconnection_not_timeout() {
    let mut emitter = Emitter::default();
    let mut events = emitter.subscribe();
    emitter.emit(peer("alice"));
    drop(emitter);
    let started = Instant::now();
    let got: Result<(), RecvTimeoutError> = events.wait(
        |e: &Event| match e {
            Event::SeedDiscovered { .. } => Some(()),
            _ => None,
        },
        Duration::from_secs(30),
    );
    assert_eq!(got, Err(RecvTimeoutError::Disconnected));
    // Detected long before the requested timeout could elapse.
    assert!(started.elapsed() < Duration::from_secs(5));
}

#[test]
fn dropping_the_emitter_closes_the_feed() {
    let mut emitter = Emitter::default();
    let mut events = emitter.subscribe();
    emitter.emit(peer("alice"));
    drop(emitter);
    assert_eq!(events.try_recv(), Ok(peer("alice")));
    assert_eq!(events.try_recv(), Err(TryRecvError::Disconnected));
}

#[test]
fn capacity_is_the_documented_constant() {
    assert_eq!(MAX_PENDING_EVENTS, 8192);
}
