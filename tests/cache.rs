use stream_cache::{Action, BackoffPolicy, Event, Phase, Reconciler, StreamCache};

fn pair(k: &str, v: u64) -> (String, u64) {
    (k.to_string(), v)
}

fn policy() -> BackoffPolicy {
    BackoffPolicy::new(100, 1000)
}

#[test]
fn works() {
    let mut cache = StreamCache::new();
    let mut control = Reconciler::new(policy());
    assert_eq!(control.start(), Action::Fetch);
    let snapshot = vec![pair("Berlin", 29), pair("Paris", 31)];
    assert_eq!(cache.apply(&mut control, Event::Fetched(snapshot), 0), Action::Subscribe);
    assert_eq!(cache.apply(&mut control, Event::Update("London".to_string(), 27), 0), Action::Next);
    assert_eq!(cache.apply(&mut control, Event::Update("Paris".to_string(), 32), 0), Action::Next);

    assert_eq!(cache.get("Berlin"), Some(29));
    assert_eq!(cache.get("London"), Some(27));
    assert_eq!(cache.get("Paris"), Some(32));
}

#[test]
fn priming_then_stream_reads_back() {
    let mut cache = StreamCache::new();
    assert_eq!(cache.get("Berlin"), None);
    let mut control = Reconciler::new(policy());
    cache.apply(&mut control, Event::Fetched(vec![pair("Berlin", 29), pair("Paris", 31)]), 0);
    assert_eq!(control.phase, Phase::Streaming);
    cache.apply(&mut control, Event::Update("London".to_string(), 27), 0);
    cache.apply(&mut control, Event::Update("Paris".to_string(), 32), 0);
    assert_eq!(cache.get("Berlin"), Some(29));
    assert_eq!(cache.get("London"), Some(27));
    assert_eq!(cache.get("Paris"), Some(32));
    assert_eq!(cache.get("Tokyo"), None);
}

#[test]
fn fetch_failure_then_recovery() {
    let mut cache = StreamCache::new();
    let mut control = Reconciler::new(policy());
    let mut phases = vec![control.phase];
    let a = cache.apply(&mut control, Event::FetchFailed, 0);
    assert_eq!(a, Action::Wait(50));
    phases.push(control.phase);
    assert_eq!(cache.apply(&mut control, Event::BackoffElapsed, 0), Action::Fetch);
    phases.push(control.phase);
    assert_eq!(cache.apply(&mut control, Event::Fetched(vec![pair("Rome", 20)]), 0), Action::Subscribe);
    phases.push(control.phase);
    cache.apply(&mut control, Event::Update("Oslo".to_string(), 3), 0);
    phases.push(control.phase);

    assert_eq!(cache.get("Rome"), Some(20));
    let mut entered = 0;
    for i in 1..phases.len() {
        if phases[i] == Phase::Streaming && phases[i - 1] != Phase::Streaming {
            entered += 1;
        }
    }
    assert_eq!(entered, 1);
    assert_eq!(control.fetch_failures, 0);
}

#[test]
fn later_updates_win_over_snapshot_and_earlier_updates() {
    let mut cache = StreamCache::new();
    let mut control = Reconciler::new(policy());
    cache.apply(&mut control, Event::Fetched(vec![pair("a", 1), pair("b", 2)]), 0);
    cache.apply(&mut control, Event::Update("a".to_string(), 10), 0);
    cache.apply(&mut control, Event::Update("c".to_string(), 30), 0);
    cache.apply(&mut control, Event::Update("a".to_string(), 11), 0);
    assert_eq!(cache.get("a"), Some(11));
    assert_eq!(cache.get("b"), Some(2));
    assert_eq!(cache.get("c"), Some(30));
}

#[test]
fn retried_fetch_gives_same_store_and_state() {
    let mut once = StreamCache::new();
    let mut c1 = Reconciler::new(policy());
    once.apply(&mut c1, Event::Fetched(vec![pair("x", 5), pair("y", 6)]), 0);

    let mut retried = StreamCache::new();
    let mut c2 = Reconciler::new(policy());
    for _ in 0..3 {
        retried.apply(&mut c2, Event::FetchFailed, 7);
        retried.apply(&mut c2, Event::BackoffElapsed, 7);
    }
    retried.apply(&mut c2, Event::Fetched(vec![pair("x", 5), pair("y", 6)]), 0);

    assert_eq!(c1, c2);
    for k in ["x", "y", "z"] {
        assert_eq!(once.get(k), retried.get(k));
    }
}

#[test]
fn updates_are_ignored_while_priming() {
    let mut cache = StreamCache::new();
    let mut control = Reconciler::new(policy());
    assert_eq!(cache.apply(&mut control, Event::Update("k".to_string(), 1), 0), Action::Keep);
    assert_eq!(control.phase, Phase::Priming);
    assert_eq!(cache.get("k"), None);
}

#[test]
fn nothing_is_written_after_cancel() {
    let mut cache = StreamCache::new();
    let mut control = Reconciler::new(policy());
    cache.apply(&mut control, Event::Fetched(vec![pair("Berlin", 29)]), 0);
    assert_eq!(cache.apply(&mut control, Event::Cancelled, 0), Action::Stop);
    assert_eq!(control.phase, Phase::Stopped);
    assert_eq!(control.start(), Action::Stop);
    let before = cache.get("Berlin");
    assert_eq!(cache.apply(&mut control, Event::Update("Berlin".to_string(), 1), 0), Action::Stop);
    assert_eq!(cache.apply(&mut control, Event::Fetched(vec![pair("Berlin", 2)]), 0), Action::Stop);
    assert_eq!(cache.apply(&mut control, Event::BackoffElapsed, 0), Action::Stop);
    assert_eq!(cache.get("Berlin"), before);
    assert_eq!(cache.get("Berlin"), Some(29));
    assert_eq!(control.phase, Phase::Stopped);
}

#[test]
fn cancel_while_priming_stops() {
    let mut cache = StreamCache::new();
    let mut control = Reconciler::new(policy());
    assert_eq!(cache.apply(&mut control, Event::Cancelled, 0), Action::Stop);
    assert_eq!(cache.apply(&mut control, Event::Fetched(vec![pair("a", 1)]), 0), Action::Stop);
    assert_eq!(cache.get("a"), None);
}

#[test]
fn stream_failure_reopens_stream_only() {
    let mut cache = StreamCache::new();
    let mut control = Reconciler::new(policy());
    cache.apply(&mut control, Event::Fetched(vec![pair("a", 1)]), 0);
    assert_eq!(cache.apply(&mut control, Event::StreamFailed, 0), Action::Wait(50));
    assert_eq!(control.phase, Phase::RecoveringStream);
    assert_eq!(control.stream_failures, 1);
    assert_eq!(cache.apply(&mut control, Event::StreamFailed, 0), Action::Keep);
    assert_eq!(cache.apply(&mut control, Event::BackoffElapsed, 0), Action::Subscribe);
    assert_eq!(control.phase, Phase::Streaming);
    assert_eq!(cache.apply(&mut control, Event::StreamFailed, 0), Action::Wait(100));
    assert_eq!(cache.apply(&mut control, Event::BackoffElapsed, 0), Action::Subscribe);
    assert_eq!(cache.apply(&mut control, Event::Update("a".to_string(), 9), 0), Action::Next);
    assert_eq!(control.stream_failures, 0);
    assert_eq!(cache.get("a"), Some(9));
}

#[test]
fn fetch_backoff_grows_with_failures() {
    let mut cache = StreamCache::new();
    let mut control = Reconciler::new(policy());
    let mut waits = Vec::new();
    for _ in 0..6 {
        match cache.apply(&mut control, Event::FetchFailed, 0) {
            Action::Wait(d) => waits.push(d),
            other => panic!("unexpected {:?}", other),
        }
        cache.apply(&mut control, Event::BackoffElapsed, 0);
    }
    assert_eq!(waits, vec![50, 100, 200, 400, 800, 1000]);
}

#[test]
fn saturated_failure_count_keeps_ceiling_delay() {
    let mut cache = StreamCache::new();
    let mut control = Reconciler::new(policy());
    control.fetch_failures = u32::MAX;
    assert_eq!(cache.apply(&mut control, Event::FetchFailed, 3), Action::Wait(1000));
    assert_eq!(control.fetch_failures, u32::MAX);
    cache.apply(&mut control, Event::BackoffElapsed, 0);
    assert_eq!(cache.apply(&mut control, Event::FetchFailed, 999), Action::Wait(1000));
}
