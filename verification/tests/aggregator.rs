use std::time::Duration;

use toodles::aggregator::{DrainStep, MessageAggregator, MessagePart};
use toodles::session::SessionKey;

fn sleep(duration: Duration) {
    let runtime = tokio::runtime::Builder::new_current_thread()
        .enable_time()
        .build()
        .expect("a runtime");
    runtime.block_on(async { tokio::time::sleep(duration).await });
}

fn make_part(text: &str) -> MessagePart {
    MessagePart {
        text: text.to_string(),
    }
}

#[test]
fn push_first_returns_true() {
    let mut agg = MessageAggregator::new(Duration::from_secs(1));
    let key: SessionKey = (123, None);
    assert!(agg.push(key, make_part("hello")));
}

#[test]
fn push_second_returns_false() {
    let mut agg = MessageAggregator::new(Duration::from_secs(1));
    let key: SessionKey = (123, None);
    assert!(agg.push(key, make_part("hello")));
    assert!(!agg.push(key, make_part("world")));
}

#[test]
fn take_before_deadline_returns_none() {
    let mut agg = MessageAggregator::new(Duration::from_secs(60));
    let key: SessionKey = (123, None);
    agg.push(key, make_part("hello"));
    assert!(agg.take_if_ready(&key).is_none());
}

#[test]
fn take_after_deadline_returns_parts() {
    let mut agg = MessageAggregator::new(Duration::from_millis(50));
    let key: SessionKey = (123, None);
    agg.push(key, make_part("hello"));
    agg.push(key, make_part("world"));

    sleep(Duration::from_millis(100));

    let parts = agg.take_if_ready(&key).expect("should be ready");
    assert_eq!(parts.len(), 2);
    assert_eq!(parts[0].text, "hello");
    assert_eq!(parts[1].text, "world");
}

#[test]
fn take_clears_pending_entry() {
    let mut agg = MessageAggregator::new(Duration::from_millis(50));
    let key: SessionKey = (123, None);
    agg.push(key, make_part("hello"));

    sleep(Duration::from_millis(100));
    agg.take_if_ready(&key);

    // Second take should return None (entry removed).
    assert!(agg.take_if_ready(&key).is_none());
}

#[test]
fn take_nonexistent_key_returns_none() {
    let mut agg = MessageAggregator::new(Duration::from_millis(50));
    let key: SessionKey = (999, Some(42));
    assert!(agg.take_if_ready(&key).is_none());
}

#[test]
fn combine_single_part() {
    let parts = vec![make_part("only one")];
    assert_eq!(MessageAggregator::combine(&parts), "only one");
}

#[test]
fn combine_multiple_parts() {
    let parts = vec![
        make_part("first"),
        make_part("second"),
        make_part("third"),
    ];
    assert_eq!(
        MessageAggregator::combine(&parts),
        "first\n\nsecond\n\nthird"
    );
}

#[test]
fn different_keys_are_isolated() {
    let mut agg = MessageAggregator::new(Duration::from_secs(60));
    let key_a: SessionKey = (100, None);
    let key_b: SessionKey = (200, None);

    assert!(agg.push(key_a, make_part("a1")));
    assert!(agg.push(key_b, make_part("b1")));
    // Second push to key_a should not be first.
    assert!(!agg.push(key_a, make_part("a2")));
}

#[test]
fn thread_id_creates_separate_keys() {
    let mut agg = MessageAggregator::new(Duration::from_secs(60));
    let key_no_thread: SessionKey = (100, None);
    let key_with_thread: SessionKey = (100, Some(42));

    assert!(agg.push(key_no_thread, make_part("no thread")));
    assert!(agg.push(key_with_thread, make_part("with thread")));
}

#[test]
fn deadline_extends_with_new_parts() {
    let mut agg = MessageAggregator::new(Duration::from_millis(100));
    let key: SessionKey = (123, None);

    agg.push(key, make_part("first"));

    // After 60ms, push another part (extends deadline by another 100ms).
    sleep(Duration::from_millis(60));
    agg.push(key, make_part("second"));

    // At 80ms from first push, original deadline would have passed,
    // but the extended deadline has not.
    sleep(Duration::from_millis(60));
    assert!(agg.take_if_ready(&key).is_none());

    // After the extended deadline.
    sleep(Duration::from_millis(80));
    let parts = agg.take_if_ready(&key).expect("should be ready now");
    assert_eq!(parts.len(), 2);
}

#[test]
fn window_returns_configured_duration() {
    let agg = MessageAggregator::new(Duration::from_millis(1500));
    assert_eq!(agg.window(), Duration::from_millis(1500));
}

const WINDOW: u128 = 1_000_000_000;

fn second() -> MessageAggregator {
    MessageAggregator::new(Duration::from_secs(1))
}

#[test]
fn batch_is_due_when_the_window_has_passed() {
    let mut agg = second();
    let key: SessionKey = (1, None);
    assert!(agg.push_at(key, make_part("a"), 5));
    assert!(agg.take_at(&key, 5 + WINDOW - 1).is_none());
    let parts = agg.take_at(&key, 5 + WINDOW).expect("due");
    assert_eq!(parts.len(), 1);
    assert_eq!(parts[0].text, "a");
    assert!(agg.push_at(key, make_part("b"), 6 + WINDOW));
}

#[test]
fn each_part_moves_the_deadline() {
    let mut agg = second();
    let key: SessionKey = (1, Some(2));
    agg.push_at(key, make_part("a"), 0);
    agg.push_at(key, make_part("b"), 600);
    assert!(agg.take_at(&key, WINDOW + 599).is_none());
    assert_eq!(agg.wait_at(&key, WINDOW), Some(Duration::from_nanos(600)));
    assert_eq!(agg.wait_at(&key, WINDOW + 600), Some(Duration::ZERO));
    let parts = agg.take_at(&key, WINDOW + 600).expect("due");
    assert_eq!(MessageAggregator::combine(&parts), "a\n\nb");
    assert_eq!(agg.wait_at(&key, WINDOW + 600), None);
}

#[test]
fn other_keys_keep_their_batches() {
    let mut agg = second();
    agg.push_at((1, None), make_part("a"), 0);
    agg.push_at((2, None), make_part("b"), 0);
    assert!(agg.take_at(&(1, None), WINDOW).is_some());
    assert!(agg.take_at(&(1, None), WINDOW).is_none());
    let parts = agg.take_at(&(2, None), WINDOW).expect("due");
    assert_eq!(parts[0].text, "b");
}

#[test]
fn drain_waits_then_hands_the_prompt_out() {
    let mut agg = second();
    let key: SessionKey = (7, None);
    assert!(matches!(agg.drain_step_at(&key, 0, 0), DrainStep::Gone));
    agg.push_at(key, make_part("one"), 0);
    agg.push_at(key, make_part("two"), 0);
    match agg.drain_step_at(&key, 10, 20) {
        DrainStep::Wait(d) => assert_eq!(d, Duration::from_nanos(999_999_980)),
        other => panic!("{other:?}"),
    }
    assert!(matches!(
        agg.drain_step_at(&key, WINDOW - 1, WINDOW),
        DrainStep::Retry
    ));
    match agg.drain_step_at(&key, WINDOW, WINDOW) {
        DrainStep::Ready(prompt) => assert_eq!(prompt, "one\n\ntwo"),
        other => panic!("{other:?}"),
    }
    assert!(matches!(agg.drain_step(&key), DrainStep::Gone));
}

#[test]
fn waiting_time_is_at_most_the_window() {
    let mut agg = MessageAggregator::new(Duration::from_secs(60));
    let key: SessionKey = (3, None);
    assert_eq!(agg.wait_deadline(&key), None);
    agg.push(key, make_part("x"));
    let left = agg.wait_deadline(&key).expect("a batch");
    assert!(left <= Duration::from_secs(60));
    assert!(left > Duration::from_secs(50));
    assert!(matches!(agg.drain_step(&key), DrainStep::Wait(_)));
}

#[test]
fn deadline_stops_at_the_end_of_time() {
    let mut agg = second();
    let key: SessionKey = (4, None);
    agg.push_at(key, make_part("x"), u128::MAX);
    assert_eq!(
        agg.wait_at(&key, 0),
        Some(Duration::new(u64::MAX, 0))
    );
    assert!(agg.take_at(&key, u128::MAX - 1).is_none());
    assert!(agg.take_at(&key, u128::MAX).is_some());
}

#[test]
fn no_parts_make_an_empty_prompt() {
    assert_eq!(MessageAggregator::combine(&[]), "");
}

#[test]
fn batch_is_what_arrived_since_the_last_one() {
    const SECOND: u128 = 1_000_000_000;
    let mut agg = MessageAggregator::new(Duration::from_secs(1));
    let (a, b): (SessionKey, SessionKey) = ((1, None), (2, None));
    let texts = |parts: Option<Vec<MessagePart>>| -> Option<Vec<String>> {
        parts.map(|parts| parts.into_iter().map(|part| part.text).collect())
    };
    assert!(agg.push_at(a, make_part("1"), 0));
    assert!(!agg.push_at(a, make_part("2"), SECOND / 2));
    assert!(agg.push_at(b, make_part("x"), 0));
    assert_eq!(texts(agg.take_at(&a, SECOND)), None);
    assert!(!agg.push_at(a, make_part("3"), SECOND));
    assert_eq!(texts(agg.take_at(&a, 2 * SECOND - 1)), None);
    assert_eq!(
        texts(agg.take_at(&a, 2 * SECOND)),
        Some(vec!["1".to_string(), "2".to_string(), "3".to_string()])
    );
    assert_eq!(texts(agg.take_at(&a, 9 * SECOND)), None);
    assert!(agg.push_at(a, make_part("4"), 9 * SECOND));
    assert_eq!(texts(agg.take_at(&b, SECOND)), Some(vec!["x".to_string()]));
    assert_eq!(texts(agg.take_at(&a, 10 * SECOND)), Some(vec!["4".to_string()]));
}

#[test]
fn batch_that_is_asked_for_early_becomes_due_all_the_same() {
    let mut agg = MessageAggregator::new(Duration::from_millis(200));
    let key: SessionKey = (1, None);
    agg.push(key, make_part("a"));
    for _ in 0..2 {
        assert!(agg.take_if_ready(&key).is_none());
        sleep(Duration::from_millis(20));
    }
    sleep(Duration::from_millis(200));
    assert_eq!(agg.take_if_ready(&key).map(|parts| parts.len()), Some(1));
}
