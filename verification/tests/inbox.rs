use std::time::Duration;

use toodles::aggregator::MessagePart;
use toodles::inbox::{Inbox, InboxStep};

const SECOND: u128 = 1_000_000_000;

fn part(text: &str) -> MessagePart {
    MessagePart {
        text: text.to_string(),
    }
}

fn file(path: &str) -> Option<String> {
    Some(path.to_string())
}

fn ready(step: InboxStep) -> (String, Vec<String>) {
    match step {
        InboxStep::Ready(request) => (request.text, request.files),
        other => panic!("{other:?}"),
    }
}

#[test]
fn files_leave_with_their_batch_in_order() {
    let mut inbox = Inbox::new(Duration::from_secs(1));
    let (a, b) = ((1, None), (1, Some(2)));
    assert!(inbox.push_at(a, part("one"), file("/1"), 0));
    assert!(inbox.push_at(b, part("other"), file("/x"), 0));
    assert!(!inbox.push_at(a, part("two"), None, 1));
    assert!(!inbox.push_at(a, part("three"), file("/3"), 2));
    assert!(matches!(
        inbox.drain_step_at(&a, SECOND, SECOND + 1),
        InboxStep::Wait(left) if left == Duration::from_nanos(1)
    ));
    let (text, files) = ready(inbox.drain_step_at(&a, SECOND + 2, SECOND + 2));
    assert_eq!(text, "one\n\ntwo\n\nthree");
    assert_eq!(files, vec!["/1", "/3"]);
    assert!(matches!(
        inbox.drain_step_at(&a, 9 * SECOND, 9 * SECOND),
        InboxStep::Gone
    ));
    let (text, files) = ready(inbox.drain_step_at(&b, SECOND, SECOND));
    assert_eq!((text.as_str(), files), ("other", vec!["/x".to_string()]));
}

#[test]
fn next_batch_has_none_of_the_old_files() {
    let mut inbox = Inbox::new(Duration::from_secs(1));
    let key = (7, Some(-1));
    inbox.push_at(key, part("a"), file("/a"), 0);
    ready(inbox.drain_step_at(&key, SECOND, SECOND));
    assert!(inbox.push_at(key, part("b"), None, SECOND));
    let (text, files) = ready(inbox.drain_step_at(&key, 2 * SECOND, 2 * SECOND));
    assert_eq!((text.as_str(), files.len()), ("b", 0));
}

#[test]
fn batch_that_becomes_due_meanwhile_is_tried_again() {
    let mut inbox = Inbox::new(Duration::from_secs(1));
    inbox.push_at((1, None), part("a"), file("/a"), 0);
    assert!(matches!(
        inbox.drain_step_at(&(1, None), SECOND - 1, SECOND),
        InboxStep::Retry
    ));
    assert_eq!(ready(inbox.drain_step_at(&(1, None), SECOND, SECOND)).1, vec!["/a"]);
}

#[test]
fn inbox_goes_by_the_clock() {
    let mut inbox = Inbox::new(Duration::from_secs(0));
    assert!(inbox.push((1, None), part("a"), file("/a")));
    let (text, files) = ready(inbox.drain_step(&(1, None)));
    assert_eq!((text.as_str(), files), ("a", vec!["/a".to_string()]));
    assert!(matches!(inbox.drain_step(&(1, None)), InboxStep::Gone));
    let mut inbox = Inbox::new(Duration::from_secs(1000));
    inbox.push((1, None), part("a"), None);
    assert!(matches!(inbox.drain_step(&(1, None)), InboxStep::Wait(_)));
}
