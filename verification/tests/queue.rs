use toodles::queue::{queue_notice, Enqueued, QueryRegistry, QueuedRequest};

fn request(text: &str) -> QueuedRequest {
    QueuedRequest {
        text: text.to_string(),
        files: vec![format!("/{text}")],
    }
}

#[test]
fn one_worker_processes_requests_in_order() {
    let mut q = QueryRegistry::new();
    let key = (1, None);
    assert_eq!(q.enqueue(key, request("a")), Enqueued::StartWorker);
    assert_eq!(q.enqueue(key, request("b")), Enqueued::Queued(2));
    let a = q.next(&key).expect("a");
    assert_eq!((a.text.as_str(), a.files[0].as_str()), ("a", "/a"));
    assert_eq!(q.enqueue(key, request("c")), Enqueued::Queued(2));
    assert_eq!(q.next(&key).expect("b").text, "b");
    assert_eq!(q.next(&key).expect("c").text, "c");
    assert_eq!(q.enqueue(key, request("d")), Enqueued::Queued(1));
    assert_eq!(q.next(&key).expect("d").text, "d");
    assert!(q.next(&key).is_none());
    assert_eq!(q.enqueue(key, request("e")), Enqueued::StartWorker);
}

#[test]
fn queues_of_other_sessions_are_their_own() {
    let mut q = QueryRegistry::new();
    assert_eq!(q.enqueue((1, None), request("a")), Enqueued::StartWorker);
    assert_eq!(q.enqueue((1, Some(2)), request("b")), Enqueued::StartWorker);
    assert_eq!(q.next(&(1, None)).expect("a").text, "a");
    assert!(q.next(&(1, None)).is_none());
    assert_eq!(q.next(&(1, Some(2))).expect("b").text, "b");
    assert!(q.next(&(9, None)).is_none());
}

#[test]
fn notices_name_the_place() {
    assert_eq!(
        queue_notice(1),
        "⏳ Another request is running. Yours is queued next."
    );
    assert_eq!(queue_notice(3), "⏳ Request queued (position #3).");
    assert_eq!(queue_notice(120), "⏳ Request queued (position #120).");
}

#[test]
fn every_request_is_handed_out_once() {
    let mut q = QueryRegistry::new();
    let (a, b) = ((1, None), (2, None));
    let mut workers = 0;
    let mut handed = Vec::new();
    for i in 0..30 {
        let key = if i % 3 == 0 { b } else { a };
        if q.enqueue(key, request(&i.to_string())) == Enqueued::StartWorker && key == a {
            workers += 1;
        }
        assert!(workers <= 1);
        if i % 4 == 1 {
            handed.push(q.next(&a).expect("a request").text);
        }
    }
    while let Some(next) = q.next(&a) {
        handed.push(next.text);
    }
    let came: Vec<String> = (0..30).filter(|i| i % 3 != 0).map(|i| i.to_string()).collect();
    assert_eq!(handed, came);
    assert_eq!(workers, 1);
}
