use warp_ipfs::events::{EventQueue, SUBSCRIBER_CAPACITY};

fn pump(queue: &mut EventQueue<String>) {
    while queue.dispatch() {}
}

#[test]
fn emit_event() {
    let mut pubsub = EventQueue::<String>::new();
    let stream = pubsub.subscribe();
    pubsub.emit(String::from("Hello, World"));
    pubsub.emit(String::from("World, Hello"));
    pump(&mut pubsub);
    let ev = pubsub.receive(stream).expect("Stream contains value");
    assert_eq!(ev, "Hello, World");
    let ev = pubsub.receive(stream).expect("Stream contains value");
    assert_eq!(ev, "World, Hello");
    assert_eq!(pubsub.receive(stream), None);
}

#[test]
fn multiple_emit_before_subscription() {
    let mut pubsub = EventQueue::<String>::new();
    pubsub.emit(String::from("Hello, World"));
    pubsub.emit(String::from("World, Hello"));
    // Nobody listens yet: the first event goes back to the front.
    assert!(!pubsub.dispatch());

    let stream = pubsub.subscribe();
    pump(&mut pubsub);
    let mut list = Vec::new();
    while let Some(ev) = pubsub.receive(stream) {
        list.push(ev);
    }
    assert_eq!(list.len(), 2);
    assert_eq!(list[0], "Hello, World");
    assert_eq!(list[1], "World, Hello");
}

#[test]
fn every_subscriber_gets_each_event() {
    let mut pubsub = EventQueue::<String>::new();
    let a = pubsub.subscribe();
    let b = pubsub.subscribe();
    assert_eq!((a, b), (0, 1));
    pubsub.emit(String::from("one"));
    assert!(pubsub.dispatch());
    assert_eq!(pubsub.receive(a).as_deref(), Some("one"));
    assert_eq!(pubsub.receive(b).as_deref(), Some("one"));
}

#[test]
fn closed_subscriber_is_dropped() {
    let mut pubsub = EventQueue::<String>::new();
    let a = pubsub.subscribe();
    pubsub.close(a);
    pubsub.emit(String::from("lost?"));
    // The only subscriber is gone: the event waits for the next one.
    assert!(!pubsub.dispatch());
    let b = pubsub.subscribe();
    assert_eq!(b, 0);
    assert!(pubsub.dispatch());
    assert_eq!(pubsub.receive(b).as_deref(), Some("lost?"));
}

#[test]
fn full_subscriber_holds_the_rest_back() {
    let mut pubsub = EventQueue::<String>::new();
    let s = pubsub.subscribe();
    for i in 0..SUBSCRIBER_CAPACITY + 1 {
        pubsub.emit(format!("event {i}"));
    }
    pump(&mut pubsub);
    let mut got = 0;
    while pubsub.receive(s).is_some() {
        got += 1;
    }
    assert_eq!(got, SUBSCRIBER_CAPACITY);
    // The last event was kept and goes out once there is room.
    assert!(pubsub.dispatch());
    assert_eq!(pubsub.receive(s), Some(format!("event {}", SUBSCRIBER_CAPACITY)));
}
