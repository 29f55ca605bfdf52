use twitch_chat_logger::event::ChatEvent;
use twitch_chat_logger::splitter::Splitter;

fn event(raw: &str) -> ChatEvent {
    ChatEvent::Other { raw: raw.to_string() }
}

fn raw_of(e: &ChatEvent) -> &str {
    match e {
        ChatEvent::ChatMessage(m) => &m.raw,
        ChatEvent::UserNotice { raw } => raw,
        ChatEvent::ClearChat { raw } => raw,
        ChatEvent::ClearMsg { raw } => raw,
        ChatEvent::Other { raw } => raw,
    }
}

#[test]
fn receiver_splitter_is_balanced() {
    let test_msg = "Hewwo, I am a string";
    let mut splitter = Splitter::new();

    let running = splitter.push(event(test_msg));
    assert!(running);

    let (out1, out2) = splitter.into_outputs();
    assert_eq!(test_msg, raw_of(&out1[0]));
    assert_eq!(test_msg, raw_of(&out2[0]));
}

#[test]
fn fan_out_preserves_order_and_content() {
    let inputs = ["a", "b", "c", "d", "e"];
    let mut splitter = Splitter::new();
    let events: Vec<ChatEvent> = inputs.iter().map(|r| event(r)).collect();
    splitter.feed(&events);
    let (out_a, out_b) = splitter.into_outputs();
    assert_eq!(out_a.len(), inputs.len());
    assert_eq!(out_b.len(), inputs.len());
    for (i, raw) in inputs.iter().enumerate() {
        assert_eq!(raw_of(&out_a[i]), *raw);
        assert_eq!(raw_of(&out_b[i]), *raw);
    }
}

#[test]
fn fan_out_of_nothing_is_nothing() {
    let mut splitter = Splitter::new();
    splitter.feed(&vec![]);
    let (out_a, out_b) = splitter.into_outputs();
    assert!(out_a.is_empty());
    assert!(out_b.is_empty());
}

#[test]
fn splitter_stops_promptly_after_consumer_drop() {
    // Five events; B's consumer is dropped after the first two. A may see
    // one more event (the one whose B delivery fails), then the splitter
    // stops and later events reach neither side.
    let mut splitter = Splitter::new();
    assert!(splitter.push(event("1")));
    assert!(splitter.push(event("2")));
    splitter.close_b();
    assert!(!splitter.push(event("3")));
    assert!(!splitter.push(event("4")));
    assert!(!splitter.push(event("5")));
    let (out_a, out_b) = splitter.into_outputs();
    assert_eq!(out_b.len(), 2);
    assert_eq!(out_a.len(), 3);
    assert_eq!(raw_of(&out_a[2]), "3");
}

#[test]
fn splitter_stops_without_delivery_when_a_closes() {
    let mut splitter = Splitter::new();
    assert!(splitter.push(event("1")));
    splitter.close_a();
    assert!(!splitter.push(event("2")));
    let (out_a, out_b) = splitter.into_outputs();
    assert_eq!(out_a.len(), 1);
    assert_eq!(out_b.len(), 1);
}
