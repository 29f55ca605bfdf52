use twitch_chat_logger::event::Badge;
use twitch_chat_logger::event::ChatEvent;
use twitch_chat_logger::event::ChatMessageEvent;
use twitch_chat_logger::pretty_print::message_handler;
use twitch_chat_logger::pretty_print::run_pretty_sink;
use twitch_chat_logger::pretty_print::print_chat_msg;
use twitch_chat_logger::pretty_print::time_field;
use twitch_chat_logger::sink::outcome_of_write;
use twitch_chat_logger::sink::BufferSink;
use twitch_chat_logger::sink::FailingSink;
use twitch_chat_logger::sink::Outcome;
use twitch_chat_logger::sink::WriteError;

fn plain_message(sender_name: &str, text: &str, timestamp_ms: i64) -> ChatMessageEvent {
    ChatMessageEvent {
        sender_name: sender_name.to_string(),
        name_color: None,
        badges: vec![],
        text: text.to_string(),
        timestamp_ms,
        raw: String::new(),
    }
}

const HOUR_MS: i64 = 60 * 60 * 1000;
const MINUTE_MS: i64 = 60 * 1000;
const SECOND_MS: i64 = 1000;

#[test]
fn pretty_print_print_chat_msg_test() {
    let start_time: i64 = 1_000_000;
    let time_offset = 11 * HOUR_MS + 11 * MINUTE_MS + 11 * SECOND_MS;
    let message_time = start_time + time_offset;

    let sender_name = "snapdragon".to_string();
    let message_str = "Bannana bread";

    let message = plain_message(&sender_name, message_str, message_time);

    let mut output = BufferSink::new();
    print_chat_msg(&message, start_time, &mut output).expect("Write to buffer shouldn't fail");
    let output = output.into_string().into_bytes();
    assert_eq!(
        output,
        format!("11:11:11 {sender_name}: {message_str}\n").into_bytes(),
        "\n{}",
        String::from_utf8_lossy(&output)
    );
}

#[test]
fn chat_logger_print_chat_msg_test() {
    let start_time: i64 = 0;
    let message_time = 11 * HOUR_MS + 11 * MINUTE_MS + 11 * SECOND_MS;

    let sender_name = "snapdragon".to_string();
    let message_str = "Bannana bread";

    let message = plain_message(&sender_name, message_str, message_time);

    let mut output = BufferSink::new();
    print_chat_msg(&message, start_time, &mut output).expect("Write to buffer shouldn't fail");
    let output = output.into_string().into_bytes();
    assert_eq!(
        output,
        format!("11:11:11 {sender_name}: {message_str}\n").into_bytes(),
        "\n{}",
        String::from_utf8_lossy(&output)
    );
}

#[test]
fn lib_print_chat_msg_test() {
    let start_time: i64 = 123_456;
    let message_time = start_time + 11 * HOUR_MS + 11 * MINUTE_MS + 11 * SECOND_MS;

    let sender_name = "snapdragon".to_string();
    let message_str = "Bannana bread";

    let message = ChatEvent::ChatMessage(plain_message(&sender_name, message_str, message_time));

    let mut output = BufferSink::new();
    let outcome = message_handler(&message, start_time, &mut output);
    assert_eq!(outcome, Outcome::Continue);
    let output = output.into_string().into_bytes();
    assert_eq!(
        output,
        format!("11:11:11 {sender_name}: {message_str}\n").into_bytes(),
        "\n{}",
        String::from_utf8_lossy(&output)
    );
}

#[test]
fn chat_logger_does_not_panic_with_broken_pipe() {
    let message = ChatEvent::ChatMessage(plain_message("", "", 0));
    let start_time: i64 = 0;
    let mut output = FailingSink { error: WriteError::BrokenPipe };
    let res = message_handler(&message, start_time, &mut output);
    assert!(matches!(res, Outcome::Stop));
}

#[test]
fn pretty_print_does_not_panic_with_broken_pipe() {
    let message = ChatEvent::ChatMessage(plain_message("bread", "bread bread", 666));
    let start_time: i64 = 0;
    let mut output = FailingSink { error: WriteError::BrokenPipe };
    let res = message_handler(&message, start_time, &mut output);
    assert!(matches!(res, Outcome::Stop));
}

#[test]
fn other_write_failure_is_fatal() {
    let message = ChatEvent::ChatMessage(plain_message("x", "y", 0));
    let mut output = FailingSink { error: WriteError::Other };
    let res = message_handler(&message, 0, &mut output);
    assert!(matches!(res, Outcome::Fail(WriteError::Other)));
}

#[test]
fn non_chat_events_are_silent() {
    let message = ChatEvent::Other { raw: "PING :tmi.twitch.tv".to_string() };
    let mut output = BufferSink::new();
    let res = message_handler(&message, 0, &mut output);
    assert_eq!(res, Outcome::Continue);
    assert_eq!(output.into_string(), "");
}

#[test]
fn time_field_large_hours() {
    assert_eq!(time_field(111 * HOUR_MS, 0), "111:00:00");
    assert_eq!(time_field(59 * SECOND_MS, 0), "00:00:59");
    assert_eq!(time_field(60 * SECOND_MS, 0), "00:01:00");
    assert_eq!(time_field(0, 0), "00:00:00");
}

#[test]
fn time_field_negative_offset_passes_through() {
    // A message timestamped before session start renders with negative
    // components, exactly as chrono's duration arithmetic would.
    assert_eq!(time_field(0, HOUR_MS + MINUTE_MS + SECOND_MS), "-1:-1:-1");
    assert_eq!(time_field(0, 30 * SECOND_MS), "00:00:-30");
    assert_eq!(
        time_field(0, 12 * HOUR_MS + 34 * MINUTE_MS + 56 * SECOND_MS),
        "-12:-34:-56"
    );
}

#[test]
fn run_pretty_sink_renders_chat_messages_only() {
    let events = vec![
        ChatEvent::Other { raw: "PING :tmi.twitch.tv".to_string() },
        ChatEvent::ChatMessage(plain_message("ada", "hello", 1000)),
        ChatEvent::ClearChat { raw: "CLEARCHAT #a".to_string() },
        ChatEvent::ChatMessage(plain_message("bob", "hi", 2000)),
    ];
    let mut output = BufferSink::new();
    let outcome = run_pretty_sink(&events, 0, &mut output);
    assert_eq!(outcome, Outcome::Continue);
    assert_eq!(output.into_string(), "00:00:01 ada: hello\n00:00:02 bob: hi\n");
}

#[test]
fn run_pretty_sink_ends_quietly_on_broken_pipe() {
    let events = vec![ChatEvent::ChatMessage(plain_message("ada", "hello", 0))];
    let mut output = FailingSink { error: WriteError::BrokenPipe };
    let outcome = run_pretty_sink(&events, 0, &mut output);
    assert_eq!(outcome, Outcome::Stop);
}

#[test]
fn outcome_of_write_classification() {
    assert_eq!(outcome_of_write(Ok(())), Outcome::Continue);
    assert_eq!(outcome_of_write(Err(WriteError::BrokenPipe)), Outcome::Stop);
    assert_eq!(
        outcome_of_write(Err(WriteError::Other)),
        Outcome::Fail(WriteError::Other)
    );
}

#[test]
fn badge_glyphs_precede_name() {
    let mut message = plain_message("mod", "hi", 1000);
    message.badges = vec![
        Badge { name: "partner".to_string(), version: "1".to_string() },
        Badge { name: "moderator".to_string(), version: "1".to_string() },
    ];
    let mut output = BufferSink::new();
    print_chat_msg(&message, 0, &mut output).expect("buffer write");
    let line = output.into_string();
    assert_eq!(line, format!("00:00:01 \u{2705}\u{1f5e1}\u{fe0f}mod: hi\n"));
}
