use twitch_chat_logger::event::ChatEvent;
use twitch_chat_logger::event::ChatMessageEvent;
use twitch_chat_logger::logging::log_v0;
use twitch_chat_logger::logging::run_log_sink;
use twitch_chat_logger::sink::BufferSink;
use twitch_chat_logger::sink::FailingSink;
use twitch_chat_logger::sink::WriteError;

fn chat_event_with_raw(raw: &str) -> ChatEvent {
    ChatEvent::ChatMessage(ChatMessageEvent {
        sender_name: String::new(),
        name_color: None,
        badges: vec![],
        text: String::new(),
        timestamp_ms: 0,
        raw: raw.to_string(),
    })
}

#[test]
fn log_v0_privmsg() {
    let source = "PRIVMSG #Orflex :This is a real irc message, totes";
    let expected = format!("{}\n", source);

    let fake_privmsg = chat_event_with_raw(source);

    let mut output = BufferSink::new();
    log_v0(&fake_privmsg, &mut output).expect("buffer write");
    let output = output.into_string();

    assert_eq!(output, expected);
}

#[test]
fn log_v0_logs_all_four_kinds() {
    let events = vec![
        chat_event_with_raw("a privmsg line"),
        ChatEvent::UserNotice { raw: "a usernotice line".to_string() },
        ChatEvent::ClearChat { raw: "a clearchat line".to_string() },
        ChatEvent::ClearMsg { raw: "a clearmsg line".to_string() },
    ];
    let mut output = BufferSink::new();
    run_log_sink(&events, &mut output).expect("buffer write");
    assert_eq!(
        output.into_string(),
        "a privmsg line\na usernotice line\na clearchat line\na clearmsg line\n"
    );
}

#[test]
fn log_v0_skips_other_events() {
    let mut output = BufferSink::new();
    log_v0(
        &ChatEvent::Other { raw: "PING :tmi.twitch.tv".to_string() },
        &mut output,
    )
    .expect("buffer write");
    assert_eq!(output.into_string(), "");
}

#[test]
fn log_write_failure_is_reported() {
    let mut output = FailingSink { error: WriteError::Other };
    let r = log_v0(&chat_event_with_raw("line"), &mut output);
    assert_eq!(r, Err(WriteError::Other));
}
