use twitch_chat_logger::event::ChatMessageEvent;
use twitch_chat_logger::event::Rgb;
use twitch_chat_logger::pretty_print::print_chat_msg;
use twitch_chat_logger::sink::BufferSink;

fn colored_message(color: Option<Rgb>) -> ChatMessageEvent {
    ChatMessageEvent {
        sender_name: "snapdragon".to_string(),
        name_color: color,
        badges: vec![],
        text: "Bannana bread".to_string(),
        timestamp_ms: 1000,
        raw: String::new(),
    }
}

fn render(message: &ChatMessageEvent) -> String {
    let mut output = BufferSink::new();
    print_chat_msg(message, 0, &mut output).expect("buffer write");
    output.into_string()
}

// One test, not several: colored's colorization switch is process-global,
// and a single test keeps the two modes from racing each other when the
// harness runs tests in parallel.
#[test]
fn colored_name_styling_follows_the_override() {
    let message = colored_message(Some(Rgb { red: 1, green: 2, blue: 3 }));

    colored::control::set_override(false);
    assert_eq!(render(&message), "00:00:01 snapdragon: Bannana bread\n");

    colored::control::set_override(true);
    let line = render(&message);
    assert!(line.contains("snapdragon"));
    // The exact color code depends on the terminal's truecolor support, but
    // a styled name always sits between an ANSI prefix and the reset.
    assert!(line.contains("\u{1b}["));
    assert!(line.contains("\u{1b}[0m"));
    assert!(line.starts_with("00:00:01 "));
    assert!(line.ends_with(": Bannana bread\n"));
    assert_ne!(line, "00:00:01 snapdragon: Bannana bread\n");
}
