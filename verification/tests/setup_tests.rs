use twitch_chat_logger::args::Args;
use twitch_chat_logger::replay::DecodeError;
use twitch_chat_logger::setup::join_verdicts;
use twitch_chat_logger::setup::plan;
use twitch_chat_logger::setup::run_replay_pipeline;
use twitch_chat_logger::setup::run_verdict;
use twitch_chat_logger::setup::PipelineError;
use twitch_chat_logger::setup::PipelineShape;
use twitch_chat_logger::sink::BufferSink;
use twitch_chat_logger::sink::Outcome;
use twitch_chat_logger::sink::WriteError;

const PRIVMSG_EXAMPLE: &str = "@room-id=910;user-id=8;display-name=7;badge-info=;badges=;color=;emotes=;tmi-sent-ts=666;id=7 :bread!bread!bread@bread.tmi.twitch.tv PRIVMSG #bread :bread bread bread";

const PONG_MSG_EXAMPLE: &str = ":tmi.twitch.tv PONG tmi.twitch.tv tmi.twitch.tv";

#[test]
fn plan_picks_the_four_shapes() {
    let base = Args::default();
    assert_eq!(plan(&base), PipelineShape::LiveDirect);

    let replay = Args { from_stdin: true, ..Args::default() };
    assert_eq!(plan(&replay), PipelineShape::ReplayDirect);

    let logged = Args { log_file: Some("chat.log".to_string()), ..Args::default() };
    assert_eq!(
        plan(&logged),
        PipelineShape::LiveLogged { log_file: "chat.log".to_string(), append: false }
    );

    let both = Args {
        log_file: Some("chat.log".to_string()),
        append: true,
        from_stdin: true,
        ..Args::default()
    };
    assert_eq!(
        plan(&both),
        PipelineShape::ReplayLogged { log_file: "chat.log".to_string(), append: true }
    );
}

#[test]
fn run_verdict_treats_stop_as_normal_completion() {
    assert!(run_verdict(Outcome::Continue).is_ok());
    assert!(run_verdict(Outcome::Stop).is_ok());
    assert_eq!(run_verdict(Outcome::Fail(WriteError::Other)), Err(WriteError::Other));
}

#[test]
fn join_verdicts_reports_first_failure() {
    assert!(join_verdicts(Outcome::Continue, Ok(())).is_ok());
    assert!(join_verdicts(Outcome::Stop, Ok(())).is_ok());
    assert_eq!(
        join_verdicts(Outcome::Fail(WriteError::Other), Ok(())),
        Err(WriteError::Other)
    );
    assert_eq!(
        join_verdicts(Outcome::Continue, Err(WriteError::Other)),
        Err(WriteError::Other)
    );
}

#[test]
fn read_from_stdin() {
    let mut test_input = String::new();
    test_input.push_str(PONG_MSG_EXAMPLE);
    test_input.push('\n');
    test_input.push_str(PRIVMSG_EXAMPLE);
    test_input.push('\n');
    test_input.push_str(PONG_MSG_EXAMPLE);
    test_input.push('\n');

    let expected_substr = "7: bread bread bread";

    let mut pretty = BufferSink::new();
    let mut log = BufferSink::new();
    run_replay_pipeline(&test_input, 0, &mut pretty, &mut log).expect("the replay run succeeds");

    let output = pretty.into_string();
    assert!(
        output.contains(expected_substr),
        "`{}` does not contain `{}`",
        output,
        expected_substr
    );
    assert_eq!(log.into_string(), format!("{}\n", PRIVMSG_EXAMPLE));
}

#[test]
fn replay_pipeline_fails_on_malformed_input() {
    let mut pretty = BufferSink::new();
    let mut log = BufferSink::new();
    let r = run_replay_pipeline("@tags-with-no-space\n", 0, &mut pretty, &mut log);
    assert_eq!(r, Err(PipelineError::Decode(DecodeError::MalformedLine)));
    assert_eq!(pretty.into_string(), "");
    assert_eq!(log.into_string(), "");
}
