//! The pretty-print sink: rendering chat messages as colorized,
//! time-offset-prefixed lines.
//!
//! Only chat messages are rendered; every other event is a silent no-op. A
//! broken pipe on the output is a clean stop signal, not an error; any other
//! write failure is fatal for this sink only.

use crate::badges::parse_badges;
use crate::badges::spec_decorate;
use crate::badges::Badges;
use crate::event::ChatEvent;
use crate::event::ChatEventView;
use crate::event::ChatMessageEvent;
use crate::event::Rgb;
use crate::sink::outcome_of_write;
use crate::sink::Outcome;
use crate::sink::TextSink;
use crate::sink::WriteError;
use colored::Colorize;
use vstd::prelude::*;
use vstd::string::StringExecFns;

verus! {

broadcast use vstd::string::group_string_axioms;

/// The decimal digit character for a value below ten.
pub open spec fn digit_char(d: nat) -> char {
    if d == 0 {
        '0'
    } else if d == 1 {
        '1'
    } else if d == 2 {
        '2'
    } else if d == 3 {
        '3'
    } else if d == 4 {
        '4'
    } else if d == 5 {
        '5'
    } else if d == 6 {
        '6'
    } else if d == 7 {
        '7'
    } else if d == 8 {
        '8'
    } else {
        '9'
    }
}

/// The decimal digit string of `n`, most significant digit first, with no
/// leading zero except for zero itself.
pub open spec fn dec_digits(n: nat) -> Seq<char>
    decreases n,
{
    if n < 10 {
        seq![digit_char(n)]
    } else {
        dec_digits(n / 10).push(digit_char(n % 10))
    }
}

/// One time component the way the renderer formats it: zero-padded to two
/// digits, with a leading minus sign when the offset is negative and the
/// component is not zero.
pub open spec fn fmt_component(neg: bool, mag: nat) -> Seq<char> {
    if neg && mag > 0 {
        "-"@ + dec_digits(mag)
    } else if mag < 10 {
        "0"@ + dec_digits(mag)
    } else {
        dec_digits(mag)
    }
}

/// The `HH:MM:SS` time field for an offset of `diff_ms` milliseconds from
/// session start: whole hours, minutes modulo sixty and seconds modulo
/// sixty, each truncated toward zero, so a negative offset passes through
/// as negative components.
pub open spec fn spec_time_field(diff_ms: int) -> Seq<char> {
    let neg = diff_ms < 0;
    let mag = (if diff_ms < 0 {
        -diff_ms
    } else {
        diff_ms
    }) as nat;
    let secs = mag / 1000;
    fmt_component(neg, secs / 3600) + ":"@ + fmt_component(neg, (secs / 60) % 60) + ":"@
        + fmt_component(neg, secs % 60)
}

/// The digit character of `d`, as a one-character string slice.
fn digit_str(d: u64) -> (r: &'static str)
    requires
        d < 10,
    ensures
        r@ == seq![digit_char(d as nat)],
{
    proof {
        reveal_strlit("0");
        reveal_strlit("1");
        reveal_strlit("2");
        reveal_strlit("3");
        reveal_strlit("4");
        reveal_strlit("5");
        reveal_strlit("6");
        reveal_strlit("7");
        reveal_strlit("8");
        reveal_strlit("9");
    }
    let r = if d == 0 {
        "0"
    } else if d == 1 {
        "1"
    } else if d == 2 {
        "2"
    } else if d == 3 {
        "3"
    } else if d == 4 {
        "4"
    } else if d == 5 {
        "5"
    } else if d == 6 {
        "6"
    } else if d == 7 {
        "7"
    } else if d == 8 {
        "8"
    } else {
        "9"
    };
    proof {
        assert(r@ =~= seq![digit_char(d as nat)]);
    }
    r
}

/// Append the decimal digits of `n` at the end of `out`.
fn push_digits(out: &mut String, n: u64)
    ensures
        final(out)@ == old(out)@ + dec_digits(n as nat),
    decreases n,
{
    if n >= 10 {
        push_digits(out, n / 10);
    }
    out.append(digit_str(n % 10));
    proof {
        if n >= 10 {
            assert(old(out)@ + dec_digits((n / 10) as nat) + seq![digit_char((n % 10) as nat)]
                =~= old(out)@ + dec_digits(n as nat));
        } else {
            assert(old(out)@ + seq![digit_char(n as nat)] =~= old(out)@ + dec_digits(n as nat));
        }
    }
}

/// Append one formatted time component at the end of `out`.
fn push_component(out: &mut String, neg: bool, mag: u64)
    ensures
        final(out)@ == old(out)@ + fmt_component(neg, mag as nat),
{
    if neg && mag > 0 {
        out.append("-");
        push_digits(out, mag);
        proof {
            assert(old(out)@ + "-"@ + dec_digits(mag as nat) =~= old(out)@ + fmt_component(
                neg,
                mag as nat,
            ));
        }
    } else if mag < 10 {
        out.append("0");
        push_digits(out, mag);
        proof {
            assert(old(out)@ + "0"@ + dec_digits(mag as nat) =~= old(out)@ + fmt_component(
                neg,
                mag as nat,
            ));
        }
    } else {
        push_digits(out, mag);
    }
}

/// Render the time offset between a message timestamp and the session start
/// as the `HH:MM:SS` field of the line.
pub fn time_field(timestamp_ms: i64, start_time_ms: i64) -> (r: String)
    ensures
        r@ == spec_time_field(timestamp_ms - start_time_ms),
{
    let diff: i128 = timestamp_ms as i128 - start_time_ms as i128;
    let neg = diff < 0;
    let mag: u64 = if neg {
        (-diff) as u64
    } else {
        diff as u64
    };
    let secs: u64 = mag / 1000;
    let mut out = String::new();
    push_component(&mut out, neg, secs / 3600);
    out.append(":");
    push_component(&mut out, neg, (secs / 60) % 60);
    out.append(":");
    push_component(&mut out, neg, secs % 60);
    proof {
        assert(out@ =~= spec_time_field(timestamp_ms - start_time_ms));
    }
    out
}

/// Does `s` contain no ANSI escape character?
pub open spec fn esc_free(s: Seq<char>) -> bool {
    forall|i: int| 0 <= i < s.len() ==> s[i] != '\u{1b}'
}

/// Relies on colored's `Colorize::normal` and the `Display` of its
/// `ColoredString`: a value with no color and no style set renders as its
/// input, unchanged.
#[verifier::external_body]
fn style_normal(name: &str) -> (r: String)
    ensures
        r@ == name@,
{
    format!("{}", name.normal())
}

/// Relies on colored's `Colorize::truecolor` and the `Display` of its
/// `ColoredString`: depending on a process-global colorization switch the
/// input is either rendered unchanged or wrapped between an ANSI style
/// prefix and a reset suffix; input holding no escape character is embedded
/// unchanged.
#[verifier::external_body]
fn style_truecolor(name: &str, red: u8, green: u8, blue: u8) -> (r: String)
    ensures
        esc_free(name@) ==> (r@ == name@ || exists|pre: Seq<char>, post: Seq<char>|
            r@ == pre + name@ + post),
{
    format!("{}", name.truecolor(red, green, blue))
}

/// The relation between a sender name, its chosen color and what the name
/// renders as: an uncolored name passes through unchanged, and a colored
/// escape-free name is embedded whole in whatever styling the output mode
/// put around it.
pub open spec fn styled_as(name: Seq<char>, color: Option<Rgb>, sn: Seq<char>) -> bool {
    match color {
        None => sn == name,
        Some(_) => esc_free(name) ==> (sn == name || exists|pre: Seq<char>, post: Seq<char>|
            sn == pre + name + post),
    }
}

/// Render a sender name in its chosen display color, or unstyled when none
/// was picked.
pub fn style_name(name: &str, color: &Option<Rgb>) -> (r: String)
    ensures
        styled_as(name@, *color, r@),
{
    match color {
        Some(c) => style_truecolor(name, c.red, c.green, c.blue),
        None => style_normal(name),
    }
}

/// The full rendered line for a chat message: time field, one space, badge
/// glyphs, the styled sender name, a colon and space, the message text and
/// a newline.
pub open spec fn spec_chat_line(
    diff_ms: int,
    badges: Badges,
    styled_name: Seq<char>,
    text: Seq<char>,
) -> Seq<char> {
    spec_time_field(diff_ms) + " "@ + badges.spec_render() + styled_name + ": "@ + text + "\n"@
}

/// Render one chat message and write the line into the sink.
///
/// On success the sink grew by exactly one rendered line; a failed write
/// leaves the sink unchanged.
pub fn print_chat_msg<W: TextSink>(
    msg: &ChatMessageEvent,
    start_time_ms: i64,
    out: &mut W,
) -> (r: Result<(), WriteError>)
    ensures
        r is Ok ==> exists|sn: Seq<char>|
            styled_as(msg.sender_name@, msg.name_color, sn) && final(out).contents() == old(
                out,
            ).contents() + spec_chat_line(
                msg.timestamp_ms - start_time_ms,
                spec_decorate(msg.badges.deep_view()),
                sn,
                msg.text@,
            ),
        r is Err ==> final(out).contents() == old(out).contents(),
        r matches Err(e) ==> old(out).may_fail_with(e),
        final(out).infallible() == old(out).infallible(),
        forall|e: WriteError| #[trigger] final(out).may_fail_with(e) == old(out).may_fail_with(e),
        old(out).infallible() ==> r is Ok,
{
    let mut line = time_field(msg.timestamp_ms, start_time_ms);
    let channel_badge = parse_badges(&msg.badges);
    let badge_str = channel_badge.render();
    let name = style_name(msg.sender_name.as_str(), &msg.name_color);
    line.append(" ");
    line.append(badge_str.as_str());
    line.append(name.as_str());
    line.append(": ");
    line.append(msg.text.as_str());
    line.append("\n");
    proof {
        assert(line@ =~= spec_chat_line(
            msg.timestamp_ms - start_time_ms,
            spec_decorate(msg.badges.deep_view()),
            name@,
            msg.text@,
        ));
    }
    out.write_text(line.as_str())
}

/// What one event does to the pretty-print sink: a chat message appends its
/// rendered line, anything else changes nothing.
pub open spec fn handled_one(
    e: ChatEventView,
    start_time_ms: int,
    before: Seq<char>,
    after: Seq<char>,
) -> bool {
    match e {
        ChatEventView::ChatMessage(m) => exists|sn: Seq<char>|
            styled_as(m.sender_name, m.name_color, sn) && after == before + spec_chat_line(
                m.timestamp_ms - start_time_ms,
                spec_decorate(m.badges),
                sn,
                m.text,
            ),
        _ => after == before,
    }
}

/// Handle one decoded event on the pretty-print sink.
///
/// Chat messages are rendered and written; every other event is a silent
/// no-op yielding `Continue`. A broken-pipe write failure yields `Stop`, the
/// quiet shutdown signal; any other failure is reported as `Fail`.
pub fn message_handler<W: TextSink>(
    message: &ChatEvent,
    start_time_ms: i64,
    out: &mut W,
) -> (r: Outcome)
    ensures
        r == Outcome::Continue ==> handled_one(
            message@,
            start_time_ms as int,
            old(out).contents(),
            final(out).contents(),
        ),
        !(message is ChatMessage) ==> r == Outcome::Continue && final(out).contents() == old(
            out,
        ).contents(),
        message is ChatMessage && r == Outcome::Continue ==> final(out).contents() != old(
            out,
        ).contents(),
        r == Outcome::Stop ==> final(out).contents() == old(out).contents() && old(
            out,
        ).may_fail_with(WriteError::BrokenPipe),
        r matches Outcome::Fail(e) ==> final(out).contents() == old(out).contents() && e
            != WriteError::BrokenPipe && old(out).may_fail_with(e),
        final(out).infallible() == old(out).infallible(),
        forall|e: WriteError| #[trigger] final(out).may_fail_with(e) == old(out).may_fail_with(e),
        old(out).infallible() ==> r == Outcome::Continue,
{
    match message {
        ChatEvent::ChatMessage(msg) => {
            let ghost pre = out.contents();
            let written = print_chat_msg(msg, start_time_ms, out);
            let r = outcome_of_write(written);
            proof {
                if written is Ok {
                    reveal_strlit("\n");
                    assert("\n"@.len() == 1);
                    let sn = choose|sn: Seq<char>|
                        styled_as(msg.sender_name@, msg.name_color, sn) && out.contents() == pre
                            + spec_chat_line(
                            msg.timestamp_ms - start_time_ms,
                            spec_decorate(msg.badges.deep_view()),
                            sn,
                            msg.text@,
                        );
                    assert(styled_as(msg@.sender_name, msg@.name_color, sn) && out.contents() == pre
                        + spec_chat_line(
                        msg@.timestamp_ms - start_time_ms,
                        spec_decorate(msg@.badges),
                        sn,
                        msg@.text,
                    ));
                    assert(handled_one(message@, start_time_ms as int, pre, out.contents()));
                    assert(out.contents().len() > pre.len());
                }
            }
            r
        },
        _ => Outcome::Continue,
    }
}

/// What a whole event sequence does to the pretty-print sink: each event in
/// order, every chat message appending one rendered line.
pub open spec fn pretty_trace(
    events: Seq<ChatEventView>,
    start_time_ms: int,
    before: Seq<char>,
    after: Seq<char>,
) -> bool
    decreases events.len(),
{
    if events.len() == 0 {
        after == before
    } else {
        exists|mid: Seq<char>|
            pretty_trace(events.drop_last(), start_time_ms, before, mid) && handled_one(
                events.last(),
                start_time_ms,
                mid,
                after,
            )
    }
}

/// Drain a whole event sequence into the pretty-print sink, ending the loop
/// at the first stop signal or failure.
pub fn run_pretty_sink<W: TextSink>(
    events: &Vec<ChatEvent>,
    start_time_ms: i64,
    out: &mut W,
) -> (r: Outcome)
    ensures
        r == Outcome::Continue ==> pretty_trace(
            events.deep_view(),
            start_time_ms as int,
            old(out).contents(),
            final(out).contents(),
        ),
        r != Outcome::Continue ==> exists|k: int|
            0 <= k <= events.deep_view().len() && pretty_trace(
                events.deep_view().take(k),
                start_time_ms as int,
                old(out).contents(),
                final(out).contents(),
            ),
        r == Outcome::Stop ==> old(out).may_fail_with(WriteError::BrokenPipe),
        r matches Outcome::Fail(e) ==> e != WriteError::BrokenPipe && old(out).may_fail_with(e),
        final(out).infallible() == old(out).infallible(),
        forall|e: WriteError| #[trigger] final(out).may_fail_with(e) == old(out).may_fail_with(e),
        old(out).infallible() ==> r == Outcome::Continue,
{
    let mut i: usize = 0;
    while i < events.len()
        invariant
            i <= events.len(),
            pretty_trace(
                events.deep_view().take(i as int),
                start_time_ms as int,
                old(out).contents(),
                out.contents(),
            ),
            out.infallible() == old(out).infallible(),
            forall|e: WriteError| #[trigger] out.may_fail_with(e) == old(out).may_fail_with(e),
        decreases events.len() - i,
    {
        let ghost pre = out.contents();
        let r = message_handler(&events[i], start_time_ms, out);
        match r {
            Outcome::Continue => {
                proof {
                    let evs = events.deep_view();
                    assert(evs.take(i + 1 as int).drop_last() =~= evs.take(i as int));
                    assert(evs.take(i + 1 as int).last() == evs[i as int]);
                    assert(pretty_trace(
                        evs.take(i + 1 as int),
                        start_time_ms as int,
                        old(out).contents(),
                        out.contents(),
                    ));
                }
            },
            _ => {
                return r;
            },
        }
        i = i + 1;
    }
    proof {
        assert(events.deep_view().take(events.deep_view().len() as int) =~= events.deep_view());
    }
    Outcome::Continue
}

} // verus!
