//! The replay parser: turning previously captured protocol text back into
//! decoded chat events.
//!
//! The input is split into lines; every non-empty line is decoded as one
//! protocol message and the raw line itself is retained as the event's raw
//! form. A line that fails to decode is fatal for the whole replay, a
//! deliberately strict stance: replay input is expected to be well-formed
//! previously-logged output.

use crate::event::Badge;
use crate::event::ChatEvent;
use crate::event::ChatEventView;
use crate::event::ChatMessageEvent;
use crate::event::Rgb;
use crate::logging::spec_log_line;
use crate::tags::check_safe_to_decode;
use crate::tags::safe_to_decode;
use twitch_irc::message::IRCMessage;
use twitch_irc::message::ServerMessage;
use vstd::prelude::*;

verus! {

/// Why a replay line could not be decoded.
#[derive(Clone, Copy, Debug, PartialEq, Eq)]
pub enum DecodeError {
    /// The line is not a well-formed protocol message.
    MalformedLine,
    /// The line is a protocol message of a known kind whose fields could
    /// not be decoded.
    MalformedMessage,
}

/// The decoded fields of a chat message, before the raw line is attached.
#[derive(Debug, PartialEq, Eq)]
pub struct PrivmsgParts {
    pub sender_name: String,
    pub name_color: Option<Rgb>,
    pub badges: Vec<Badge>,
    pub text: String,
    pub timestamp_ms: i64,
}

/// What kind of message a line decodes to, with the fields rendering needs.
#[derive(Debug, PartialEq, Eq)]
pub enum MsgParts {
    Privmsg(PrivmsgParts),
    UserNotice,
    ClearChat,
    ClearMsg,
    Other,
}

/// What the protocol decoder yields for a line: a function of the line
/// alone.
pub uninterp spec fn line_parts(line: Seq<char>) -> Result<MsgParts, DecodeError>;

/// What decoding a replay line yields: the protocol decoder's result, after
/// the lines the decoder cannot be trusted with (see
/// [`safe_to_decode`]) have been rejected as malformed.
pub open spec fn line_decode(line: Seq<char>) -> Result<MsgParts, DecodeError> {
    if safe_to_decode(line) {
        line_parts(line)
    } else {
        Err(DecodeError::MalformedMessage)
    }
}

/// Relies on twitch_irc's `IRCMessage::parse` and `ServerMessage::try_from`,
/// with the chat-message fields moved off the parsed value. The outcome is
/// a function of the line alone: both parsers and the field extraction read
/// the line's tags only by key, never in map order. The precondition keeps
/// out the lines on which the decoder's emote index arithmetic, color
/// slicing or followers-only duration arithmetic would panic instead of
/// returning; [`decode_line`] screens them off first.
#[verifier::external_body]
fn decode_irc_line(line: &str) -> (r: Result<MsgParts, DecodeError>)
    requires
        safe_to_decode(line@),
    ensures
        r == line_parts(line@),
{
    let Ok(irc) = IRCMessage::parse(line) else { return Err(DecodeError::MalformedLine) };
    let Ok(sm) = ServerMessage::try_from(irc) else { return Err(DecodeError::MalformedMessage) };
    Ok(match sm {
        ServerMessage::Privmsg(p) => MsgParts::Privmsg(PrivmsgParts {
            sender_name: p.sender.name,
            name_color: p.name_color.map(|c| Rgb { red: c.r, green: c.g, blue: c.b }),
            badges: p.badges.into_iter().map(|b| Badge { name: b.name, version: b.version }).collect(),
            text: p.message_text,
            timestamp_ms: p.server_timestamp.timestamp_millis(),
        }),
        ServerMessage::UserNotice(_) => MsgParts::UserNotice,
        ServerMessage::ClearChat(_) => MsgParts::ClearChat,
        ServerMessage::ClearMsg(_) => MsgParts::ClearMsg,
        _ => MsgParts::Other,
    })
}

/// The event a decoded line stands for: the decoded fields, with the raw
/// line itself attached as the event's raw protocol form.
pub open spec fn event_matches(e: ChatEventView, parts: MsgParts, line: Seq<char>) -> bool {
    match parts {
        MsgParts::Privmsg(p) => e matches ChatEventView::ChatMessage(m) && m.sender_name
            == p.sender_name@ && m.name_color == p.name_color && m.badges == p.badges.deep_view()
            && m.text == p.text@ && m.timestamp_ms == p.timestamp_ms && m.raw == line,
        MsgParts::UserNotice => e == (ChatEventView::UserNotice { raw: line }),
        MsgParts::ClearChat => e == (ChatEventView::ClearChat { raw: line }),
        MsgParts::ClearMsg => e == (ChatEventView::ClearMsg { raw: line }),
        MsgParts::Other => e == (ChatEventView::Other { raw: line }),
    }
}

/// An event assembled from a decoded line keeps that line as its raw form.
pub proof fn lemma_event_matches_raw(e: ChatEventView, parts: MsgParts, line: Seq<char>)
    requires
        event_matches(e, parts, line),
    ensures
        e.raw() == line,
{
}

/// Assemble the event a decoded line stands for.
pub fn event_from_parts(parts: MsgParts, line: &str) -> (e: ChatEvent)
    ensures
        event_matches(e@, parts, line@),
{
    match parts {
        MsgParts::Privmsg(p) => ChatEvent::ChatMessage(
            ChatMessageEvent {
                sender_name: p.sender_name,
                name_color: p.name_color,
                badges: p.badges,
                text: p.text,
                timestamp_ms: p.timestamp_ms,
                raw: line.to_owned(),
            },
        ),
        MsgParts::UserNotice => ChatEvent::UserNotice { raw: line.to_owned() },
        MsgParts::ClearChat => ChatEvent::ClearChat { raw: line.to_owned() },
        MsgParts::ClearMsg => ChatEvent::ClearMsg { raw: line.to_owned() },
        MsgParts::Other => ChatEvent::Other { raw: line.to_owned() },
    }
}

/// Decode one replay line into a chat event.
///
/// Whether decoding succeeds is the protocol decoder's to decide, after the
/// screen of [`safe_to_decode`]; whenever it does, the event carries the
/// line itself, byte for byte, as its raw form.
pub fn decode_line(line: &str) -> (r: Result<ChatEvent, DecodeError>)
    ensures
        line_decode(line@) is Ok ==> r is Ok && event_matches(
            r->Ok_0@,
            line_decode(line@)->Ok_0,
            line@,
        ),
        line_decode(line@) is Err ==> r is Err && r->Err_0 == line_decode(line@)->Err_0,
        r is Ok ==> r->Ok_0@.raw() == line@,
{
    if !check_safe_to_decode(line) {
        return Err(DecodeError::MalformedMessage);
    }
    match decode_irc_line(line) {
        Ok(parts) => {
            let e = event_from_parts(parts, line);
            proof {
                lemma_event_matches_raw(e@, line_decode(line@)->Ok_0, line@);
            }
            Ok(e)
        },
        Err(e) => Err(e),
    }
}

/// The position of the first newline at or after `from`, or the length of
/// `s` when there is none.
pub open spec fn find_nl(s: Seq<char>, from: int) -> int
    decreases s.len() - from,
{
    if from < 0 || from >= s.len() {
        s.len() as int
    } else if s[from] == '\n' {
        from
    } else {
        find_nl(s, from + 1)
    }
}

/// [`find_nl`] stays within bounds.
pub proof fn lemma_find_nl_bounds(s: Seq<char>, from: int)
    ensures
        find_nl(s, from) <= s.len(),
        0 <= from <= s.len() ==> from <= find_nl(s, from),
    decreases s.len() - from,
{
    if 0 <= from < s.len() && s[from] != '\n' {
        lemma_find_nl_bounds(s, from + 1);
    }
}

/// [`find_nl`] is pinned down by a newline-free range followed by a newline
/// or the end of the text.
pub proof fn lemma_find_nl_char(s: Seq<char>, from: int, j: int)
    requires
        0 <= from <= j <= s.len(),
        forall|k: int| from <= k < j ==> s[k] != '\n',
        j == s.len() || s[j] == '\n',
    ensures
        find_nl(s, from) == j,
    decreases j - from,
{
    if from < j {
        lemma_find_nl_char(s, from + 1, j);
    }
}

/// A line with its single trailing carriage return removed, if it has one.
pub open spec fn strip_cr(line: Seq<char>) -> Seq<char> {
    if line.len() > 0 && line.last() == '\r' {
        line.drop_last()
    } else {
        line
    }
}

#[via_fn]
proof fn lines_from_decreases(s: Seq<char>, from: int) {
    lemma_find_nl_bounds(s, from);
}

/// The lines of `s` starting at `from`: split at each newline, with one
/// trailing carriage return stripped from each line, and a final segment
/// without a newline kept as a last line.
pub open spec fn lines_from(s: Seq<char>, from: int) -> Seq<Seq<char>>
    decreases s.len() - from,
    via lines_from_decreases
{
    if from < 0 || from >= s.len() {
        Seq::<Seq<char>>::empty()
    } else {
        if find_nl(s, from) >= s.len() {
            seq![strip_cr(s.subrange(from, s.len() as int))]
        } else {
            seq![strip_cr(s.subrange(from, find_nl(s, from)))] + lines_from(
                s,
                find_nl(s, from) + 1,
            )
        }
    }
}

/// The lines of a whole text.
pub open spec fn spec_lines(s: Seq<char>) -> Seq<Seq<char>> {
    lines_from(s, 0)
}

/// Split replay input into its lines, the way a buffered line reader hands
/// them out: split at each newline, one trailing carriage return stripped
/// per line, a trailing segment without a newline kept, and no empty final
/// line for input ending in a newline.
pub fn split_lines(input: &str) -> (r: Vec<String>)
    ensures
        r.deep_view() == spec_lines(input@),
{
    let n = input.unicode_len();
    let mut r: Vec<String> = Vec::new();
    let mut from: usize = 0;
    while from < n
        invariant
            0 <= from <= n,
            n == input@.len(),
            spec_lines(input@) =~= r.deep_view() + lines_from(input@, from as int),
        decreases n - from,
    {
        let mut j: usize = from;
        while j < n && input.get_char(j) != '\n'
            invariant
                from <= j <= n,
                n == input@.len(),
                forall|k: int| from <= k < j ==> input@[k] != '\n',
            decreases n - j,
        {
            j = j + 1;
        }
        proof {
            lemma_find_nl_char(input@, from as int, j as int);
        }
        let has_cr = j > from && input.get_char(j - 1) == '\r';
        let line_end = if has_cr {
            j - 1
        } else {
            j
        };
        let piece = input.substring_char(from, line_end);
        let ghost pre = r.deep_view();
        r.push(piece.to_owned());
        proof {
            assert(r.deep_view() =~= pre.push(piece@));
            assert(piece@ =~= strip_cr(input@.subrange(from as int, j as int)));
        }
        if j < n {
            proof {
                assert(lines_from(input@, from as int) == seq![
                    strip_cr(input@.subrange(from as int, j as int)),
                ] + lines_from(input@, j + 1 as int));
                assert(spec_lines(input@) =~= r.deep_view() + lines_from(input@, j + 1 as int));
            }
            from = j + 1;
        } else {
            proof {
                assert(lines_from(input@, from as int) =~= seq![
                    strip_cr(input@.subrange(from as int, n as int)),
                ]);
                assert(spec_lines(input@) =~= r.deep_view() + lines_from(input@, n as int));
            }
            from = n;
        }
    }
    proof {
        assert(lines_from(input@, from as int) =~= Seq::<Seq<char>>::empty());
        assert(spec_lines(input@) =~= r.deep_view());
    }
    r
}

/// The non-empty lines among `lines`, in order: only these are decoded.
pub open spec fn nonempty_lines(lines: Seq<Seq<char>>) -> Seq<Seq<char>>
    decreases lines.len(),
{
    if lines.len() == 0 {
        Seq::<Seq<char>>::empty()
    } else {
        nonempty_lines(lines.drop_last()) + (if lines.last().len() > 0 {
            seq![lines.last()]
        } else {
            Seq::<Seq<char>>::empty()
        })
    }
}

/// Splitting a line sequence anywhere splits its non-empty lines there too.
pub proof fn lemma_nonempty_concat(a: Seq<Seq<char>>, b: Seq<Seq<char>>)
    ensures
        nonempty_lines(a + b) == nonempty_lines(a) + nonempty_lines(b),
    decreases b.len(),
{
    if b.len() == 0 {
        assert(a + b =~= a);
        assert(nonempty_lines(a) + nonempty_lines(b) =~= nonempty_lines(a));
    } else {
        lemma_nonempty_concat(a, b.drop_last());
        assert((a + b).drop_last() =~= a + b.drop_last());
        assert((a + b).last() == b.last());
        assert(nonempty_lines(a) + nonempty_lines(b.drop_last()) + (if b.last().len() > 0 {
            seq![b.last()]
        } else {
            Seq::<Seq<char>>::empty()
        }) =~= nonempty_lines(a) + nonempty_lines(b));
    }
}

/// Every event decoded from a replay corresponds to its source line: the
/// events of a successful replay match the non-empty input lines, one to
/// one and in order.
pub open spec fn replay_matches(events: Seq<ChatEventView>, ls: Seq<Seq<char>>) -> bool {
    &&& events.len() == ls.len()
    &&& forall|i: int| 0 <= i < ls.len() ==> #[trigger] line_decode(ls[i]) is Ok
    &&& forall|i: int|
        0 <= i < ls.len() ==> #[trigger] event_matches(events[i], line_decode(ls[i])->Ok_0, ls[i])
}

/// Decode a whole replay input into its event sequence.
///
/// Every non-empty line is decoded in order; the first line the protocol
/// decoder rejects is fatal for the whole replay and is reported, and no
/// event of a line before it is lost silently.
pub fn filein_to_smsg(input: &str) -> (r: Result<Vec<ChatEvent>, DecodeError>)
    ensures
        r is Ok ==> replay_matches(r->Ok_0.deep_view(), nonempty_lines(spec_lines(input@))),
        r is Err ==> exists|k: int|
            0 <= k < nonempty_lines(spec_lines(input@)).len() && #[trigger] line_decode(
                nonempty_lines(spec_lines(input@))[k],
            ) is Err && r->Err_0 == line_decode(nonempty_lines(spec_lines(input@))[k])->Err_0 && (
            forall|j: int|
                0 <= j < k ==> line_decode(nonempty_lines(spec_lines(input@))[j]) is Ok),
        (forall|i: int|
            0 <= i < nonempty_lines(spec_lines(input@)).len() ==> line_decode(
                nonempty_lines(spec_lines(input@))[i],
            ) is Ok) ==> r is Ok,
{
    let lines = split_lines(input);
    let ghost all_lines = spec_lines(input@);
    let mut events: Vec<ChatEvent> = Vec::new();
    let mut i: usize = 0;
    while i < lines.len()
        invariant
            i <= lines.len(),
            lines.deep_view() == all_lines,
            all_lines == spec_lines(input@),
            replay_matches(events.deep_view(), nonempty_lines(all_lines.take(i as int))),
        decreases lines.len() - i,
    {
        let ghost ne_pre = nonempty_lines(all_lines.take(i as int));
        proof {
            assert(all_lines.take(i + 1 as int).drop_last() =~= all_lines.take(i as int));
            assert(all_lines.take(i + 1 as int).last() == all_lines[i as int]);
        }
        let line = &lines[i];
        if !line.as_str().is_empty() {
            proof {
                assert(nonempty_lines(all_lines.take(i + 1 as int)) =~= ne_pre.push(
                    all_lines[i as int],
                ));
            }
            match decode_line(line.as_str()) {
                Ok(e) => {
                    let ghost ev_pre = events.deep_view();
                    events.push(e);
                    proof {
                        let ne_post = nonempty_lines(all_lines.take(i + 1 as int));
                        assert(events.deep_view() =~= ev_pre.push(e@));
                        assert(line@ == all_lines[i as int]);
                        assert(line_decode(ne_post[ne_pre.len() as int]) is Ok);
                        assert(event_matches(
                            e@,
                            line_decode(ne_post[ne_pre.len() as int])->Ok_0,
                            ne_post[ne_pre.len() as int],
                        ));
                        assert forall|j: int| 0 <= j < ne_post.len() implies #[trigger] line_decode(
                            ne_post[j],
                        ) is Ok by {
                            if j < ne_pre.len() {
                                assert(ne_post[j] == ne_pre[j]);
                                assert(line_decode(ne_pre[j]) is Ok);
                            }
                        }
                        assert forall|j: int| 0 <= j < ne_post.len() implies #[trigger]
                        event_matches(
                            events.deep_view()[j],
                            line_decode(ne_post[j])->Ok_0,
                            ne_post[j],
                        ) by {
                            if j < ne_pre.len() {
                                assert(ne_post[j] == ne_pre[j]);
                                assert(events.deep_view()[j] == ev_pre[j]);
                                assert(event_matches(
                                    ev_pre[j],
                                    line_decode(ne_pre[j])->Ok_0,
                                    ne_pre[j],
                                ));
                            }
                        }
                        assert(replay_matches(events.deep_view(), ne_post));
                    }
                },
                Err(err) => {
                    proof {
                        let ls = nonempty_lines(spec_lines(input@));
                        let k = ne_pre.len() as int;
                        lemma_nonempty_concat(
                            all_lines.take(i + 1 as int),
                            all_lines.skip(i + 1 as int),
                        );
                        assert(all_lines.take(i + 1 as int) + all_lines.skip(i + 1 as int)
                            =~= all_lines);
                        assert(ls =~= nonempty_lines(all_lines.take(i + 1 as int))
                            + nonempty_lines(all_lines.skip(i + 1 as int)));
                        assert(ls[k] == all_lines[i as int]);
                        assert(line@ == all_lines[i as int]);
                        assert(line_decode(ls[k]) is Err);
                        assert forall|j: int| 0 <= j < k implies line_decode(ls[j]) is Ok by {
                            assert(ls[j] == ne_pre[j]);
                            assert(line_decode(ne_pre[j]) is Ok);
                        }
                        assert(0 <= k < ls.len() && line_decode(ls[k]) is Err && err == line_decode(
                            ls[k],
                        )->Err_0 && (forall|j: int| 0 <= j < k ==> line_decode(ls[j]) is Ok));
                    }
                    return Err(err);
                },
            }
        } else {
            proof {
                assert(nonempty_lines(all_lines.take(i + 1 as int)) =~= ne_pre);
            }
        }
        i = i + 1;
    }
    proof {
        assert(all_lines.take(all_lines.len() as int) =~= all_lines);
    }
    Ok(events)
}

/// Round trip: the line the raw logger writes for a loggable event, split
/// back into replay lines, is exactly the event's raw form again; and any
/// event a replay decode of that line yields carries a byte-identical raw
/// form. Raw protocol lines are non-empty and hold no newline or carriage
/// return, which the protocol parser already guarantees of every line it
/// accepts.
pub proof fn lemma_log_round_trip(e: ChatEventView)
    requires
        e.loggable(),
        e.raw().len() > 0,
        forall|i: int| 0 <= i < e.raw().len() ==> e.raw()[i] != '\n' && e.raw()[i] != '\r',
    ensures
        nonempty_lines(spec_lines(spec_log_line(e))) == seq![e.raw()],
        forall|e2: ChatEventView, parts: MsgParts|
            #[trigger] event_matches(e2, parts, e.raw()) ==> e2.raw() == e.raw(),
{
    reveal_strlit("\n");
    let s = spec_log_line(e);
    let raw = e.raw();
    assert(s.len() == raw.len() + 1);
    assert(s[raw.len() as int] == '\n');
    assert(forall|k: int| 0 <= k < raw.len() ==> s[k] == raw[k]);
    lemma_find_nl_char(s, 0, raw.len() as int);
    assert(find_nl(s, 0) == raw.len());
    assert(s.subrange(0, raw.len() as int) =~= raw);
    assert(strip_cr(raw) == raw);
    assert(lines_from(s, raw.len() + 1 as int) =~= Seq::<Seq<char>>::empty());
    assert(spec_lines(s) =~= seq![raw]);
    assert(seq![raw].drop_last() =~= Seq::<Seq<char>>::empty());
    assert(seq![raw].last() == raw);
    assert(nonempty_lines(Seq::<Seq<char>>::empty()) == Seq::<Seq<char>>::empty());
    assert(nonempty_lines(seq![raw]) == nonempty_lines(seq![raw].drop_last()) + seq![raw]);
    assert(nonempty_lines(seq![raw]) =~= seq![raw]);
    assert(nonempty_lines(spec_lines(spec_log_line(e))) =~= seq![raw]);
    assert forall|e2: ChatEventView, parts: MsgParts|
        #[trigger] event_matches(e2, parts, raw) implies e2.raw() == raw by {
        lemma_event_matches_raw(e2, parts, raw);
    }
}

} // verus!
