//! The raw logger sink: re-emitting qualifying events as protocol text.
//!
//! Chat messages, user notices, clear-chat and clear-msg events are written
//! back out verbatim, one raw protocol line per written line; everything
//! else is silently skipped. The log file this produces is itself valid
//! replay input.

use crate::event::ChatEvent;
use crate::event::ChatEventView;
use crate::sink::TextSink;
use crate::sink::WriteError;
use vstd::prelude::*;
use vstd::string::StringExecFns;

verus! {

/// The line the logger writes for a loggable event: its raw protocol form
/// followed by a newline.
pub open spec fn spec_log_line(e: ChatEventView) -> Seq<char> {
    e.raw() + "\n"@
}

/// Everything the logger writes for a whole event sequence, in order.
pub open spec fn spec_log_render(events: Seq<ChatEventView>) -> Seq<char>
    decreases events.len(),
{
    if events.len() == 0 {
        Seq::<char>::empty()
    } else {
        spec_log_render(events.drop_last()) + (if events.last().loggable() {
            spec_log_line(events.last())
        } else {
            Seq::<char>::empty()
        })
    }
}

/// Log one event in raw protocol format.
///
/// Only `ChatMessage`, `UserNotice`, `ClearChat` and `ClearMsg` events are
/// written; the rest are a silent no-op. A failed write changes nothing and
/// is fatal for the logging task; the caller decides that.
pub fn log_v0<W: TextSink>(message: &ChatEvent, out: &mut W) -> (r: Result<(), WriteError>)
    ensures
        r is Ok && message@.loggable() ==> final(out).contents() == old(out).contents()
            + spec_log_line(message@),
        r is Ok && !message@.loggable() ==> final(out).contents() == old(out).contents(),
        r is Err ==> final(out).contents() == old(out).contents() && message@.loggable(),
        r matches Err(e) ==> old(out).may_fail_with(e),
        final(out).infallible() == old(out).infallible(),
        forall|e: WriteError| #[trigger] final(out).may_fail_with(e) == old(out).may_fail_with(e),
        old(out).infallible() ==> r is Ok,
{
    let raw: &String = match message {
        ChatEvent::ChatMessage(m) => &m.raw,
        ChatEvent::UserNotice { raw } => raw,
        ChatEvent::ClearChat { raw } => raw,
        ChatEvent::ClearMsg { raw } => raw,
        ChatEvent::Other { .. } => {
            return Ok(());
        },
    };
    let line = raw.clone().concat("\n");
    out.write_text(line.as_str())
}

/// Drain a whole event sequence into the log sink, stopping at the first
/// failed write, which is fatal for the logging task.
pub fn run_log_sink<W: TextSink>(events: &Vec<ChatEvent>, out: &mut W) -> (r: Result<
    (),
    WriteError,
>)
    ensures
        r is Ok ==> final(out).contents() == old(out).contents() + spec_log_render(
            events.deep_view(),
        ),
        r is Err ==> exists|k: int|
            0 <= k <= events.deep_view().len() && final(out).contents() == old(out).contents()
                + spec_log_render(events.deep_view().take(k)),
        r matches Err(e) ==> old(out).may_fail_with(e),
        final(out).infallible() == old(out).infallible(),
        forall|e: WriteError| #[trigger] final(out).may_fail_with(e) == old(out).may_fail_with(e),
        old(out).infallible() ==> r is Ok,
{
    let mut i: usize = 0;
    while i < events.len()
        invariant
            i <= events.len(),
            out.contents() == old(out).contents() + spec_log_render(events.deep_view().take(
                i as int,
            )),
            out.infallible() == old(out).infallible(),
            forall|e: WriteError| #[trigger] out.may_fail_with(e) == old(out).may_fail_with(e),
        decreases events.len() - i,
    {
        let r = log_v0(&events[i], out);
        proof {
            let evs = events.deep_view();
            assert(evs.take(i + 1 as int).drop_last() =~= evs.take(i as int));
            assert(evs.take(i + 1 as int).last() == evs[i as int]);
        }
        if let Err(e) = r {
            return Err(e);
        }
        i = i + 1;
    }
    proof {
        assert(events.deep_view().take(events.deep_view().len() as int) =~= events.deep_view());
    }
    Ok(())
}

} // verus!
