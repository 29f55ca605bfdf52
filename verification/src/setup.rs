//! The orchestrator's decisions: which pipeline shape a run configuration
//! asks for, how sink outcomes add up to a run verdict, and the whole replay
//! pipeline wired together.
//!
//! The shape is decided once at startup, never at runtime: live or replay
//! input, flowing either straight into the pretty-printer or through the
//! fan-out splitter into both the pretty-printer and the raw logger.

use crate::args::Args;
use crate::event::ChatEventView;
use crate::logging::run_log_sink;
use crate::logging::spec_log_render;
use crate::pretty_print::pretty_trace;
use crate::pretty_print::run_pretty_sink;
use crate::replay::filein_to_smsg;
use crate::replay::line_decode;
use crate::replay::nonempty_lines;
use crate::replay::replay_matches;
use crate::replay::spec_lines;
use crate::replay::DecodeError;
use crate::sink::Outcome;
use crate::sink::TextSink;
use crate::sink::WriteError;
use crate::splitter::lemma_fan_out;
use crate::splitter::splitter_start;
use crate::splitter::Splitter;
use vstd::prelude::*;

verus! {

/// One of the four reachable pipeline shapes, decided once from the run
/// configuration.
#[derive(Debug, PartialEq, Eq)]
pub enum PipelineShape {
    /// Live input, straight into the pretty-printer.
    LiveDirect,
    /// Live input, fanned out to the pretty-printer and the raw logger.
    LiveLogged { log_file: String, append: bool },
    /// Replayed input, straight into the pretty-printer.
    ReplayDirect,
    /// Replayed input, fanned out to the pretty-printer and the raw logger.
    ReplayLogged { log_file: String, append: bool },
}

/// Decide the pipeline shape from the run configuration: replay input when
/// reading from standard input was asked for, and the logged shapes exactly
/// when a log file is configured, carrying its path and the append flag.
pub fn plan(args: &Args) -> (s: PipelineShape)
    ensures
        !args.from_stdin && args.log_file is None ==> s == PipelineShape::LiveDirect,
        args.from_stdin && args.log_file is None ==> s == PipelineShape::ReplayDirect,
        args.log_file matches Some(f) ==> (if args.from_stdin {
            s matches PipelineShape::ReplayLogged { log_file, append } && log_file@ == f@ && append
                == args.append
        } else {
            s matches PipelineShape::LiveLogged { log_file, append } && log_file@ == f@ && append
                == args.append
        }),
{
    match &args.log_file {
        Some(f) => {
            if args.from_stdin {
                PipelineShape::ReplayLogged { log_file: f.clone(), append: args.append }
            } else {
                PipelineShape::LiveLogged { log_file: f.clone(), append: args.append }
            }
        },
        None => {
            if args.from_stdin {
                PipelineShape::ReplayDirect
            } else {
                PipelineShape::LiveDirect
            }
        },
    }
}

/// The run verdict for a shape with only the pretty-print sink: a stop on a
/// closed downstream is a normal completion, never an error; only a real
/// write failure fails the run.
pub fn run_verdict(outcome: Outcome) -> (r: Result<(), WriteError>)
    ensures
        outcome == Outcome::Continue ==> r is Ok,
        outcome == Outcome::Stop ==> r is Ok,
        outcome matches Outcome::Fail(e) ==> r == Err::<(), WriteError>(e),
{
    match outcome {
        Outcome::Continue => Ok(()),
        Outcome::Stop => Ok(()),
        Outcome::Fail(e) => Err(e),
    }
}

/// The run verdict for a logged shape: the run succeeds only if the
/// pretty-print sink ended without a write failure (a quiet stop counts as
/// success) and the logger completed; the pretty sink's failure is reported
/// first.
pub fn join_verdicts(pretty: Outcome, logger: Result<(), WriteError>) -> (r: Result<
    (),
    WriteError,
>)
    ensures
        pretty matches Outcome::Fail(e) ==> r == Err::<(), WriteError>(e),
        logger matches Err(e) ==> (!(pretty is Fail) ==> r == Err::<(), WriteError>(e)),
        !(pretty is Fail) && logger is Ok ==> r is Ok,
{
    match pretty {
        Outcome::Fail(e) => Err(e),
        _ => logger,
    }
}

/// Why a whole run failed.
#[derive(Clone, Copy, Debug, PartialEq, Eq)]
pub enum PipelineError {
    /// A replay line failed to decode; fatal for the whole replay.
    Decode(DecodeError),
    /// A sink write failed for another reason than a closed downstream.
    Write(WriteError),
}

/// The replayed-and-logged pipeline, wired together: decode the replay
/// input, fan the events out, pretty-print one stream and raw-log the other.
///
/// A line that fails to decode is fatal before anything is consumed. A
/// successful run means the log holds exactly the loggable events' raw
/// lines and the pretty sink a rendered prefix, ended early only by a quiet
/// stop; the first sink failure is reported, and a broken pipe on the
/// pretty side is never one. With sinks that cannot fail, the run succeeds
/// exactly when every non-empty input line decodes, and the pretty sink
/// holds one rendered line per chat message, in input order.
pub fn run_replay_pipeline<P: TextSink, L: TextSink>(
    input: &str,
    start_time_ms: i64,
    pretty_out: &mut P,
    log_out: &mut L,
) -> (r: Result<(), PipelineError>)
    ensures
        old(pretty_out).infallible() && old(log_out).infallible() ==> ((r is Ok <==> (forall|
            i: int,
        |
            0 <= i < nonempty_lines(spec_lines(input@)).len() ==> line_decode(
                #[trigger] nonempty_lines(spec_lines(input@))[i],
            ) is Ok))),
        r is Ok ==> exists|events: Seq<ChatEventView>|
            #[trigger] replay_matches(events, nonempty_lines(spec_lines(input@)))
                && final(log_out).contents() == old(log_out).contents() + spec_log_render(events)
                && (exists|k: int|
                0 <= k <= events.len() && pretty_trace(
                    events.take(k),
                    start_time_ms as int,
                    old(pretty_out).contents(),
                    final(pretty_out).contents(),
                )) && (old(pretty_out).infallible() ==> pretty_trace(
                events,
                start_time_ms as int,
                old(pretty_out).contents(),
                final(pretty_out).contents(),
            )),
        r matches Err(PipelineError::Write(e)) ==> ((old(pretty_out).may_fail_with(e) && e
            != WriteError::BrokenPipe) || old(log_out).may_fail_with(e)),
        final(pretty_out).infallible() == old(pretty_out).infallible(),
        final(log_out).infallible() == old(log_out).infallible(),
        forall|e: WriteError|
            #[trigger] final(pretty_out).may_fail_with(e) == old(pretty_out).may_fail_with(e),
        forall|e: WriteError|
            #[trigger] final(log_out).may_fail_with(e) == old(log_out).may_fail_with(e),
{
    let events = match filein_to_smsg(input) {
        Ok(events) => events,
        Err(e) => {
            return Err(PipelineError::Decode(e));
        },
    };
    let mut splitter = Splitter::new();
    splitter.feed(&events);
    proof {
        lemma_fan_out(splitter_start(), events.deep_view());
        assert(Seq::<ChatEventView>::empty() + events.deep_view() =~= events.deep_view());
    }
    let (stream_a, stream_b) = splitter.into_outputs();
    let outcome = run_pretty_sink(&stream_a, start_time_ms, pretty_out);
    let log_result = run_log_sink(&stream_b, log_out);
    let verdict = join_verdicts(outcome, log_result);
    match verdict {
        Ok(()) => {
            proof {
                let evs = events.deep_view();
                assert(!(outcome is Fail) && log_result is Ok);
                assert(log_out.contents() == old(log_out).contents() + spec_log_render(evs));
                if outcome == Outcome::Continue {
                    assert(evs.take(evs.len() as int) =~= evs);
                    assert(pretty_trace(
                        evs.take(evs.len() as int),
                        start_time_ms as int,
                        old(pretty_out).contents(),
                        pretty_out.contents(),
                    ));
                }
                if old(pretty_out).infallible() {
                    assert(outcome == Outcome::Continue);
                }
                assert(replay_matches(evs, nonempty_lines(spec_lines(input@))));
            }
            Ok(())
        },
        Err(e) => Err(PipelineError::Write(e)),
    }
}

} // verus!
