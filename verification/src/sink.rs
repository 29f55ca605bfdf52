//! The writable text sink that the two consumers write into.
//!
//! Sinks are injected, never hardwired: a terminal, a log file or an
//! in-memory buffer all implement the same capability interface, which keeps
//! the rendering and logging logic deterministic and testable.

use vstd::prelude::*;
use vstd::string::StringExecFns;

verus! {

/// Why a write into a sink failed.
#[derive(Clone, Copy, Debug, PartialEq, Eq)]
pub enum WriteError {
    /// The downstream consumer closed its input: the canonical signal for a
    /// clean shutdown, never an error.
    BrokenPipe,
    /// Any other write failure; fatal for the sink it happens on.
    Other,
}

/// What handling one event did to a sink's consumer loop.
#[derive(Clone, Copy, Debug, PartialEq, Eq)]
pub enum Outcome {
    /// Keep consuming.
    Continue,
    /// The downstream consumer is gone; end the loop quietly.
    Stop,
    /// The write failed for another reason; fatal for this sink only.
    Fail(WriteError),
}

/// Classify a finished write: success means keep consuming, a broken pipe
/// is the quiet stop signal, and any other failure is fatal for the sink it
/// happened on.
pub fn outcome_of_write(r: Result<(), WriteError>) -> (o: Outcome)
    ensures
        r is Ok ==> o == Outcome::Continue,
        r == Err::<(), WriteError>(WriteError::BrokenPipe) ==> o == Outcome::Stop,
        r matches Err(e) ==> (e != WriteError::BrokenPipe ==> o == Outcome::Fail(e)),
{
    match r {
        Ok(()) => Outcome::Continue,
        Err(WriteError::BrokenPipe) => Outcome::Stop,
        Err(e) => Outcome::Fail(e),
    }
}

/// A writable text sink.
///
/// Its model is the sequence of characters written so far. A successful
/// write appends exactly the given text; a failed write leaves the contents
/// unchanged and reports why it failed. A sink that can never fail says so
/// through [`TextSink::infallible`], which no write may change.
pub trait TextSink: Sized {
    /// The characters written into this sink so far.
    spec fn contents(&self) -> Seq<char>;

    /// Whether every write into this sink succeeds.
    spec fn infallible(&self) -> bool;

    /// Which errors a failed write into this sink can report: the sink's
    /// failure mode. No write changes it.
    spec fn may_fail_with(&self, e: WriteError) -> bool;

    /// Write `text` at the end of the sink.
    fn write_text(&mut self, text: &str) -> (r: Result<(), WriteError>)
        ensures
            r is Ok ==> final(self).contents() == old(self).contents() + text@,
            r is Err ==> final(self).contents() == old(self).contents(),
            r matches Err(e) ==> old(self).may_fail_with(e),
            final(self).infallible() == old(self).infallible(),
            forall|e: WriteError|
                #[trigger] final(self).may_fail_with(e) == old(self).may_fail_with(e),
            old(self).infallible() ==> r is Ok,
    ;
}

/// An in-memory sink: collects everything written into a string.
pub struct BufferSink {
    /// Everything written so far.
    pub data: String,
}

impl BufferSink {
    /// An empty buffer.
    pub fn new() -> (r: BufferSink)
        ensures
            r.contents() == Seq::<char>::empty(),
            r.infallible(),
    {
        BufferSink { data: String::new() }
    }

    /// Hand the collected text out.
    pub fn into_string(self) -> (r: String)
        ensures
            r@ == self.contents(),
    {
        self.data
    }
}

impl TextSink for BufferSink {
    open spec fn contents(&self) -> Seq<char> {
        self.data@
    }

    open spec fn infallible(&self) -> bool {
        true
    }

    open spec fn may_fail_with(&self, e: WriteError) -> bool {
        false
    }

    fn write_text(&mut self, text: &str) -> (r: Result<(), WriteError>)
    {
        self.data.append(text);
        Ok(())
    }
}

/// A sink whose writes always fail with a fixed error: the deterministic
/// stand-in for a closed or broken downstream consumer.
pub struct FailingSink {
    /// The error every write reports.
    pub error: WriteError,
}

impl TextSink for FailingSink {
    open spec fn contents(&self) -> Seq<char> {
        Seq::<char>::empty()
    }

    open spec fn infallible(&self) -> bool {
        false
    }

    open spec fn may_fail_with(&self, e: WriteError) -> bool {
        e == self.error
    }

    fn write_text(&mut self, _text: &str) -> (r: Result<(), WriteError>)
        ensures
            r == Err::<(), WriteError>(old(self).error),
    {
        Err(self.error)
    }
}

} // verus!
