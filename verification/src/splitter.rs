//! The fan-out splitter: duplicating one event stream into two independent
//! output streams.
//!
//! The splitter takes each event from the source in turn and attempts to
//! deliver a copy to stream A, then to stream B. Both outputs are unbounded,
//! so a slow consumer never stalls the other. If delivery to either side
//! fails because its consumer was dropped, the splitter stops immediately:
//! it does not keep feeding the surviving side.

use crate::event::ChatEvent;
use crate::event::ChatEventView;
use vstd::prelude::*;

verus! {

/// The fan-out splitter's state: what each output stream has received, which
/// consumers are still attached, and whether the splitter has stopped.
pub struct Splitter {
    pub out_a: Vec<ChatEvent>,
    pub out_b: Vec<ChatEvent>,
    pub a_open: bool,
    pub b_open: bool,
    pub stopped: bool,
}

/// The mathematical model of a [`Splitter`].
#[verifier::ext_equal]
pub struct SplitterView {
    pub out_a: Seq<ChatEventView>,
    pub out_b: Seq<ChatEventView>,
    pub a_open: bool,
    pub b_open: bool,
    pub stopped: bool,
}

impl View for Splitter {
    type V = SplitterView;

    open spec fn view(&self) -> SplitterView {
        SplitterView {
            out_a: self.out_a.deep_view(),
            out_b: self.out_b.deep_view(),
            a_open: self.a_open,
            b_open: self.b_open,
            stopped: self.stopped,
        }
    }
}

/// A fresh splitter: both outputs empty, both consumers attached.
pub open spec fn splitter_start() -> SplitterView {
    SplitterView {
        out_a: Seq::<ChatEventView>::empty(),
        out_b: Seq::<ChatEventView>::empty(),
        a_open: true,
        b_open: true,
        stopped: false,
    }
}

/// How one event moves the splitter: delivery is attempted to A first, then
/// to B, and the splitter stops at the first side whose consumer is gone.
pub open spec fn split_step(s: SplitterView, e: ChatEventView) -> SplitterView {
    if s.stopped {
        s
    } else if !s.a_open {
        SplitterView { stopped: true, ..s }
    } else if !s.b_open {
        SplitterView { out_a: s.out_a.push(e), stopped: true, ..s }
    } else {
        SplitterView { out_a: s.out_a.push(e), out_b: s.out_b.push(e), ..s }
    }
}

/// How a whole event sequence moves the splitter, first event first.
pub open spec fn split_feed(s: SplitterView, evs: Seq<ChatEventView>) -> SplitterView
    decreases evs.len(),
{
    if evs.len() == 0 {
        s
    } else {
        split_step(split_feed(s, evs.drop_last()), evs.last())
    }
}

impl Splitter {
    /// A fresh splitter with both consumers attached.
    pub fn new() -> (r: Splitter)
        ensures
            r@ == splitter_start(),
    {
        let r = Splitter {
            out_a: Vec::new(),
            out_b: Vec::new(),
            a_open: true,
            b_open: true,
            stopped: false,
        };
        proof {
            assert(r@ =~= splitter_start());
        }
        r
    }

    /// Take the next event from the source and attempt to deliver a copy to
    /// both outputs. Returns whether the splitter is still running.
    pub fn push(&mut self, e: ChatEvent) -> (running: bool)
        ensures
            final(self)@ == split_step(old(self)@, e@),
            running == !final(self)@.stopped,
    {
        if self.stopped {
            return false;
        }
        if !self.a_open {
            self.stopped = true;
            proof {
                assert(self@ =~= split_step(old(self)@, e@));
            }
            return false;
        }
        let ghost pre_a = self.out_a.deep_view();
        self.out_a.push(e.clone());
        proof {
            assert(self.out_a.deep_view() =~= pre_a.push(e@));
        }
        if !self.b_open {
            self.stopped = true;
            proof {
                assert(self@ =~= split_step(old(self)@, e@));
            }
            return false;
        }
        let ghost pre_b = self.out_b.deep_view();
        self.out_b.push(e);
        proof {
            assert(self.out_b.deep_view() =~= pre_b.push(e@));
            assert(self@ =~= split_step(old(self)@, e@));
        }
        true
    }

    /// Feed a whole event sequence through the splitter, in order.
    pub fn feed(&mut self, events: &Vec<ChatEvent>)
        ensures
            final(self)@ == split_feed(old(self)@, events.deep_view()),
    {
        let mut i: usize = 0;
        while i < events.len()
            invariant
                i <= events.len(),
                self@ == split_feed(old(self)@, events.deep_view().take(i as int)),
            decreases events.len() - i,
        {
            self.push(events[i].clone());
            proof {
                let evs = events.deep_view();
                assert(evs.take(i + 1 as int).drop_last() =~= evs.take(i as int));
                assert(evs.take(i + 1 as int).last() == evs[i as int]);
            }
            i = i + 1;
        }
        proof {
            assert(events.deep_view().take(events.deep_view().len() as int) =~= events.deep_view());
        }
    }

    /// Stream A's consumer is dropped.
    pub fn close_a(&mut self)
        ensures
            final(self)@ == (SplitterView { a_open: false, ..old(self)@ }),
    {
        self.a_open = false;
        proof {
            assert(self@ =~= (SplitterView { a_open: false, ..old(self)@ }));
        }
    }

    /// Stream B's consumer is dropped.
    pub fn close_b(&mut self)
        ensures
            final(self)@ == (SplitterView { b_open: false, ..old(self)@ }),
    {
        self.b_open = false;
        proof {
            assert(self@ =~= (SplitterView { b_open: false, ..old(self)@ }));
        }
    }

    /// Drain the two output streams.
    pub fn into_outputs(self) -> (r: (Vec<ChatEvent>, Vec<ChatEvent>))
        ensures
            r.0.deep_view() == self@.out_a,
            r.1.deep_view() == self@.out_b,
    {
        (self.out_a, self.out_b)
    }
}

/// Fan-out: while both consumers stay attached, every event pushed into the
/// splitter is delivered to both output streams, in source order, so both
/// streams equal the input sequence exactly, for inputs of any length.
pub proof fn lemma_fan_out(s: SplitterView, evs: Seq<ChatEventView>)
    requires
        s.a_open,
        s.b_open,
        !s.stopped,
    ensures
        split_feed(s, evs).out_a == s.out_a + evs,
        split_feed(s, evs).out_b == s.out_b + evs,
        split_feed(s, evs).a_open,
        split_feed(s, evs).b_open,
        !split_feed(s, evs).stopped,
    decreases evs.len(),
{
    if evs.len() == 0 {
        assert(s.out_a + evs =~= s.out_a);
        assert(s.out_b + evs =~= s.out_b);
    } else {
        lemma_fan_out(s, evs.drop_last());
        assert((s.out_a + evs.drop_last()).push(evs.last()) =~= s.out_a + evs);
        assert((s.out_b + evs.drop_last()).push(evs.last()) =~= s.out_b + evs);
    }
}

/// A stopped splitter delivers nothing more.
pub proof fn lemma_stopped_stays(s: SplitterView, evs: Seq<ChatEventView>)
    requires
        s.stopped,
    ensures
        split_feed(s, evs) == s,
    decreases evs.len(),
{
    if evs.len() > 0 {
        lemma_stopped_stays(s, evs.drop_last());
    }
}

/// Prompt stop: once stream B's consumer is gone, stream A receives at most
/// one further event (the one whose B delivery fails) and stream B none,
/// however many events are still pushed.
pub proof fn lemma_prompt_stop(s: SplitterView, evs: Seq<ChatEventView>)
    requires
        !s.stopped,
        s.a_open,
        !s.b_open,
    ensures
        split_feed(s, evs).out_b == s.out_b,
        split_feed(s, evs).out_a == if evs.len() == 0 {
            s.out_a
        } else {
            s.out_a.push(evs[0])
        },
        evs.len() > 0 ==> split_feed(s, evs).stopped,
    decreases evs.len(),
{
    if evs.len() == 1 {
        assert(evs.drop_last().len() == 0);
        assert(split_feed(s, evs.drop_last()) == s);
        assert(evs.last() == evs[0]);
        assert(split_feed(s, evs) == split_step(s, evs[0]));
    } else if evs.len() > 1 {
        lemma_prompt_stop(s, evs.drop_last());
        assert(evs.drop_last().len() > 0);
        assert(evs.drop_last()[0] == evs[0]);
        assert(split_feed(s, evs.drop_last()).stopped);
        assert(split_feed(s, evs) == split_feed(s, evs.drop_last()));
    }
}

/// Closure: if stream B's consumer is dropped after `k` events while A's
/// survives, stream A ends with at most `k + 1` events and stream B with
/// exactly the first `k`, because the splitter stops at the first delivery
/// that fails.
pub proof fn lemma_closure(evs: Seq<ChatEventView>, k: int)
    requires
        0 <= k < evs.len(),
    ensures
        ({
            let before = split_feed(splitter_start(), evs.take(k));
            let dropped = SplitterView { b_open: false, ..before };
            let after = split_feed(dropped, evs.skip(k));
            after.out_b == evs.take(k) && after.out_a == evs.take(k).push(evs[k])
                && after.out_a.len() <= k + 1
        }),
{
    lemma_fan_out(splitter_start(), evs.take(k));
    let before = split_feed(splitter_start(), evs.take(k));
    assert(before.out_a =~= evs.take(k));
    assert(before.out_b =~= evs.take(k));
    let dropped = SplitterView { b_open: false, ..before };
    lemma_prompt_stop(dropped, evs.skip(k));
    assert(evs.skip(k).len() > 0);
    assert(evs.skip(k)[0] == evs[k]);
}

} // verus!
