//! The decisions of a dispatch loop, apart from the waiting and the running
//! of handlers.
//!
//! The loop that drives a [`Dispatcher`] receives from the event source when
//! told to [`Action::Receive`], runs the handler of the event at the given
//! position of the current batch when told to [`Action::Route`], and ends on
//! [`Action::Stop`]. What it received, or what the handler answered, it hands
//! back as a [`Signal`].

use vstd::prelude::*;

use crate::blocking::Flow;

verus! {

/// Where a dispatch loop stands.
#[derive(Clone, Copy, Debug, PartialEq, Eq, Structural)]
pub enum Phase {
    /// Waiting for the next delivery from the event source.
    Waiting,
    /// Routing a batch of `len` events; the one at `next` is under way.
    Routing { len: usize, next: usize },
    /// Finished: the source is gone, or a blocking handler asked to exit.
    Stopped,
}

/// What the loop learned since its last step.
#[derive(Clone, Copy, Debug, PartialEq, Eq, Structural)]
pub enum Signal {
    /// A batch of this many events arrived.
    Events(usize),
    /// A batch of this many errors arrived; they are only logged.
    Errors(usize),
    /// The event source is gone.
    Disconnected,
    /// The event under way was dealt with; its handler answered this
    /// (`Continue` where it had none, or where handlers answer nothing).
    Routed(Flow),
}

/// What the loop is to do next.
#[derive(Clone, Copy, Debug, PartialEq, Eq, Structural)]
pub enum Action {
    /// Wait for the next delivery from the event source.
    Receive,
    /// Route the event at this position of the current batch.
    Route(usize),
    /// Leave the loop.
    Stop,
}

/// The state of a dispatch loop. In blocking mode a handler's `Exit` ends
/// the loop; in background mode handlers' answers are ignored and only the
/// loss of the source ends it.
#[derive(Clone, Copy, Debug, PartialEq, Eq, Structural)]
pub struct Dispatcher {
    pub blocking: bool,
    pub phase: Phase,
}

/// `d` moved to `phase`, in the same mode.
pub open spec fn moved(d: Dispatcher, phase: Phase) -> Dispatcher {
    Dispatcher { phase, ..d }
}

/// The state after `d` learns `s`, and what the loop does next.
pub open spec fn transition(d: Dispatcher, s: Signal) -> (Dispatcher, Action) {
    let stay = |phase: Phase, a: Action| (moved(d, phase), a);
    match d.phase {
        Phase::Stopped => stay(Phase::Stopped, Action::Stop),
        Phase::Waiting => match s {
            Signal::Events(n) => if n > 0 {
                stay(Phase::Routing { len: n, next: 0 }, Action::Route(0))
            } else {
                stay(Phase::Waiting, Action::Receive)
            },
            Signal::Disconnected => stay(Phase::Stopped, Action::Stop),
            _ => stay(Phase::Waiting, Action::Receive),
        },
        Phase::Routing { len, next } => match s {
            Signal::Routed(f) => if d.blocking && f == Flow::Exit {
                stay(Phase::Stopped, Action::Stop)
            } else if next + 1 < len {
                stay(Phase::Routing { len, next: (next + 1) as usize }, Action::Route((next + 1) as usize))
            } else {
                stay(Phase::Waiting, Action::Receive)
            },
            Signal::Disconnected => stay(Phase::Stopped, Action::Stop),
            _ => stay(d.phase, Action::Route(next)),
        },
    }
}

/// The state after `d` learns each of `signals` in turn, and the actions
/// taken along the way.
pub open spec fn run(d: Dispatcher, signals: Seq<Signal>) -> (Dispatcher, Seq<Action>)
    decreases signals.len(),
{
    if signals.len() == 0 {
        (d, seq![])
    } else {
        let (d1, a) = transition(d, signals[0]);
        let (d2, rest) = run(d1, signals.drop_first());
        (d2, seq![a] + rest)
    }
}

/// The signals of handlers that answered `flows`, in order.
pub open spec fn answers(flows: Seq<Flow>) -> Seq<Signal> {
    flows.map_values(|f: Flow| Signal::Routed(f))
}

impl Dispatcher {
    /// A loop that waits for its first delivery.
    pub fn new(blocking: bool) -> (r: Self)
        ensures
            r.blocking == blocking,
            r.phase == Phase::Waiting,
    {
        Dispatcher { blocking, phase: Phase::Waiting }
    }

    /// Learns `s`; returns what the loop does next.
    pub fn step(&mut self, s: Signal) -> (a: Action)
        ensures
            (*final(self), a) == transition(*old(self), s),
    {
        let (phase, a) = match self.phase {
            Phase::Stopped => (Phase::Stopped, Action::Stop),
            Phase::Waiting => match s {
                Signal::Events(n) => if n > 0 {
                    (Phase::Routing { len: n, next: 0 }, Action::Route(0))
                } else {
                    (Phase::Waiting, Action::Receive)
                },
                Signal::Disconnected => (Phase::Stopped, Action::Stop),
                _ => (Phase::Waiting, Action::Receive),
            },
            Phase::Routing { len, next } => match s {
                Signal::Routed(f) => if self.blocking && f == Flow::Exit {
                    (Phase::Stopped, Action::Stop)
                } else if next < len && len - next > 1 {
                    (Phase::Routing { len, next: next + 1 }, Action::Route(next + 1))
                } else {
                    (Phase::Waiting, Action::Receive)
                },
                Signal::Disconnected => (Phase::Stopped, Action::Stop),
                _ => (self.phase, Action::Route(next)),
            },
        };
        self.phase = phase;
        a
    }

    /// Whether the loop has finished.
    pub fn is_stopped(&self) -> (r: bool)
        ensures
            r == (self.phase == Phase::Stopped),
    {
        self.phase == Phase::Stopped
    }
}

/// A finished loop stays finished: whatever it learns, it only stops again.
pub proof fn lemma_stopped_is_final(d: Dispatcher, signals: Seq<Signal>)
    requires
        d.phase == Phase::Stopped,
    ensures
        run(d, signals).0 == d,
        run(d, signals).1.len() == signals.len(),
        forall|i: int| 0 <= i < signals.len() ==> run(d, signals).1[i] == Action::Stop,
    decreases signals.len(),
{
    if signals.len() > 0 {
        lemma_stopped_is_final(d, signals.drop_first());
        let rest = run(d, signals.drop_first()).1;
        assert forall|i: int| 0 <= i < signals.len() implies run(d, signals).1[i] == Action::Stop by {
            if i > 0 {
                assert(run(d, signals).1[i] == rest[i - 1]);
            }
        }
    }
}

/// In blocking mode, once a handler answers `Exit` for an event of a batch,
/// the loop stops, and whatever comes after, no other event of that batch or
/// of any later batch is routed.
pub proof fn lemma_blocking_exit(d: Dispatcher, later: Seq<Signal>)
    requires
        d.blocking,
        d.phase is Routing,
    ensures
        transition(d, Signal::Routed(Flow::Exit)) == (moved(d, Phase::Stopped), Action::Stop),
        forall|i: int|
            0 <= i < later.len() ==> run(transition(d, Signal::Routed(Flow::Exit)).0, later).1[i]
                == Action::Stop,
{
    lemma_stopped_is_final(transition(d, Signal::Routed(Flow::Exit)).0, later);
}

proof fn lemma_routes_in_order(d: Dispatcher, flows: Seq<Flow>)
    requires
        d.phase matches Phase::Routing { len, next } && next + flows.len() < len,
        !d.blocking || forall|i: int| 0 <= i < flows.len() ==> flows[i] == Flow::Continue,
    ensures
        ({
            let (len, next) = (d.phase->len, d.phase->next);
            &&& run(d, answers(flows)).0 == moved(
                d,
                Phase::Routing { len, next: (next + flows.len()) as usize },
            )
            &&& run(d, answers(flows)).1 == Seq::new(
                flows.len(),
                |i: int| Action::Route((next + i + 1) as usize),
            )
        }),
    decreases flows.len(),
{
    if flows.len() > 0 {
        let (len, next) = (d.phase->len, d.phase->next);
        let d1 = transition(d, Signal::Routed(flows[0]));
        assert(d1.0 == moved(d, Phase::Routing { len, next: (next + 1) as usize }));
        assert(answers(flows).drop_first() =~= answers(flows.drop_first()));
        lemma_routes_in_order(d1.0, flows.drop_first());
        assert(run(d, answers(flows)).1 =~= Seq::new(
            flows.len(),
            |i: int| Action::Route((next + i + 1) as usize),
        ));
    }
}

/// In background mode, every event of a batch is routed, in order, whatever
/// the handlers answer: after the batch arrives and `flows` are the answers
/// of the handlers run so far, the loop has asked for the events at
/// positions `0` to `flows.len()`, one after the other, and for nothing else.
pub proof fn lemma_background_routes_every_event(d: Dispatcher, n: usize, flows: Seq<Flow>)
    requires
        !d.blocking,
        d.phase == Phase::Waiting,
        flows.len() < n,
    ensures
        run(d, seq![Signal::Events(n)] + answers(flows)).0 == moved(
            d,
            Phase::Routing { len: n, next: flows.len() as usize },
        ),
        run(d, seq![Signal::Events(n)] + answers(flows)).1 == Seq::new(
            flows.len() + 1,
            |i: int| Action::Route(i as usize),
        ),
{
    let signals = seq![Signal::Events(n)] + answers(flows);
    let d1 = transition(d, Signal::Events(n)).0;
    assert(signals.drop_first() =~= answers(flows));
    lemma_routes_in_order(d1, flows);
    assert(run(d, signals).1 =~= Seq::new(flows.len() + 1, |i: int| Action::Route(i as usize)));
}

/// A batch of errors leaves a waiting loop as it was: it goes on receiving,
/// and a batch of events that follows is routed as if the errors had never
/// come.
pub proof fn lemma_errors_do_not_block_events(d: Dispatcher, errors: usize, n: usize)
    requires
        d.phase == Phase::Waiting,
    ensures
        transition(d, Signal::Errors(errors)) == (d, Action::Receive),
        run(d, seq![Signal::Errors(errors), Signal::Events(n)]) == (
            transition(d, Signal::Events(n)).0,
            seq![Action::Receive, transition(d, Signal::Events(n)).1],
        ),
        n > 0 ==> transition(d, Signal::Events(n)).1 == Action::Route(0),
{
    let signals = seq![Signal::Errors(errors), Signal::Events(n)];
    let last = seq![Signal::Events(n)];
    assert(moved(d, Phase::Waiting) == d);
    assert(signals.drop_first() =~= last);
    assert(last.drop_first() =~= Seq::<Signal>::empty());
    let t = transition(d, Signal::Events(n));
    assert(last[0] == Signal::Events(n));
    assert(run(t.0, last.drop_first()) == (t.0, Seq::<Action>::empty()));
    assert(run(d, last).1 =~= seq![t.1]);
    assert(run(d, last).0 == t.0);
    assert(run(d, signals).1 =~= seq![Action::Receive, t.1]);
}

} // verus!
