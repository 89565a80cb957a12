//! The push-down automaton that routes game events to the active state.

use crate::game_control::GameControlState;
use crate::game_logic::GameplayState;
use crate::game_objects::BoardZone;
use crate::ui::{GameEndState, TakeTurnState, TargetingState};
use std::collections::VecDeque;
use vstd::prelude::*;

verus! {

/// Everything the automaton routes. Events name cards by index, never by
/// reference.
#[derive(Debug, Clone, Copy, PartialEq, Eq, Structural)]
pub enum GameEvent {
    StartTurn,
    CardPicked(usize),
    /// Source zone and index of the acting card, then target zone and index.
    CardTargeted(BoardZone, usize, BoardZone, usize),
    CardBought(BoardZone, usize),
    EndTurn,
    GameEnded,
    Timeout,
}

/// The terminal state: it leaves the stack on any event.
#[derive(Debug, Default, Clone, Copy)]
pub struct GameEndedState;

/// The states of the automaton.
#[derive(Debug)]
pub enum AutomatonState {
    Control(GameControlState),
    Gameplay(GameplayState),
    TakeTurn(TakeTurnState),
    Targeting(TargetingState),
    GameEnd(GameEndState),
    Ended(GameEndedState),
}

/// What a state does to the stack after handling an event.
#[derive(Debug)]
pub enum StateAction {
    /// The state stays on top; a follow-up event is dropped.
    Keep(AutomatonState),
    /// The first state goes back on the stack with the second above it.
    Push(AutomatonState, AutomatonState),
    /// The state leaves the stack.
    Pop,
    /// The given state takes the place of the one that handled the event.
    Replace(AutomatonState),
}

/// The outcome of handling one event: a stack action and, possibly, an event
/// for the new top state.
pub type Step = (StateAction, Option<GameEvent>);

impl AutomatonState {
    /// `r` is what this state gives for `event`. The controller only takes
    /// the end of a turn; it ignores anything else.
    pub open spec fn step(self, event: GameEvent, r: Step) -> bool {
        match self {
            AutomatonState::Control(c) => {
                &&& event is EndTurn ==> c.turn_passed(r)
                &&& !(event is EndTurn) ==> r.1.is_none() && r.0 == StateAction::Keep(self)
            },
            AutomatonState::Gameplay(g) => g.event_step(event, r),
            AutomatonState::TakeTurn(t) => t.event_step(event, r),
            AutomatonState::Targeting(t) => t.event_step(event, r),
            AutomatonState::GameEnd(e) => e.event_step(event, r),
            AutomatonState::Ended(_) => r.0 is Pop && r.1.is_none(),
        }
    }

    /// Handles one event and says what becomes of this state.
    pub fn event(self, event: GameEvent) -> (r: Step)
        requires
            self.wf(),
        ensures
            r.0.wf(),
            self.step(event, r),
    {
        match self {
            AutomatonState::Control(c) => {
                if event == GameEvent::EndTurn {
                    c.event(event)
                } else {
                    (StateAction::Keep(AutomatonState::Control(c)), None)
                }
            },
            AutomatonState::Gameplay(g) => g.event(event),
            AutomatonState::TakeTurn(t) => t.event(event),
            AutomatonState::Targeting(t) => t.event(event),
            AutomatonState::GameEnd(e) => e.event(event),
            AutomatonState::Ended(e) => e.event(event),
        }
    }

    /// The state's own invariant holds.
    pub open spec fn wf(self) -> bool {
        match self {
            AutomatonState::Control(c) => c.wf(),
            AutomatonState::Gameplay(g) => g.wf(),
            AutomatonState::TakeTurn(t) => t.wf(),
            AutomatonState::Targeting(t) => t.wf(),
            AutomatonState::GameEnd(_) => true,
            AutomatonState::Ended(_) => true,
        }
    }
}

impl StateAction {
    /// Every state this action holds is well formed.
    pub open spec fn wf(self) -> bool {
        match self {
            StateAction::Keep(s) => s.wf(),
            StateAction::Push(a, b) => a.wf() && b.wf(),
            StateAction::Pop => true,
            StateAction::Replace(s) => s.wf(),
        }
    }
}

impl GameEndedState {
    /// Leaves the stack, whatever the event.
    pub fn event(self, event: GameEvent) -> (r: Step)
        ensures
            r.0 is Pop,
            r.1.is_none(),
    {
        (StateAction::Pop, None)
    }
}

/// `queue` with the follow-up event `follow`, if any, at its end.
pub open spec fn queued(queue: Seq<GameEvent>, follow: Option<GameEvent>) -> Seq<GameEvent> {
    match follow {
        Some(e) => queue.push(e),
        None => queue,
    }
}

/// Stack and queue after the top state of `stack` answers the oldest event
/// of `queue` with `r`: the event leaves the queue, the action is applied to
/// the stack, and a follow-up event is queued unless the state kept its
/// place.
pub open spec fn after_step(stack: Seq<AutomatonState>, queue: Seq<GameEvent>, r: Step) -> (
    Seq<AutomatonState>,
    Seq<GameEvent>,
) {
    let rest = stack.drop_last();
    let q = queue.drop_first();
    match r.0 {
        StateAction::Keep(s) => (rest.push(s), q),
        StateAction::Push(under, over) => (rest.push(under).push(over), queued(q, r.1)),
        StateAction::Pop => (rest, queued(q, r.1)),
        StateAction::Replace(s) => (rest.push(s), queued(q, r.1)),
    }
}

/// One step of the automaton takes stack and queue `pre` to `post`: the top
/// state handles the oldest event.
pub open spec fn step_once(pre: (Seq<AutomatonState>, Seq<GameEvent>), post: (Seq<AutomatonState>, Seq<GameEvent>)) -> bool {
    &&& pre.0.len() > 0
    &&& pre.1.len() > 0
    &&& exists|r: Step|
        #![trigger pre.0.last().step(pre.1[0], r)]
        pre.0.last().step(pre.1[0], r) && post == after_step(pre.0, pre.1, r)
}

/// `n` steps of the automaton take `pre` to `post`.
pub open spec fn stepped(
    pre: (Seq<AutomatonState>, Seq<GameEvent>),
    post: (Seq<AutomatonState>, Seq<GameEvent>),
    n: nat,
) -> bool
    decreases n,
{
    if n == 0 {
        post == pre
    } else {
        exists|mid: (Seq<AutomatonState>, Seq<GameEvent>)|
            #![trigger step_once(mid, post)]
            stepped(pre, mid, (n - 1) as nat) && step_once(mid, post)
    }
}

proof fn lemma_stepped_extend(
    pre: (Seq<AutomatonState>, Seq<GameEvent>),
    mid: (Seq<AutomatonState>, Seq<GameEvent>),
    post: (Seq<AutomatonState>, Seq<GameEvent>),
    n: nat,
)
    requires
        stepped(pre, mid, n),
        step_once(mid, post),
    ensures
        stepped(pre, post, (n + 1) as nat),
{
    let m = (n + 1) as nat;
    assert((m - 1) as nat == n);
    assert(stepped(pre, mid, (m - 1) as nat) && step_once(mid, post));
    assert(stepped(pre, post, m));
}

/// The most events one call of the automaton handles; the rest wait for the
/// next call.
pub const STEP_LIMIT: usize = 4096;

/// A stack of states with a queue of events waiting to be handled.
#[derive(Debug)]
pub struct Automaton {
    stack: Vec<AutomatonState>,
    pending: VecDeque<GameEvent>,
}

impl Automaton {
    /// The states on the stack, bottom first.
    pub closed spec fn states(self) -> Seq<AutomatonState> {
        self.stack@
    }

    /// Every state on the stack is well formed.
    pub open spec fn wf(self) -> bool {
        forall|i: int| 0 <= i < self.states().len() ==> (#[trigger] self.states()[i]).wf()
    }

    /// The number of states on the stack.
    pub open spec fn depth(self) -> nat {
        self.states().len()
    }

    /// The events waiting to be handled, oldest first.
    pub closed spec fn queue(self) -> Seq<GameEvent> {
        self.pending@
    }

    pub fn new(starting_state: AutomatonState) -> (r: Self)
        requires
            starting_state.wf(),
        ensures
            r.wf(),
            r.depth() == 1,
            r.states()[0] == starting_state,
            r.queue().len() == 0,
    {
        let r = Self { stack: vec![starting_state], pending: VecDeque::new() };
        assert(r.stack@ =~= seq![starting_state]);
        r
    }

    /// The state on top of the stack, if any.
    pub fn top(&self) -> (r: Option<&AutomatonState>)
        ensures
            self.depth() == 0 ==> r is None,
            self.depth() > 0 ==> r == Some(&self.states()[self.depth() - 1]),
    {
        if self.stack.len() == 0 {
            None
        } else {
            Some(&self.stack[self.stack.len() - 1])
        }
    }

    /// Whether no state is left: the game is over and the caller should exit.
    pub fn terminated(&self) -> (r: bool)
        ensures
            r == (self.depth() == 0),
    {
        self.stack.len() == 0
    }

    /// Queues `event` and handles queued events, each by the state on top at
    /// its turn, until the queue is empty, the stack is empty, or the step
    /// limit is reached.
    pub fn event(&mut self, event: GameEvent) -> (handled: usize)
        requires
            old(self).wf(),
        ensures
            final(self).wf(),
            old(self).depth() == 0 ==> handled == 0 && final(self).states() == old(self).states(),
            old(self).depth() > 0 ==> handled > 0,
            handled <= STEP_LIMIT,
            handled < STEP_LIMIT ==> final(self).depth() == 0 || final(self).queue().len() == 0,
            stepped(
                (old(self).states(), old(self).queue().push(event)),
                (final(self).states(), final(self).queue()),
                handled as nat,
            ),
    {
        self.pending.push_back(event);
        assert(self.states() == old(self).states());
        assert(self.queue() == old(self).queue().push(event));
        self.drain()
    }

    /// Handles events that are still queued.
    pub fn update(&mut self) -> (handled: usize)
        requires
            old(self).wf(),
        ensures
            final(self).wf(),
            handled <= STEP_LIMIT,
            handled < STEP_LIMIT ==> final(self).depth() == 0 || final(self).queue().len() == 0,
            stepped(
                (old(self).states(), old(self).queue()),
                (final(self).states(), final(self).queue()),
                handled as nat,
            ),
    {
        self.drain()
    }

    /// Handles queued events and returns how many.
    fn drain(&mut self) -> (handled: usize)
        requires
            old(self).wf(),
        ensures
            final(self).wf(),
            old(self).depth() == 0 ==> handled == 0 && final(self).states() == old(self).states(),
            old(self).depth() > 0 && old(self).queue().len() > 0 ==> handled > 0,
            handled <= STEP_LIMIT,
            handled < STEP_LIMIT ==> final(self).depth() == 0 || final(self).queue().len() == 0,
            stepped(
                (old(self).states(), old(self).queue()),
                (final(self).states(), final(self).queue()),
                handled as nat,
            ),
    {
        let mut steps: usize = 0;
        while steps < STEP_LIMIT && self.stack.len() > 0 && self.pending.len() > 0
            invariant
                self.wf(),
                steps <= STEP_LIMIT,
                old(self).depth() == 0 ==> steps == 0 && self.states() == old(self).states(),
                old(self).depth() > 0 && old(self).queue().len() > 0 && steps == 0 ==> self.depth() > 0
                    && self.queue().len() > 0,
                stepped(
                    (old(self).states(), old(self).queue()),
                    (self.states(), self.queue()),
                    steps as nat,
                ),
            decreases STEP_LIMIT - steps,
        {
            let ghost before = self.stack@;
            let ghost before_q = self.pending@;
            proof {
                assert(self.states()[self.states().len() - 1].wf());
            }
            let ev = self.pending.pop_front();
            let top = self.stack.pop();
            let ghost rest = self.stack@;
            assert(forall|i: int| 0 <= i < rest.len() ==> #[trigger] rest[i] == before[i]);
            match (ev, top) {
                (Some(ev), Some(top)) => {
                    let ghost gtop = top;
                    let ghost gev = ev;
                    let res = top.event(ev);
                    let ghost gr = res;
                    let (action, follow) = res;
                    match action {
                        StateAction::Keep(s) => {
                            self.stack.push(s);
                        },
                        StateAction::Push(under, over) => {
                            self.stack.push(under);
                            self.stack.push(over);
                            if let Some(f) = follow {
                                self.pending.push_back(f);
                            }
                        },
                        StateAction::Pop => {
                            if let Some(f) = follow {
                                self.pending.push_back(f);
                            }
                        },
                        StateAction::Replace(s) => {
                            self.stack.push(s);
                            if let Some(f) = follow {
                                self.pending.push_back(f);
                            }
                        },
                    }
                    proof {
                        let next = (self.stack@, self.pending@);
                        assert(next.0 =~= after_step(before, before_q, gr).0);
                        assert(next.1 =~= after_step(before, before_q, gr).1);
                        assert(next == after_step(before, before_q, gr));
                        assert(gtop == before.last());
                        assert(gev == before_q[0]);
                        assert(before.last().step(before_q[0], gr));
                        assert(step_once((before, before_q), next));
                        assert(stepped(
                            (old(self).states(), old(self).queue()),
                            (before, before_q),
                            steps as nat,
                        ));
                        lemma_stepped_extend(
                            (old(self).states(), old(self).queue()),
                            (before, before_q),
                            next,
                            steps as nat,
                        );
                    }
                },
                _ => {},
            }
            assert forall|i: int| 0 <= i < self.states().len() implies #[trigger] self.states()[i].wf() by {
                if i < rest.len() {
                    assert(self.states()[i] == rest[i]);
                }
            }
            steps = steps + 1;
        }
        steps
    }
}

} // verus!
