//! The listener: it sets up a session, passes on what the session tells, and
//! ends when the session does.

use crate::backoff::{capped, retry_delay};
use crate::event::{BluerEvent, BluerRequest, BluerSessionEvent};
use crate::places::{law_selection_keeps_order, places_of};
use crate::session::BluerSessionState;
use crate::state::BluerState;
use vstd::arithmetic::power2::pow2;
use vstd::prelude::*;

verus! {

/// The state of the listener.
pub enum State<G, A, L, Q, W> {
    /// No session yet, after so many attempts.
    Ready(u32),
    /// A session is there.
    Waiting { session_state: BluerSessionState<G, A, L, Q, W> },
    /// The session is over.
    Finished,
}

/// What the listener has to do in a state.
pub enum Duty<G, A, L, Q, W> {
    /// Set up a session.
    Connect { retry_count: u32 },
    /// Receive an event of the session.
    Receive { session_state: BluerSessionState<G, A, L, Q, W>, rx: L },
    /// Tell the applet that the session is over.
    Close,
    /// Do nothing any more.
    Rest,
}

/// What the listener does to the outside.
pub enum ListenerEffect<Q, R> {
    /// Sleep for so many milliseconds.
    Sleep(u64),
    /// Send a request to the session.
    Request(BluerRequest),
    /// Tell the applet.
    Emit(BluerEvent<Q, R>),
}

impl<G, A, L, Q, W> State<G, A, L, Q, W> {
    /// What there is to do in the state.
    pub open spec fn duty(self) -> Duty<G, A, L, Q, W> {
        match self {
            State::Ready(retry_count) => Duty::Connect { retry_count },
            State::Waiting { session_state } => match session_state.rx {
                Some(rx) => Duty::Receive { session_state: session_state.deaf(), rx },
                None => Duty::Close,
            },
            State::Finished => Duty::Rest,
        }
    }

    /// The state in which the listener starts.
    pub fn new() -> (state: Self)
        ensures
            state == State::<G, A, L, Q, W>::Ready(0),
    {
        State::Ready(0)
    }

    /// What there is to do in the state.
    pub fn begin(self) -> (duty: Duty<G, A, L, Q, W>)
        ensures
            duty == self.duty(),
    {
        match self {
            State::Ready(retry_count) => Duty::Connect { retry_count },
            State::Waiting { session_state } => {
                let mut session_state = session_state;
                match session_state.take_rx() {
                    Some(rx) => Duty::Receive { session_state, rx },
                    None => Duty::Close,
                }
            },
            State::Finished => Duty::Rest,
        }
    }
}

/// The number of attempts after one more, up to the largest number there is.
pub open spec fn one_more(retry_count: u32) -> u32 {
    if retry_count == u32::MAX {
        retry_count
    } else {
        (retry_count + 1) as u32
    }
}

/// The effects of an attempt to set up a session that failed: a pause.
pub open spec fn effects_of_failure<Q, R>(retry_count: u32) -> Seq<ListenerEffect<Q, R>> {
    seq![ListenerEffect::Sleep(capped(pow2(retry_count as nat) as int))]
}

/// What follows an attempt to set up a session that failed: a pause, and one
/// attempt more is counted.
pub fn session_failed<G, A, L, Q, W, R>(retry_count: u32) -> (next: (
    Vec<ListenerEffect<Q, R>>,
    State<G, A, L, Q, W>,
))
    ensures
        next.0@ == effects_of_failure::<Q, R>(retry_count),
        next.1 == State::<G, A, L, Q, W>::Ready(one_more(retry_count)),
{
    let mut effects: Vec<ListenerEffect<Q, R>> = Vec::new();
    effects.push(ListenerEffect::Sleep(retry_delay(retry_count)));
    (effects, State::Ready(retry_count.saturating_add(1)))
}

/// The requests as effects.
pub open spec fn as_effects<Q, R>(requests: Seq<BluerRequest>) -> Seq<ListenerEffect<Q, R>> {
    requests.map_values(|request: BluerRequest| ListenerEffect::<Q, R>::Request(request))
}

/// The effects of a session that was set up: requests to reconnect, then the
/// first event for the applet.
pub open spec fn effects_of_start<Q, R>(sender: Q, state: BluerState) -> Seq<
    ListenerEffect<Q, R>,
> {
    as_effects::<Q, R>(state.reconnection()).push(
        ListenerEffect::Emit(BluerEvent::Init { sender, state }),
    )
}

/// What follows once a session is set up: requests to reconnect to the devices
/// of `state`, and `sender` and `state` for the applet.
pub fn session_started<G, A, L, Q, W, R>(
    session_state: BluerSessionState<G, A, L, Q, W>,
    sender: Q,
    state: BluerState,
) -> (next: (Vec<ListenerEffect<Q, R>>, State<G, A, L, Q, W>))
    ensures
        next.0@ == effects_of_start::<Q, R>(sender, state),
        next.1 == (State::Waiting { session_state }),
{
    let requests = state.reconnect();
    let mut effects: Vec<ListenerEffect<Q, R>> = Vec::new();
    let mut i: usize = 0;
    while i < requests.len()
        invariant
            i <= requests@.len(),
            effects@ == as_effects::<Q, R>(requests@.take(i as int)),
        decreases requests@.len() - i,
    {
        effects.push(ListenerEffect::Request(requests[i]));
        i += 1;
        assert(effects@ =~= as_effects::<Q, R>(requests@.take(i as int)));
    }
    assert(requests@.take(i as int) =~= requests@);
    effects.push(ListenerEffect::Emit(BluerEvent::Init { sender, state }));
    (effects, State::Waiting { session_state })
}

/// What the applet is told of an event of the session. That the stream of
/// changes has ended is no news to it.
pub open spec fn passed_on<Q, R>(event: BluerSessionEvent<R>) -> Option<BluerEvent<Q, R>> {
    match event {
        BluerSessionEvent::ChangesProcessed(state) => Some(BluerEvent::DevicesChanged { state }),
        BluerSessionEvent::RequestResponse { req, state, err_msg } => Some(
            BluerEvent::RequestResponse { req, state, err_msg },
        ),
        BluerSessionEvent::AgentEvent(event) => Some(BluerEvent::AgentEvent(event)),
        BluerSessionEvent::ChangeStreamEnded => None,
    }
}

/// What the applet is told of an event of the session.
pub fn pass_on<Q, R>(event: BluerSessionEvent<R>) -> (told: Option<BluerEvent<Q, R>>)
    ensures
        told == passed_on::<Q, R>(event),
{
    match event {
        BluerSessionEvent::ChangesProcessed(state) => Some(BluerEvent::DevicesChanged { state }),
        BluerSessionEvent::RequestResponse { req, state, err_msg } => Some(
            BluerEvent::RequestResponse { req, state, err_msg },
        ),
        BluerSessionEvent::AgentEvent(event) => Some(BluerEvent::AgentEvent(event)),
        BluerSessionEvent::ChangeStreamEnded => None,
    }
}

/// The effects of an event that was received, or of a channel that is closed.
pub open spec fn effects_of<Q, R>(received: Option<BluerSessionEvent<R>>) -> Seq<
    ListenerEffect<Q, R>,
> {
    match received {
        Some(event) => match passed_on::<Q, R>(event) {
            Some(told) => seq![ListenerEffect::Emit(told)],
            None => Seq::empty(),
        },
        None => seq![ListenerEffect::Emit(BluerEvent::Finished)],
    }
}

/// The state after an event was received, or the channel was found closed.
pub open spec fn state_after<G, A, L, Q, W, R>(
    session_state: BluerSessionState<G, A, L, Q, W>,
    rx: L,
    received: Option<BluerSessionEvent<R>>,
) -> State<G, A, L, Q, W> {
    if received is Some {
        State::Waiting { session_state: session_state.hearing(rx) }
    } else {
        State::Finished
    }
}

/// What follows an event that was received from `rx`. No event means that the
/// channel is closed, and the session over.
pub fn session_event<G, A, L, Q, W, R>(
    session_state: BluerSessionState<G, A, L, Q, W>,
    rx: L,
    received: Option<BluerSessionEvent<R>>,
) -> (next: (Vec<ListenerEffect<Q, R>>, State<G, A, L, Q, W>))
    ensures
        next.0@ == effects_of::<Q, R>(received),
        next.1 == state_after(session_state, rx, received),
{
    match received {
        Some(event) => {
            let mut session_state = session_state;
            let mut effects: Vec<ListenerEffect<Q, R>> = Vec::new();
            if let Some(told) = pass_on(event) {
                effects.push(ListenerEffect::Emit(told));
            }
            session_state.put_rx(rx);
            (effects, State::Waiting { session_state })
        },
        None => session_closed(),
    }
}

/// What follows where the session has no channel to receive from.
pub fn session_closed<G, A, L, Q, W, R>() -> (next: (
    Vec<ListenerEffect<Q, R>>,
    State<G, A, L, Q, W>,
))
    ensures
        next.0@ == effects_of::<Q, R>(None),
        next.1 == State::<G, A, L, Q, W>::Finished,
{
    let mut effects: Vec<ListenerEffect<Q, R>> = Vec::new();
    effects.push(ListenerEffect::Emit(BluerEvent::Finished));
    (effects, State::Finished)
}

/// Receiving an event leaves the listener as it was, ready for the next. So a
/// listener that has a channel to receive from keeps it until the channel is
/// closed.
pub proof fn law_listener_keeps_its_channel<G, A, L, Q, W, R>(
    session_state: BluerSessionState<G, A, L, Q, W>,
    rx: L,
    event: BluerSessionEvent<R>,
)
    requires
        session_state.rx == Some(rx),
    ensures
        ({
            let state = State::Waiting { session_state };
            &&& state.duty() == (Duty::Receive { session_state: session_state.deaf(), rx })
            &&& state_after(session_state.deaf(), rx, Some(event)) == state
        }),
{
}

/// What the applet is told of a run of events, the channel being closed after
/// the last.
pub open spec fn told_of<Q, R>(events: Seq<BluerSessionEvent<R>>) -> Seq<ListenerEffect<Q, R>>
    decreases events.len(),
{
    if events.len() == 0 {
        effects_of::<Q, R>(None)
    } else {
        effects_of::<Q, R>(Some(events[0])) + told_of::<Q, R>(events.drop_first())
    }
}

/// Whether an event of the session is news to the applet.
pub open spec fn is_news<R>(event: BluerSessionEvent<R>) -> bool {
    event !is ChangeStreamEnded
}

/// How many of the events are news to the applet.
pub open spec fn news<R>(events: Seq<BluerSessionEvent<R>>) -> nat
    decreases events.len(),
{
    if events.len() == 0 {
        0
    } else {
        (if is_news(events[0]) {
            1nat
        } else {
            0
        }) + news(events.drop_first())
    }
}

/// The applet is told each event that is news to it, once and in order, and
/// after them, and only then, that the session is over.
pub proof fn law_applet_is_told_all<Q, R>(events: Seq<BluerSessionEvent<R>>)
    ensures
        ({
            let told = told_of::<Q, R>(events);
            &&& told.len() == news(events) + 1
            &&& told.last() == ListenerEffect::<Q, R>::Emit(BluerEvent::Finished)
            &&& forall|i: int|
                0 <= i < told.len() - 1 ==> #[trigger] told[i] != ListenerEffect::<Q, R>::Emit(
                    BluerEvent::Finished,
                )
            &&& forall|k: int|
                0 <= k < events.len() && is_news(#[trigger] events[k]) ==> told[news(
                    events.take(k),
                ) as int] == ListenerEffect::<Q, R>::Emit(passed_on::<Q, R>(events[k])->0)
        }),
    decreases events.len(),
{
    let told = told_of::<Q, R>(events);
    if events.len() > 0 {
        let rest = events.drop_first();
        law_applet_is_told_all::<Q, R>(rest);
        let first = effects_of::<Q, R>(Some(events[0]));
        let later = told_of::<Q, R>(rest);
        assert(told == first + later);
        assert forall|i: int| 0 <= i < told.len() - 1 implies #[trigger] told[i]
            != ListenerEffect::<Q, R>::Emit(BluerEvent::Finished) by {
            if i >= first.len() {
                assert(told[i] == later[i - first.len()]);
            }
        }
        assert forall|k: int| 0 <= k < events.len() && is_news(#[trigger] events[k]) implies told[
        news(events.take(k)) as int] == ListenerEffect::<Q, R>::Emit(
            passed_on::<Q, R>(events[k])->0,
        ) by {
            if k > 0 {
                assert(events[k] == rest[k - 1]);
                assert(events.take(k).drop_first() =~= rest.take(k - 1));
                lemma_news_bound(rest, k - 1);
                assert(told[news(events.take(k)) as int] == later[news(rest.take(k - 1)) as int]);
            } else {
                assert(events.take(0).len() == 0);
            }
        }
    }
}

proof fn lemma_news_bound<R>(events: Seq<BluerSessionEvent<R>>, k: int)
    requires
        0 <= k <= events.len(),
    ensures
        news(events.take(k)) <= news(events),
    decreases events.len(),
{
    if k > 0 {
        assert(events.take(k).drop_first() =~= events.drop_first().take(k - 1));
        lemma_news_bound(events.drop_first(), k - 1);
    }
}

/// The number of attempts that is counted after a number of failures.
pub open spec fn attempts_after(failures: nat) -> u32
    decreases failures,
{
    if failures == 0 {
        0
    } else {
        one_more(attempts_after((failures - 1) as nat))
    }
}

/// Each failure to set up a session doubles the pause before the next attempt,
/// from one millisecond up to the longest pause there is.
pub proof fn law_pauses_double(failures: nat)
    ensures
        capped(pow2(attempts_after(failures) as nat) as int) == capped(pow2(failures) as int),
    decreases failures,
{
    lemma_attempts(failures);
    if failures > u32::MAX {
        vstd::arithmetic::power2::lemma2_to64();
        vstd::arithmetic::power2::lemma_pow2_strictly_increases(64, u32::MAX as nat);
        vstd::arithmetic::power2::lemma_pow2_strictly_increases(u32::MAX as nat, failures);
    }
}

proof fn lemma_attempts(failures: nat)
    ensures
        attempts_after(failures) == if failures > u32::MAX {
            u32::MAX as int
        } else {
            failures as int
        },
    decreases failures,
{
    if failures > 0 {
        lemma_attempts((failures - 1) as nat);
    }
}

/// What the outside has ready for the listener in a round, whatever its duty:
/// the session, the sender and the state of an attempt to set up a session, if
/// it succeeds, and what is received, if anything is.
pub struct Round<G, A, L, Q, W, R> {
    pub session: Option<(BluerSessionState<G, A, L, Q, W>, Q, BluerState)>,
    pub received: Option<BluerSessionEvent<R>>,
}

impl<G, A, L, Q, W> State<G, A, L, Q, W> {
    /// What the listener does in a round.
    pub open spec fn effects_in<R>(self, round: Round<G, A, L, Q, W, R>) -> Seq<
        ListenerEffect<Q, R>,
    > {
        match self.duty() {
            Duty::Connect { retry_count } => match round.session {
                Some((_, sender, state)) => effects_of_start(sender, state),
                None => effects_of_failure(retry_count),
            },
            Duty::Receive { .. } => effects_of(round.received),
            Duty::Close => effects_of(None),
            Duty::Rest => Seq::empty(),
        }
    }

    /// The state of the listener after a round.
    pub open spec fn after<R>(self, round: Round<G, A, L, Q, W, R>) -> Self {
        match self.duty() {
            Duty::Connect { retry_count } => match round.session {
                Some((session_state, _, _)) => State::Waiting { session_state },
                None => State::Ready(one_more(retry_count)),
            },
            Duty::Receive { session_state, rx } => state_after(session_state, rx, round.received),
            Duty::Close => State::Finished,
            Duty::Rest => State::Finished,
        }
    }

    /// What the listener does in a number of rounds.
    pub open spec fn effects_over<R>(self, rounds: Seq<Round<G, A, L, Q, W, R>>) -> Seq<
        ListenerEffect<Q, R>,
    >
        decreases rounds.len(),
    {
        if rounds.len() == 0 {
            Seq::empty()
        } else {
            self.effects_in(rounds[0]) + self.after(rounds[0]).effects_over(rounds.drop_first())
        }
    }

    /// The state of the listener after a number of rounds.
    pub open spec fn after_all<R>(self, rounds: Seq<Round<G, A, L, Q, W, R>>) -> Self
        decreases rounds.len(),
    {
        if rounds.len() == 0 {
            self
        } else {
            self.after(rounds[0]).after_all(rounds.drop_first())
        }
    }
}

/// The events for the applet among the effects, in order.
pub open spec fn emitted<Q, R>(effects: Seq<ListenerEffect<Q, R>>) -> Seq<BluerEvent<Q, R>>
    decreases effects.len(),
{
    if effects.len() == 0 {
        Seq::empty()
    } else {
        let later = emitted(effects.drop_first());
        match effects[0] {
            ListenerEffect::Emit(event) => seq![event] + later,
            _ => later,
        }
    }
}

/// Whether the events are what the applet is told from the first on: `Init`
/// once and first, then events that are passed on, and `Finished` at the end if
/// anywhere.
pub open spec fn in_due_order<Q, R>(events: Seq<BluerEvent<Q, R>>) -> bool {
    &&& events.len() > 0 ==> events[0] is Init
    &&& forall|i: int|
        0 < i < events.len() ==> {
            let event = #[trigger] events[i];
            ||| event is DevicesChanged
            ||| event is RequestResponse
            ||| event is AgentEvent
            ||| event is Finished && i == events.len() - 1
        }
}

proof fn lemma_emitted_concat<Q, R>(a: Seq<ListenerEffect<Q, R>>, b: Seq<ListenerEffect<Q, R>>)
    ensures
        emitted(a + b) == emitted(a) + emitted(b),
    decreases a.len(),
{
    if a.len() == 0 {
        assert(a + b =~= b);
        assert(emitted(a) + emitted(b) =~= emitted(b));
    } else {
        lemma_emitted_concat(a.drop_first(), b);
        assert((a + b).drop_first() =~= a.drop_first() + b);
        assert((a + b)[0] == a[0]);
        assert(emitted(a + b) =~= emitted(a) + emitted(b));
    }
}

proof fn lemma_one_effect<Q, R>(effect: ListenerEffect<Q, R>)
    ensures
        emitted(seq![effect]) == match effect {
            ListenerEffect::Emit(event) => seq![event],
            _ => Seq::empty(),
        },
{
    assert(seq![effect].drop_first() =~= Seq::empty());
    assert(emitted(seq![effect].drop_first()) =~= Seq::empty());
    assert(emitted(seq![effect]) =~= match effect {
        ListenerEffect::Emit(event) => seq![event],
        _ => Seq::empty(),
    });
}

proof fn lemma_requests_emit_nothing<Q, R>(requests: Seq<BluerRequest>)
    ensures
        emitted(as_effects::<Q, R>(requests)) == Seq::<BluerEvent<Q, R>>::empty(),
    decreases requests.len(),
{
    if requests.len() > 0 {
        lemma_requests_emit_nothing::<Q, R>(requests.drop_first());
        let effects = as_effects::<Q, R>(requests);
        assert(effects.drop_first() =~= as_effects::<Q, R>(requests.drop_first()));
        assert(effects[0] == ListenerEffect::<Q, R>::Request(requests[0]));
    }
}

proof fn lemma_start_emits_init<Q, R>(sender: Q, state: BluerState)
    ensures
        emitted(effects_of_start::<Q, R>(sender, state)) == seq![
            BluerEvent::<Q, R>::Init { sender, state },
        ],
{
    let requests = as_effects::<Q, R>(state.reconnection());
    let init = ListenerEffect::<Q, R>::Emit(BluerEvent::Init { sender, state });
    assert(effects_of_start::<Q, R>(sender, state) =~= requests + seq![init]);
    lemma_emitted_concat(requests, seq![init]);
    lemma_requests_emit_nothing::<Q, R>(state.reconnection());
    lemma_one_effect(init);
    assert(emitted(requests) + emitted(seq![init]) =~= emitted(seq![init]));
}

/// What the applet is told from a state on, and what that tells of the state
/// that is reached.
proof fn lemma_due_order<G, A, L, Q, W, R>(
    state: State<G, A, L, Q, W>,
    rounds: Seq<Round<G, A, L, Q, W, R>>,
)
    ensures
        ({
            let events = emitted(state.effects_over(rounds));
            let reached = state.after_all(rounds);
            match state {
                State::Ready(_) => {
                    &&& in_due_order(events)
                    &&& reached is Ready <==> events.len() == 0
                    &&& reached is Finished <==> events.len() > 0 && events.last() is Finished
                },
                State::Waiting { .. } => {
                    &&& forall|i: int|
                        0 <= i < events.len() ==> {
                            let event = #[trigger] events[i];
                            ||| event is DevicesChanged
                            ||| event is RequestResponse
                            ||| event is AgentEvent
                            ||| event is Finished && i == events.len() - 1
                        }
                    &&& reached !is Ready
                    &&& reached is Finished <==> events.len() > 0 && events.last() is Finished
                },
                State::Finished => events.len() == 0 && reached is Finished,
            }
        }),
    decreases rounds.len(),
{
    if rounds.len() > 0 {
        let first = state.effects_in(rounds[0]);
        let next = state.after(rounds[0]);
        let rest = rounds.drop_first();
        let later = next.effects_over(rest);
        lemma_due_order(next, rest);
        lemma_emitted_concat(first, later);
        let events = emitted(state.effects_over(rounds));
        assert(events == emitted(first) + emitted(later));
        match state.duty() {
            Duty::Connect { retry_count } => {
                match rounds[0].session {
                    Some((_, sender, current)) => {
                        lemma_start_emits_init::<Q, R>(sender, current);
                        assert(events[0] is Init);
                        assert forall|i: int| 0 < i < events.len() implies #[trigger] events[i]
                            == emitted(later)[i - 1] by {}
                    },
                    None => {
                        lemma_one_effect(
                            ListenerEffect::<Q, R>::Sleep(
                                capped(pow2(retry_count as nat) as int),
                            ),
                        );
                        assert(events =~= emitted(later));
                    },
                }
            },
            Duty::Receive { .. } => {
                match rounds[0].received {
                    Some(event) => match passed_on::<Q, R>(event) {
                        Some(told) => {
                            lemma_one_effect(ListenerEffect::<Q, R>::Emit(told));
                            assert(events[0] == told);
                            assert forall|i: int| 0 < i < events.len() implies #[trigger] events[i]
                                == emitted(later)[i - 1] by {}
                        },
                        None => {
                            assert(events =~= emitted(later));
                        },
                    },
                    None => {
                        lemma_one_effect(ListenerEffect::<Q, R>::Emit(BluerEvent::Finished));
                        assert(events =~= seq![BluerEvent::<Q, R>::Finished]);
                    },
                }
            },
            Duty::Close => {
                lemma_one_effect(ListenerEffect::<Q, R>::Emit(BluerEvent::Finished));
                assert(events =~= seq![BluerEvent::<Q, R>::Finished]);
            },
            Duty::Rest => {
                assert(events =~= emitted(later));
            },
        }
    }
}

/// From the start on, whatever the rounds bring, the applet is told nothing
/// until a session is set up, then `Init`, once, then events that are passed on,
/// then `Finished`, once and last. It has been told nothing exactly as long as
/// there is no session, and `Finished` exactly when the listener is.
pub proof fn law_applet_is_told_in_due_order<G, A, L, Q, W, R>(
    rounds: Seq<Round<G, A, L, Q, W, R>>,
)
    ensures
        ({
            let start = State::<G, A, L, Q, W>::Ready(0);
            let events = emitted(start.effects_over(rounds));
            let reached = start.after_all(rounds);
            &&& in_due_order(events)
            &&& reached is Ready <==> events.len() == 0
            &&& reached is Finished <==> events.len() > 0 && events.last() is Finished
        }),
{
    lemma_due_order(State::<G, A, L, Q, W>::Ready(0), rounds);
}

/// The pauses of a number of attempts that fail, from one on.
pub open spec fn pauses<Q, R>(retry_count: u32, failures: nat) -> Seq<ListenerEffect<Q, R>>
    decreases failures,
{
    if failures == 0 {
        Seq::empty()
    } else {
        effects_of_failure::<Q, R>(retry_count) + pauses(
            one_more(retry_count),
            (failures - 1) as nat,
        )
    }
}

/// Whether the rounds are those of a whole life of the listener: attempts that
/// fail, one that sets up a session, then the events, then a closed channel.
pub open spec fn whole_life<G, A, L, Q, W, R>(
    rounds: Seq<Round<G, A, L, Q, W, R>>,
    failures: nat,
    started: (BluerSessionState<G, A, L, Q, W>, Q, BluerState),
    events: Seq<BluerSessionEvent<R>>,
) -> bool {
    &&& rounds.len() == failures + 1 + events.len() + 1
    &&& forall|i: int| 0 <= i < failures ==> (#[trigger] rounds[i]).session is None
    &&& rounds[failures as int].session == Some(started)
    &&& forall|i: int|
        0 <= i < events.len() ==> rounds[failures + 1 + i].received == Some(#[trigger] events[i])
    &&& rounds.last().received is None
}

proof fn lemma_events_until_close<G, A, L, Q, W, R>(
    session_state: BluerSessionState<G, A, L, Q, W>,
    rx: L,
    rounds: Seq<Round<G, A, L, Q, W, R>>,
    events: Seq<BluerSessionEvent<R>>,
)
    requires
        session_state.rx == Some(rx),
        rounds.len() == events.len() + 1,
        forall|i: int|
            0 <= i < events.len() ==> rounds[i].received == Some(#[trigger] events[i]),
        rounds.last().received is None,
    ensures
        (State::Waiting { session_state }).effects_over(rounds) == told_of::<Q, R>(events),
        (State::Waiting { session_state }).after_all(rounds) is Finished,
    decreases events.len(),
{
    let state = State::Waiting { session_state };
    let rest = rounds.drop_first();
    if events.len() == 0 {
        assert(rest.len() == 0);
        assert(state.after(rounds[0]).effects_over(rest) =~= Seq::empty());
        assert(state.effects_over(rounds) =~= told_of::<Q, R>(events));
        assert(state.after_all(rounds) == state.after(rounds[0]).after_all(rest));
    } else {
        assert(rounds[0].received == Some(events[0]));
        law_listener_keeps_its_channel(session_state, rx, events[0]);
        assert forall|i: int| 0 <= i < events.drop_first().len() implies rest[i].received == Some(
            #[trigger] events.drop_first()[i],
        ) by {
            assert(rounds[i + 1].received == Some(events[i + 1]));
        }
        lemma_events_until_close(session_state, rx, rest, events.drop_first());
        assert(state.after(rounds[0]) == state);
    }
}

proof fn lemma_life<G, A, L, Q, W, R>(
    retry_count: u32,
    rounds: Seq<Round<G, A, L, Q, W, R>>,
    failures: nat,
    started: (BluerSessionState<G, A, L, Q, W>, Q, BluerState),
    events: Seq<BluerSessionEvent<R>>,
)
    requires
        whole_life(rounds, failures, started, events),
        started.0.rx is Some,
    ensures
        ({
            let start = State::<G, A, L, Q, W>::Ready(retry_count);
            &&& start.effects_over(rounds) == pauses::<Q, R>(retry_count, failures)
                + effects_of_start::<Q, R>(started.1, started.2) + told_of::<Q, R>(events)
            &&& start.after_all(rounds) is Finished
        }),
    decreases failures,
{
    let state = State::<G, A, L, Q, W>::Ready(retry_count);
    let rest = rounds.drop_first();
    let begun = effects_of_start::<Q, R>(started.1, started.2);
    if failures == 0 {
        assert forall|i: int| 0 <= i < events.len() implies rest[i].received == Some(
            #[trigger] events[i],
        ) by {
            assert(rounds[failures + 1 + i].received == Some(events[i]));
        }
        lemma_events_until_close(started.0, started.0.rx->0, rest, events);
        assert(pauses::<Q, R>(retry_count, failures) + begun =~= begun);
    } else {
        assert(rounds[0].session is None);
        let fewer = (failures - 1) as nat;
        assert(whole_life(rest, fewer, started, events)) by {
            assert forall|i: int| 0 <= i < fewer implies (#[trigger] rest[i]).session is None by {
                assert(rounds[i + 1].session is None);
            }
            assert forall|i: int| 0 <= i < events.len() implies rest[fewer + 1 + i].received
                == Some(#[trigger] events[i]) by {
                assert(rounds[failures + 1 + i].received == Some(events[i]));
            }
        }
        lemma_life(one_more(retry_count), rest, fewer, started, events);
        let paused = effects_of_failure::<Q, R>(retry_count);
        let later = pauses::<Q, R>(one_more(retry_count), fewer);
        let told = told_of::<Q, R>(events);
        assert(paused + (later + begun + told) =~= (paused + later) + begun + told);
    }
}

/// In a whole life the listener pauses after each attempt that fails, then asks
/// to reconnect and announces the session, then passes on the events and says
/// that the session is over. After that it rests.
pub proof fn law_whole_life<G, A, L, Q, W, R>(
    rounds: Seq<Round<G, A, L, Q, W, R>>,
    failures: nat,
    started: (BluerSessionState<G, A, L, Q, W>, Q, BluerState),
    events: Seq<BluerSessionEvent<R>>,
)
    requires
        whole_life(rounds, failures, started, events),
        started.0.rx is Some,
    ensures
        ({
            let start = State::<G, A, L, Q, W>::Ready(0);
            &&& start.effects_over(rounds) == pauses::<Q, R>(0, failures) + effects_of_start::<
                Q,
                R,
            >(started.1, started.2) + told_of::<Q, R>(events)
            &&& start.after_all(rounds) is Finished
        }),
{
    lemma_life(0, rounds, failures, started, events);
}

/// A listener that has finished does nothing more, and stays so.
pub proof fn law_finished_for_good<G, A, L, Q, W, R>(rounds: Seq<Round<G, A, L, Q, W, R>>)
    ensures
        State::<G, A, L, Q, W>::Finished.effects_over(rounds) == Seq::<
            ListenerEffect<Q, R>,
        >::empty(),
        State::<G, A, L, Q, W>::Finished.after_all(rounds) is Finished,
    decreases rounds.len(),
{
    if rounds.len() > 0 {
        law_finished_for_good(rounds.drop_first());
        assert(State::<G, A, L, Q, W>::Finished.effects_over(rounds) =~= Seq::empty());
    }
}

/// What the applet is told of an event holds all that the event does: the state
/// as it was published, the request with its state and its error as they were
/// answered, the question of the agent as it was put. Only the end of the stream
/// of changes is kept from it.
pub proof fn law_news_is_passed_on_whole<Q, R>(event: BluerSessionEvent<R>)
    ensures
        passed_on::<Q, R>(event) is None <==> event is ChangeStreamEnded,
        event matches BluerSessionEvent::ChangesProcessed(published) ==> passed_on::<Q, R>(event)
            matches Some(BluerEvent::DevicesChanged { state }) && state == published,
        event matches BluerSessionEvent::RequestResponse {
            req: answered,
            state: left,
            err_msg: error,
        } ==> passed_on::<Q, R>(event) matches Some(
            BluerEvent::RequestResponse { req, state, err_msg },
        ) && req == answered && state == left && err_msg == error,
        event matches BluerSessionEvent::AgentEvent(put) ==> passed_on::<Q, R>(event) matches Some(
            BluerEvent::AgentEvent(told),
        ) && told == put,
{
}

/// Two events of which the applet is told the same are the same.
pub proof fn law_news_tells_the_event<Q, R>(a: BluerSessionEvent<R>, b: BluerSessionEvent<R>)
    requires
        passed_on::<Q, R>(a) == passed_on::<Q, R>(b),
    ensures
        a == b,
{
}

/// What is done with what was received: news is passed on once, the end of the
/// stream of changes is not, and a closed channel is told as the end of the
/// session.
pub proof fn law_effects_of_what_was_received<Q, R>(received: Option<BluerSessionEvent<R>>)
    ensures
        received is None ==> effects_of::<Q, R>(received).len() == 1 && effects_of::<Q, R>(
            received,
        )[0] == ListenerEffect::<Q, R>::Emit(BluerEvent::Finished),
        received matches Some(event) ==> event is ChangeStreamEnded ==> effects_of::<Q, R>(
            received,
        ).len() == 0,
        received matches Some(event) ==> event !is ChangeStreamEnded ==> effects_of::<Q, R>(
            received,
        ).len() == 1 && passed_on::<Q, R>(event) is Some && effects_of::<Q, R>(received)[0]
            == ListenerEffect::<Q, R>::Emit(passed_on::<Q, R>(event)->0),
{
}

/// What there is to do in each state. A session is received from exactly where it
/// has a channel to receive from, and is otherwise as it was.
pub proof fn law_duty_of_each_state<G, A, L, Q, W>(
    retry_count: u32,
    session: BluerSessionState<G, A, L, Q, W>,
)
    ensures
        State::<G, A, L, Q, W>::Ready(retry_count).duty() == (Duty::<G, A, L, Q, W>::Connect {
            retry_count,
        }),
        State::<G, A, L, Q, W>::Finished.duty() is Rest,
        session.rx is None ==> (State::Waiting { session_state: session }).duty() is Close,
        session.rx matches Some(channel) ==> (State::Waiting { session_state: session }).duty()
            matches Duty::Receive { session_state, rx } && rx == channel && session_state.rx is None
            && session_state.guard == session.guard && session_state.adapter == session.adapter
            && session_state.req_tx == session.req_tx && session_state.wake_up_discover_rx
            == session.wake_up_discover_rx,
{
}

/// After an event the session waits for the next on the same channel; after a
/// closed channel the listener has finished.
pub proof fn law_state_after_what_was_received<G, A, L, Q, W, R>(
    session: BluerSessionState<G, A, L, Q, W>,
    channel: L,
    received: Option<BluerSessionEvent<R>>,
)
    ensures
        received is None ==> state_after(session, channel, received) is Finished,
        received is Some ==> (state_after(session, channel, received) matches State::Waiting {
            session_state,
        } && session_state.rx == Some(channel) && session_state.guard == session.guard
            && session_state.adapter == session.adapter && session_state.req_tx == session.req_tx
            && session_state.wake_up_discover_rx == session.wake_up_discover_rx),
{
}

/// A failure counts as one attempt more, up to the largest number there is, and
/// calls for one pause: as many milliseconds as two to the power of the attempts
/// before, or the longest pause there is.
pub proof fn law_effects_of_a_failure<Q, R>(retry_count: u32)
    ensures
        retry_count < 0xffff_ffff ==> one_more(retry_count) == retry_count + 1,
        retry_count == 0xffff_ffff ==> one_more(retry_count) == retry_count,
        effects_of_failure::<Q, R>(retry_count).len() == 1,
        effects_of_failure::<Q, R>(retry_count)[0] matches ListenerEffect::Sleep(millis) && (
        pow2(retry_count as nat) <= 0xffff_ffff_ffff_ffff ==> millis == pow2(retry_count as nat))
            && (pow2(retry_count as nat) > 0xffff_ffff_ffff_ffff ==> millis
            == 0xffff_ffff_ffff_ffffu64),
{
}

/// A session that was set up brings the requests to reconnect, each once and in
/// order, then the sender and the state for the applet, as they were given.
pub proof fn law_effects_of_a_start<Q, R>(sender: Q, state: BluerState)
    ensures
        ({
            let effects = effects_of_start::<Q, R>(sender, state);
            let requests = state.reconnection();
            &&& effects.len() == requests.len() + 1
            &&& forall|i: int|
                0 <= i < requests.len() ==> #[trigger] effects[i] == ListenerEffect::<
                    Q,
                    R,
                >::Request(requests[i])
            &&& effects.last() == ListenerEffect::<Q, R>::Emit(BluerEvent::Init { sender, state })
        }),
{
}

proof fn lemma_pauses<Q, R>(before: nat, failures: nat)
    ensures
        ({
            let slept = pauses::<Q, R>(attempts_after(before), failures);
            &&& slept.len() == failures
            &&& forall|i: int|
                0 <= i < failures ==> #[trigger] slept[i] == ListenerEffect::<Q, R>::Sleep(
                    capped(pow2((before + i) as nat) as int),
                )
        }),
    decreases failures,
{
    if failures > 0 {
        let fewer = (failures - 1) as nat;
        let slept = pauses::<Q, R>(attempts_after(before), failures);
        let later = pauses::<Q, R>(attempts_after(before + 1), fewer);
        lemma_pauses::<Q, R>(before + 1, fewer);
        law_pauses_double(before);
        assert forall|i: int| 0 <= i < failures implies #[trigger] slept[i] == ListenerEffect::<
            Q,
            R,
        >::Sleep(capped(pow2((before + i) as nat) as int)) by {
            if i > 0 {
                assert(slept[i] == later[i - 1]);
                assert(before + 1 + (i - 1) == before + i);
            }
        }
    }
}

/// From the start on the listener pauses once for each attempt that fails: one
/// millisecond, then two, then four, and so on up to the longest pause there is.
pub proof fn law_pauses_are_powers_of_two<Q, R>(failures: nat, i: int)
    requires
        0 <= i < failures,
    ensures
        pauses::<Q, R>(0, failures).len() == failures,
        pauses::<Q, R>(0, failures)[i] matches ListenerEffect::Sleep(millis) && (pow2(i as nat)
            <= 0xffff_ffff_ffff_ffff ==> millis == pow2(i as nat)) && (pow2(i as nat)
            > 0xffff_ffff_ffff_ffff ==> millis == 0xffff_ffff_ffff_ffffu64),
{
    lemma_pauses::<Q, R>(0, failures);
    assert(pauses::<Q, R>(0, failures)[i] == ListenerEffect::<Q, R>::Sleep(
        capped(pow2((0 + i) as nat) as int),
    ));
}

proof fn lemma_emitted<Q, R>(effects: Seq<ListenerEffect<Q, R>>)
    ensures
        emitted(effects).len() == effects.filter(
            |effect: ListenerEffect<Q, R>| effect is Emit,
        ).len(),
        forall|i: int|
            0 <= i < emitted(effects).len() ==> ListenerEffect::<Q, R>::Emit(
                #[trigger] emitted(effects)[i],
            ) == effects.filter(|effect: ListenerEffect<Q, R>| effect is Emit)[i],
    decreases effects.len(),
{
    reveal(Seq::filter);
    if effects.len() > 0 {
        let fewer = effects.drop_last();
        let last = seq![effects.last()];
        lemma_emitted(fewer);
        lemma_emitted_concat(fewer, last);
        lemma_one_effect(effects.last());
        assert(effects =~= fewer + last);
    }
}

/// The events for the applet are those among the effects, all of them, in order.
pub proof fn law_emitted_keeps_every_event<Q, R>(effects: Seq<ListenerEffect<Q, R>>)
    ensures
        exists|places: Seq<int>|
            {
                &&& #[trigger] places.len() == emitted(effects).len()
                &&& forall|i: int|
                    0 <= i < places.len() ==> 0 <= #[trigger] places[i] < effects.len()
                        && effects[places[i]] == ListenerEffect::<Q, R>::Emit(emitted(effects)[i])
                &&& forall|i: int, j: int|
                    0 <= i < j < places.len() ==> #[trigger] places[i] < #[trigger] places[j]
                &&& forall|p: int|
                    0 <= p < effects.len() && #[trigger] effects[p] is Emit ==> places.contains(p)
            },
{
    let wanted = |effect: ListenerEffect<Q, R>| effect is Emit;
    let places = places_of(effects, wanted);
    law_selection_keeps_order(effects, wanted);
    lemma_emitted(effects);
    assert(places.len() == emitted(effects).len());
    assert forall|i: int| 0 <= i < places.len() implies 0 <= #[trigger] places[i] < effects.len()
        && effects[places[i]] == ListenerEffect::<Q, R>::Emit(emitted(effects)[i]) by {
        assert(ListenerEffect::<Q, R>::Emit(emitted(effects)[i]) == effects.filter(wanted)[i]);
    }
}

} // verus!
