//! The task that watches the power of the adapter.

use crate::device::BluerDevice;
use crate::event::{BluerRequest, BluerSessionEvent, SessionEffect};
use crate::places::{law_selection_keeps_order, places_of};
use crate::state::{is_on, powered_on, BluerState};
use vstd::prelude::*;

verus! {

/// The time between two readings of the power, in seconds.
pub const POWER_POLL_SECONDS: u64 = 5;

/// Whether the adapter was on when its power was last read.
#[derive(Debug)]
pub struct PowerWatch {
    pub powered: bool,
}

/// The requests as effects.
pub open spec fn as_effects<R>(requests: Seq<BluerRequest>) -> Seq<SessionEffect<R>> {
    requests.map_values(|request: BluerRequest| SessionEffect::<R>::Request(request))
}

/// What a change of power calls for: the requests to reconnect, if the adapter
/// is on now, then a wake-up of the watching task, then the new state.
pub open spec fn power_effects<R>(state: BluerState) -> Seq<SessionEffect<R>> {
    as_effects::<R>(state.reconnection()) + seq![
        SessionEffect::WakeUp,
        SessionEffect::Publish(BluerSessionEvent::ChangesProcessed(state)),
    ]
}

/// Whether a reading differs from the one before it.
pub open spec fn power_changed(before: bool, reading: bool) -> bool {
    reading != before
}

impl PowerWatch {
    /// Starts from a first reading.
    pub fn new<E>(reading: Result<bool, E>) -> (watch: Self)
        ensures
            watch.powered == is_on(reading),
    {
        PowerWatch { powered: powered_on(reading) }
    }

    /// Takes in a reading. Says whether the power has changed.
    pub fn observe<E>(&mut self, reading: Result<bool, E>) -> (changed: bool)
        ensures
            final(self).powered == is_on(reading),
            changed == power_changed(old(self).powered, is_on(reading)),
    {
        let powered = powered_on(reading);
        let changed = powered != self.powered;
        self.powered = powered;
        changed
    }

    /// What to do once the power has changed, with the devices as they are now.
    pub fn report<R>(&self, devices: Vec<BluerDevice>) -> (effects: Vec<SessionEffect<R>>)
        ensures
            effects@ == power_effects::<R>(
                BluerState { devices, bluetooth_enabled: self.powered },
            ),
    {
        let state = BluerState { devices, bluetooth_enabled: self.powered };
        let requests = state.reconnect();
        let mut effects: Vec<SessionEffect<R>> = Vec::new();
        let mut i: usize = 0;
        while i < requests.len()
            invariant
                i <= requests@.len(),
                effects@ == as_effects::<R>(requests@.take(i as int)),
            decreases requests@.len() - i,
        {
            effects.push(SessionEffect::Request(requests[i]));
            i += 1;
            assert(effects@ =~= as_effects::<R>(requests@.take(i as int)));
        }
        assert(requests@.take(i as int) =~= requests@);
        effects.push(SessionEffect::WakeUp);
        effects.push(SessionEffect::Publish(BluerSessionEvent::ChangesProcessed(state)));
        assert(effects@ =~= power_effects::<R>(state));
        effects
    }
}

/// Nothing is connected to when the power goes off: all that is done is to wake
/// up the watching task and to publish the state.
pub proof fn law_power_off_reconnects_nothing<R>(state: BluerState)
    requires
        !state.bluetooth_enabled,
    ensures
        power_effects::<R>(state) == seq![
            SessionEffect::WakeUp,
            SessionEffect::<R>::Publish(BluerSessionEvent::ChangesProcessed(state)),
        ],
{
    assert(power_effects::<R>(state) =~= seq![
        SessionEffect::WakeUp,
        SessionEffect::<R>::Publish(BluerSessionEvent::ChangesProcessed(state)),
    ]);
}

/// The reading before a round: that of the round before it, or the first one.
pub open spec fn reading_before(first: bool, rounds: Seq<BluerState>, round: int) -> bool {
    if round == 0 {
        first
    } else {
        rounds[round - 1].bluetooth_enabled
    }
}

/// Whether the reading of a round differs from the one before it.
pub open spec fn changed_at(first: bool, rounds: Seq<BluerState>, round: int) -> bool {
    power_changed(reading_before(first, rounds, round), rounds[round].bluetooth_enabled)
}

/// What the task does in a number of rounds. Each round is the state that is
/// there to be read in it; `first` is the reading before them.
pub open spec fn power_run<R>(first: bool, rounds: Seq<BluerState>) -> Seq<SessionEffect<R>>
    decreases rounds.len(),
{
    if rounds.len() == 0 {
        Seq::empty()
    } else {
        power_run::<R>(first, rounds.drop_last()) + if changed_at(
            first,
            rounds,
            rounds.len() - 1,
        ) {
            power_effects::<R>(rounds.last())
        } else {
            Seq::empty()
        }
    }
}

/// The rounds whose reading differs from the one before, in order.
pub open spec fn changed_rounds(first: bool, rounds: Seq<BluerState>) -> Seq<int>
    decreases rounds.len(),
{
    if rounds.len() == 0 {
        Seq::empty()
    } else {
        let last = rounds.len() - 1;
        let earlier = changed_rounds(first, rounds.drop_last());
        if changed_at(first, rounds, last) {
            earlier.push(last)
        } else {
            earlier
        }
    }
}

/// The events among the effects, in order.
pub open spec fn published<R>(effects: Seq<SessionEffect<R>>) -> Seq<BluerSessionEvent<R>>
    decreases effects.len(),
{
    if effects.len() == 0 {
        Seq::empty()
    } else {
        match effects.last() {
            SessionEffect::Publish(event) => published(effects.drop_last()).push(event),
            _ => published(effects.drop_last()),
        }
    }
}

pub(crate) proof fn lemma_published_concat<R>(a: Seq<SessionEffect<R>>, b: Seq<SessionEffect<R>>)
    ensures
        published(a + b) == published(a) + published(b),
    decreases b.len(),
{
    if b.len() == 0 {
        assert(a + b =~= a);
        assert(published(b) =~= Seq::empty());
        assert(published(a) + published(b) =~= published(a));
    } else {
        lemma_published_concat(a, b.drop_last());
        assert((a + b).drop_last() =~= a + b.drop_last());
        assert((a + b).last() == b.last());
        assert(published(a + b) =~= published(a) + published(b));
    }
}

pub(crate) proof fn lemma_requests_publish_nothing<R>(requests: Seq<BluerRequest>)
    ensures
        published(as_effects::<R>(requests)) == Seq::<BluerSessionEvent<R>>::empty(),
    decreases requests.len(),
{
    if requests.len() > 0 {
        lemma_requests_publish_nothing::<R>(requests.drop_last());
        let effects = as_effects::<R>(requests);
        assert(effects.drop_last() =~= as_effects::<R>(requests.drop_last()));
        assert(effects.last() == SessionEffect::<R>::Request(requests.last()));
    }
}

proof fn lemma_change_is_published<R>(state: BluerState)
    ensures
        published(power_effects::<R>(state)) == seq![
            BluerSessionEvent::<R>::ChangesProcessed(state),
        ],
{
    let requests = as_effects::<R>(state.reconnection());
    let event = BluerSessionEvent::<R>::ChangesProcessed(state);
    let told = seq![SessionEffect::WakeUp, SessionEffect::Publish(event)];
    lemma_published_concat(requests, told);
    lemma_requests_publish_nothing::<R>(state.reconnection());
    let woken = told.drop_last();
    assert(woken.drop_last() =~= Seq::empty());
    assert(woken.last() == SessionEffect::<R>::WakeUp);
    assert(published(woken.drop_last()) =~= Seq::empty());
    assert(published(woken) =~= Seq::empty());
    assert(published(told) =~= seq![event]);
    assert(published(power_effects::<R>(state)) =~= seq![event]);
}

proof fn lemma_changed_at_fewer(first: bool, rounds: Seq<BluerState>, i: int)
    requires
        0 <= i < rounds.len() - 1,
    ensures
        changed_at(first, rounds.drop_last(), i) == changed_at(first, rounds, i),
{
}

proof fn lemma_changed_rounds(first: bool, rounds: Seq<BluerState>)
    ensures
        ({
            let changed = changed_rounds(first, rounds);
            &&& forall|k: int|
                0 <= k < changed.len() ==> 0 <= #[trigger] changed[k] < rounds.len() && changed_at(
                    first,
                    rounds,
                    changed[k],
                )
            &&& forall|j: int, k: int|
                0 <= j < k < changed.len() ==> #[trigger] changed[j] < #[trigger] changed[k]
            &&& forall|i: int|
                0 <= i < rounds.len() && #[trigger] changed_at(first, rounds, i)
                    ==> changed.contains(i)
        }),
    decreases rounds.len(),
{
    if rounds.len() > 0 {
        let last = rounds.len() - 1;
        let fewer = rounds.drop_last();
        let earlier = changed_rounds(first, fewer);
        let changed = changed_rounds(first, rounds);
        lemma_changed_rounds(first, fewer);
        assert forall|k: int| 0 <= k < changed.len() implies 0 <= #[trigger] changed[k]
            < rounds.len() && changed_at(first, rounds, changed[k]) by {
            if k < earlier.len() {
                assert(changed[k] == earlier[k]);
                lemma_changed_at_fewer(first, rounds, earlier[k]);
            }
        }
        assert forall|i: int|
            0 <= i < rounds.len() && #[trigger] changed_at(
                first,
                rounds,
                i,
            ) implies changed.contains(i) by {
            if i < last {
                lemma_changed_at_fewer(first, rounds, i);
                assert(earlier.contains(i));
                let k = choose|k: int| 0 <= k < earlier.len() && earlier[k] == i;
                assert(changed[k] == i);
            } else {
                assert(changed[changed.len() - 1] == i);
            }
        }
    }
}

proof fn lemma_changed_in_range(first: bool, rounds: Seq<BluerState>, k: int)
    requires
        0 <= k < changed_rounds(first, rounds).len(),
    ensures
        0 <= changed_rounds(first, rounds)[k] < rounds.len(),
{
    lemma_changed_rounds(first, rounds);
}

/// The power after the last change is that of the last reading.
proof fn lemma_last_change(first: bool, rounds: Seq<BluerState>)
    ensures
        ({
            let changed = changed_rounds(first, rounds);
            reading_before(first, rounds, rounds.len() as int) == if changed.len() == 0 {
                first
            } else {
                rounds[changed.last()].bluetooth_enabled
            }
        }),
    decreases rounds.len(),
{
    if rounds.len() > 0 {
        let last = rounds.len() - 1;
        let fewer = rounds.drop_last();
        lemma_last_change(first, fewer);
        assert(reading_before(first, rounds, last) == reading_before(first, fewer, last));
        let earlier = changed_rounds(first, fewer);
        if earlier.len() > 0 {
            lemma_changed_in_range(first, fewer, earlier.len() - 1);
        }
    }
}

/// A run of readings publishes one state for each reading that differs from the
/// one before it, in order, and nothing else.
pub proof fn law_each_change_is_published<R>(first: bool, rounds: Seq<BluerState>)
    ensures
        ({
            let changed = changed_rounds(first, rounds);
            &&& published(power_run::<R>(first, rounds)) == changed.map_values(
                |i: int| BluerSessionEvent::<R>::ChangesProcessed(rounds[i]),
            )
            &&& forall|j: int, k: int|
                0 <= j < k < changed.len() ==> #[trigger] changed[j] < #[trigger] changed[k]
            &&& forall|i: int| #[trigger]
                changed.contains(i) <==> 0 <= i < rounds.len() && changed_at(first, rounds, i)
        }),
    decreases rounds.len(),
{
    let changed = changed_rounds(first, rounds);
    let event = |i: int| BluerSessionEvent::<R>::ChangesProcessed(rounds[i]);
    lemma_changed_rounds(first, rounds);
    assert forall|i: int| #[trigger] changed.contains(i) implies 0 <= i < rounds.len()
        && changed_at(first, rounds, i) by {
        let k = choose|k: int| 0 <= k < changed.len() && changed[k] == i;
        assert(0 <= changed[k] < rounds.len());
    }
    if rounds.len() == 0 {
        assert(published(power_run::<R>(first, rounds)) =~= changed.map_values(event));
    } else {
        let last = rounds.len() - 1;
        let fewer = rounds.drop_last();
        let earlier = changed_rounds(first, fewer);
        let before = power_run::<R>(first, fewer);
        law_each_change_is_published::<R>(first, fewer);
        lemma_changed_rounds(first, fewer);
        let fewer_event = |i: int| BluerSessionEvent::<R>::ChangesProcessed(fewer[i]);
        assert(earlier.map_values(event) =~= earlier.map_values(fewer_event)) by {
            assert forall|k: int| 0 <= k < earlier.len() implies rounds[#[trigger] earlier[k]]
                == fewer[earlier[k]] by {}
        }
        if changed_at(first, rounds, last) {
            lemma_published_concat(before, power_effects::<R>(rounds.last()));
            lemma_change_is_published::<R>(rounds.last());
            assert(published(power_run::<R>(first, rounds)) =~= changed.map_values(event));
        } else {
            assert(power_run::<R>(first, rounds) =~= before);
        }
    }
}

proof fn lemma_changes_alternate(first: bool, rounds: Seq<BluerState>, k: int)
    requires
        0 <= k < changed_rounds(first, rounds).len(),
    ensures
        ({
            let changed = changed_rounds(first, rounds);
            rounds[changed[k]].bluetooth_enabled != if k == 0 {
                first
            } else {
                rounds[changed[k - 1]].bluetooth_enabled
            }
        }),
    decreases rounds.len(),
{
    let last = rounds.len() - 1;
    let fewer = rounds.drop_last();
    let earlier = changed_rounds(first, fewer);
    let changed = changed_rounds(first, rounds);
    if k < earlier.len() {
        lemma_changes_alternate(first, fewer, k);
        lemma_changed_in_range(first, fewer, k);
        if k > 0 {
            lemma_changed_in_range(first, fewer, k - 1);
        }
    } else {
        lemma_last_change(first, fewer);
        assert(changed[k] == last);
        assert(reading_before(first, rounds, last) == reading_before(first, fewer, last));
        if k > 0 {
            lemma_changed_in_range(first, fewer, k - 1);
        }
    }
}

/// The power that an event of the task tells.
pub open spec fn told_power<R>(event: BluerSessionEvent<R>) -> Option<bool> {
    match event {
        BluerSessionEvent::ChangesProcessed(state) => Some(state.bluetooth_enabled),
        _ => None,
    }
}

/// The events of a run of readings tell on and off in turn, and the first tells
/// the opposite of the reading before the run.
pub proof fn law_published_power_alternates<R>(first: bool, rounds: Seq<BluerState>, k: int)
    requires
        0 <= k < published(power_run::<R>(first, rounds)).len(),
    ensures
        ({
            let events = published(power_run::<R>(first, rounds));
            let before = if k == 0 {
                Some(first)
            } else {
                told_power(events[k - 1])
            };
            &&& before matches Some(power) && told_power(events[k]) == Some(!power)
        }),
{
    law_each_change_is_published::<R>(first, rounds);
    lemma_changes_alternate(first, rounds, k);
}

/// A change of power brings the requests to reconnect, each once and in order,
/// then a wake-up of the watching task, then the state as it is now.
pub proof fn law_effects_of_a_change<R>(state: BluerState)
    ensures
        ({
            let effects = power_effects::<R>(state);
            let requests = state.reconnection();
            &&& effects.len() == requests.len() + 2
            &&& forall|i: int|
                0 <= i < requests.len() ==> #[trigger] effects[i] == SessionEffect::<R>::Request(
                    requests[i],
                )
            &&& effects[requests.len() as int] == SessionEffect::<R>::WakeUp
            &&& effects[requests.len() as int + 1] == SessionEffect::<R>::Publish(
                BluerSessionEvent::ChangesProcessed(state),
            )
        }),
{
}

/// The power has changed exactly where the reading is not the one before, and it
/// is read every five seconds.
pub proof fn law_power_changes_with_the_reading(before: bool, reading: bool)
    ensures
        power_changed(before, reading) <==> (before && !reading) || (!before && reading),
        POWER_POLL_SECONDS == 5,
{
}

/// In a run each round whose reading differs from the one before it does what a
/// change calls for, at its place between the rounds before and after it, and no
/// other round does anything.
pub proof fn law_change_stands_in_run<R>(first: bool, rounds: Seq<BluerState>, k: int)
    requires
        0 <= k < rounds.len(),
    ensures
        ({
            let before = if k == 0 {
                first
            } else {
                rounds[k - 1].bluetooth_enabled
            };
            let earlier = power_run::<R>(first, rounds.take(k));
            let up_to = power_run::<R>(first, rounds.take(k + 1));
            &&& before == rounds[k].bluetooth_enabled ==> up_to == earlier
            &&& before != rounds[k].bluetooth_enabled ==> up_to == earlier + power_effects::<R>(
                rounds[k],
            )
            &&& up_to.is_prefix_of(power_run::<R>(first, rounds))
        }),
    decreases rounds.len(),
{
    let now = rounds.take(k + 1);
    let earlier = power_run::<R>(first, rounds.take(k));
    assert(now.drop_last() =~= rounds.take(k));
    assert(now.last() == rounds[k]);
    assert(changed_at(first, now, k) == changed_at(first, rounds, k));
    assert(earlier + Seq::<SessionEffect<R>>::empty() =~= earlier);
    if k == rounds.len() - 1 {
        assert(now =~= rounds);
    } else {
        let fewer = rounds.drop_last();
        law_change_stands_in_run::<R>(first, fewer, k);
        assert(fewer.take(k + 1) =~= now);
        assert(power_run::<R>(first, fewer).is_prefix_of(power_run::<R>(first, rounds)));
    }
}

/// Readings that stay the same bring nothing at all.
pub proof fn law_steady_power_does_nothing<R>(first: bool, rounds: Seq<BluerState>)
    requires
        forall|i: int|
            0 <= i < rounds.len() ==> (#[trigger] rounds[i]).bluetooth_enabled == first,
    ensures
        power_run::<R>(first, rounds).len() == 0,
    decreases rounds.len(),
{
    if rounds.len() > 0 {
        let fewer = rounds.drop_last();
        assert forall|i: int| 0 <= i < fewer.len() implies (#[trigger] fewer[i]).bluetooth_enabled
            == first by {
            assert(fewer[i] == rounds[i]);
        }
        law_steady_power_does_nothing::<R>(first, fewer);
        let last = rounds.len() - 1;
        assert(rounds[last].bluetooth_enabled == first);
        if last > 0 {
            assert(rounds[last - 1].bluetooth_enabled == first);
        }
    }
}

proof fn lemma_published<R>(effects: Seq<SessionEffect<R>>)
    ensures
        published(effects).len() == effects.filter(
            |effect: SessionEffect<R>| effect is Publish,
        ).len(),
        forall|i: int|
            0 <= i < published(effects).len() ==> SessionEffect::<R>::Publish(
                #[trigger] published(effects)[i],
            ) == effects.filter(|effect: SessionEffect<R>| effect is Publish)[i],
    decreases effects.len(),
{
    reveal(Seq::filter);
    if effects.len() > 0 {
        lemma_published(effects.drop_last());
    }
}

/// The published events are those among the effects, all of them, in order.
pub proof fn law_published_keeps_every_event<R>(effects: Seq<SessionEffect<R>>)
    ensures
        exists|places: Seq<int>|
            {
                &&& #[trigger] places.len() == published(effects).len()
                &&& forall|i: int|
                    0 <= i < places.len() ==> 0 <= #[trigger] places[i] < effects.len()
                        && effects[places[i]] == SessionEffect::<R>::Publish(published(effects)[i])
                &&& forall|i: int, j: int|
                    0 <= i < j < places.len() ==> #[trigger] places[i] < #[trigger] places[j]
                &&& forall|p: int|
                    0 <= p < effects.len() && #[trigger] effects[p] is Publish ==> places.contains(
                        p,
                    )
            },
{
    let wanted = |effect: SessionEffect<R>| effect is Publish;
    let places = places_of(effects, wanted);
    law_selection_keeps_order(effects, wanted);
    lemma_published(effects);
    assert(places.len() == published(effects).len());
    assert forall|i: int| 0 <= i < places.len() implies 0 <= #[trigger] places[i] < effects.len()
        && effects[places[i]] == SessionEffect::<R>::Publish(published(effects)[i]) by {
        assert(SessionEffect::<R>::Publish(published(effects)[i]) == effects.filter(wanted)[i]);
    }
}

} // verus!
