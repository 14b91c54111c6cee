//! The task that watches for changes of the devices.

use crate::backoff::{capped, doubled, doubled_times};
use crate::device::BluerDevice;
use crate::event::{BluerRequest, BluerSessionEvent, SessionEffect};
use crate::power::{
    as_effects, lemma_published_concat, lemma_requests_publish_nothing, published,
};
use crate::state::{
    bluer_state, connect_requests, is_among, is_on, reconnect_new, to_reconnect, BluerState,
};
use vstd::prelude::*;

verus! {

/// The time that is waited at first, in milliseconds.
pub const FIRST_TIMEOUT: u64 = 10;

/// What the watching task waited for.
#[derive(Clone, Copy, Debug, PartialEq, Eq, Structural)]
pub enum ChangeEvent {
    /// The stream of changes delivered one.
    Changed,
    /// The stream of changes has ended.
    StreamEnded,
    /// Neither a change nor a wake-up came in time.
    TimedOut,
    /// The task was woken up.
    WokenUp,
}

/// What the watching task does next.
#[derive(Clone, Copy, Debug, PartialEq, Eq, Structural)]
pub enum ChangeAction {
    /// Read the devices, reconnect, and publish the state.
    Refresh,
    /// Wait again.
    WaitAgain,
    /// Publish that the stream has ended, and start discovery anew.
    Restart,
}

/// The state of the watching task.
#[derive(Debug)]
pub struct ChangeWatch {
    /// How long to wait, in milliseconds.
    pub timeout: u64,
    /// The devices as they were last seen.
    pub known: Vec<BluerDevice>,
}

/// What the watching task does on an event.
pub open spec fn action_on(event: ChangeEvent) -> ChangeAction {
    match event {
        ChangeEvent::Changed | ChangeEvent::WokenUp => ChangeAction::Refresh,
        ChangeEvent::TimedOut => ChangeAction::WaitAgain,
        ChangeEvent::StreamEnded => ChangeAction::Restart,
    }
}

/// How long the watching task waits after an event, before a refresh that the
/// event may call for.
pub open spec fn timeout_after(timeout: u64, event: ChangeEvent) -> u64 {
    match event {
        ChangeEvent::TimedOut => capped(2 * timeout),
        ChangeEvent::StreamEnded => FIRST_TIMEOUT,
        ChangeEvent::Changed | ChangeEvent::WokenUp => timeout,
    }
}

impl ChangeWatch {
    /// Before the first attempt at discovery.
    pub fn new() -> (watch: Self)
        ensures
            watch.timeout == FIRST_TIMEOUT,
            watch.known@.len() == 0,
    {
        ChangeWatch { timeout: FIRST_TIMEOUT, known: Vec::new() }
    }

    /// Discovery could not be started. Gives how long to wait for a wake-up
    /// before the next attempt; each wait is twice as long as the one before.
    pub fn discovery_failed(&mut self) -> (wait: u64)
        ensures
            wait == old(self).timeout,
            final(self).timeout == capped(2 * old(self).timeout),
            final(self).known == old(self).known,
    {
        let wait = self.timeout;
        self.timeout = doubled(wait);
        wait
    }

    /// Discovery was started: no device is known, and waits are short again.
    pub fn discovery_started(&mut self)
        ensures
            final(self).timeout == FIRST_TIMEOUT,
            final(self).known@.len() == 0,
    {
        self.timeout = FIRST_TIMEOUT;
        self.known = Vec::new();
    }

    /// Takes in an event, and says what to do.
    pub fn observe(&mut self, event: ChangeEvent) -> (action: ChangeAction)
        ensures
            action == action_on(event),
            final(self).timeout == timeout_after(old(self).timeout, event),
            final(self).known == old(self).known,
    {
        match event {
            ChangeEvent::Changed | ChangeEvent::WokenUp => ChangeAction::Refresh,
            ChangeEvent::TimedOut => {
                self.timeout = doubled(self.timeout);
                ChangeAction::WaitAgain
            },
            ChangeEvent::StreamEnded => {
                self.timeout = FIRST_TIMEOUT;
                ChangeAction::Restart
            },
        }
    }

    /// Takes in the devices as they are now. Gives the requests to connect to
    /// the paired and trusted ones that were not there before.
    pub fn refresh(&mut self, devices: Vec<BluerDevice>) -> (requests: Vec<BluerRequest>)
        ensures
            requests@ == connect_requests(to_reconnect(devices@, old(self).known@)),
            final(self).known == devices,
            final(self).timeout == old(self).timeout,
    {
        let requests = reconnect_new(&devices, &self.known);
        self.known = devices;
        requests
    }

    /// The state to publish after a refresh. Waits are short again.
    pub fn publish<E, R>(
        &mut self,
        devices: Vec<BluerDevice>,
        powered: Result<bool, E>,
    ) -> (event: BluerSessionEvent<R>)
        ensures
            event == BluerSessionEvent::<R>::ChangesProcessed(
                BluerState { devices, bluetooth_enabled: is_on(powered) },
            ),
            final(self).timeout == FIRST_TIMEOUT,
            final(self).known == old(self).known,
    {
        self.timeout = FIRST_TIMEOUT;
        BluerSessionEvent::ChangesProcessed(bluer_state(devices, powered))
    }
}

/// What is published when the stream of changes has ended, before discovery
/// starts anew.
pub fn stream_ended<R>() -> (event: BluerSessionEvent<R>)
    ensures
        event == BluerSessionEvent::<R>::ChangeStreamEnded,
{
    BluerSessionEvent::ChangeStreamEnded
}

/// A device that was there before is not connected to again.
pub proof fn law_known_device_is_left_alone(
    devices: Seq<BluerDevice>,
    known: Seq<BluerDevice>,
    device: BluerDevice,
)
    requires
        is_among(device, known),
    ensures
        !to_reconnect(devices, known).contains(device),
{
    let wanted = |d: BluerDevice| !is_among(d, known) && d.is_paired_and_trusted();
    if to_reconnect(devices, known).contains(device) {
        let i = choose|i: int|
            0 <= i < to_reconnect(devices, known).len() && to_reconnect(devices, known)[i]
                == device;
        devices.lemma_filter_pred(wanted, i);
    }
}

/// A paired and trusted device that was not there before is connected to.
pub proof fn law_new_device_is_reconnected(
    devices: Seq<BluerDevice>,
    known: Seq<BluerDevice>,
    device: BluerDevice,
)
    requires
        devices.contains(device),
        !is_among(device, known),
        device.is_paired_and_trusted(),
    ensures
        connect_requests(to_reconnect(devices, known)).contains(
            BluerRequest::ConnectDevice(device.address),
        ),
{
    let wanted = |d: BluerDevice| !is_among(d, known) && d.is_paired_and_trusted();
    let k = choose|k: int| 0 <= k < devices.len() && devices[k] == device;
    devices.lemma_filter_contains(wanted, k);
    let chosen = to_reconnect(devices, known);
    let i = choose|i: int| 0 <= i < chosen.len() && chosen[i] == device;
    assert(connect_requests(chosen)[i] == BluerRequest::ConnectDevice(device.address));
}

/// A refresh that finds the devices as they were asks for no connection.
pub proof fn law_unchanged_devices_ask_nothing(devices: Seq<BluerDevice>)
    ensures
        connect_requests(to_reconnect(devices, devices)) == Seq::<BluerRequest>::empty(),
{
    let chosen = to_reconnect(devices, devices);
    let wanted = |d: BluerDevice| !is_among(d, devices) && d.is_paired_and_trusted();
    if chosen.len() > 0 {
        devices.lemma_filter_pred(wanted, 0);
        devices.lemma_filter_contains_rev(wanted, chosen[0]);
        assert(is_among(chosen[0], devices));
    }
    assert(connect_requests(chosen) =~= Seq::<BluerRequest>::empty());
}

/// How long is waited after a number of timeouts in a row.
pub open spec fn timeout_after_timeouts(timeout: u64, times: nat) -> u64
    decreases times,
{
    if times == 0 {
        timeout
    } else {
        timeout_after(timeout_after_timeouts(timeout, (times - 1) as nat), ChangeEvent::TimedOut)
    }
}

/// Timeouts in a row double the wait each time.
pub proof fn law_timeouts_double(timeout: u64, times: nat)
    ensures
        timeout_after_timeouts(timeout, times) == doubled_times(timeout, times),
    decreases times,
{
    if times > 0 {
        law_timeouts_double(timeout, (times - 1) as nat);
    }
}

/// What there is for the watching task in a round: an event, the devices that
/// are there to be read, and the state that is there to be published after the
/// requests were sent.
pub struct ChangeRound {
    pub event: ChangeEvent,
    pub devices: Vec<BluerDevice>,
    pub state: BluerState,
}

/// What the watching task does on an event: on a change or a wake-up the
/// requests to connect to the new devices, then the state; on a timeout nothing;
/// on the end of the stream it tells that.
pub open spec fn change_effects<R>(
    known: Seq<BluerDevice>,
    event: ChangeEvent,
    devices: Seq<BluerDevice>,
    state: BluerState,
) -> Seq<SessionEffect<R>> {
    match action_on(event) {
        ChangeAction::Refresh => as_effects::<R>(
            connect_requests(to_reconnect(devices, known)),
        ).push(SessionEffect::Publish(BluerSessionEvent::ChangesProcessed(state))),
        ChangeAction::WaitAgain => Seq::empty(),
        ChangeAction::Restart => seq![
            SessionEffect::Publish(BluerSessionEvent::ChangeStreamEnded),
        ],
    }
}

/// The devices that are known after an event: those that a refresh has read,
/// and none once discovery has started anew.
pub open spec fn known_after(
    known: Seq<BluerDevice>,
    event: ChangeEvent,
    devices: Seq<BluerDevice>,
) -> Seq<BluerDevice> {
    match action_on(event) {
        ChangeAction::Refresh => devices,
        ChangeAction::WaitAgain => known,
        ChangeAction::Restart => Seq::empty(),
    }
}

/// The devices that are known after a number of rounds.
pub open spec fn known_after_all(known: Seq<BluerDevice>, rounds: Seq<ChangeRound>) -> Seq<
    BluerDevice,
>
    decreases rounds.len(),
{
    if rounds.len() == 0 {
        known
    } else {
        let last = rounds.last();
        known_after(known_after_all(known, rounds.drop_last()), last.event, last.devices@)
    }
}

/// What the watching task does in a number of rounds.
pub open spec fn change_run<R>(known: Seq<BluerDevice>, rounds: Seq<ChangeRound>) -> Seq<
    SessionEffect<R>,
>
    decreases rounds.len(),
{
    if rounds.len() == 0 {
        Seq::empty()
    } else {
        let last = rounds.last();
        let before = known_after_all(known, rounds.drop_last());
        change_run::<R>(known, rounds.drop_last()) + change_effects::<R>(
            before,
            last.event,
            last.devices@,
            last.state,
        )
    }
}

/// The rounds in which the watching task did not wait in vain, in order.
pub open spec fn telling_rounds(rounds: Seq<ChangeRound>) -> Seq<int>
    decreases rounds.len(),
{
    if rounds.len() == 0 {
        Seq::empty()
    } else {
        let earlier = telling_rounds(rounds.drop_last());
        if rounds.last().event == ChangeEvent::TimedOut {
            earlier
        } else {
            earlier.push(rounds.len() - 1)
        }
    }
}

/// The event that a round publishes, if it is not a timeout.
pub open spec fn round_event<R>(round: ChangeRound) -> BluerSessionEvent<R> {
    if round.event == ChangeEvent::StreamEnded {
        BluerSessionEvent::ChangeStreamEnded
    } else {
        BluerSessionEvent::ChangesProcessed(round.state)
    }
}

proof fn lemma_round_publishes<R>(known: Seq<BluerDevice>, round: ChangeRound)
    ensures
        published(change_effects::<R>(known, round.event, round.devices@, round.state)) == if
            round.event == ChangeEvent::TimedOut {
            Seq::empty()
        } else {
            seq![round_event::<R>(round)]
        },
{
    let effects = change_effects::<R>(known, round.event, round.devices@, round.state);
    let requests = connect_requests(to_reconnect(round.devices@, known));
    let event = round_event::<R>(round);
    match action_on(round.event) {
        ChangeAction::Refresh => {
            lemma_requests_publish_nothing::<R>(requests);
            assert(effects.drop_last() =~= as_effects::<R>(requests));
            assert(published(effects) =~= seq![event]);
        },
        ChangeAction::WaitAgain => {},
        ChangeAction::Restart => {
            assert(effects.drop_last() =~= Seq::empty());
            assert(published(effects.drop_last()) =~= Seq::empty());
            assert(published(effects) =~= seq![event]);
        },
    }
}

proof fn lemma_telling_rounds(rounds: Seq<ChangeRound>)
    ensures
        ({
            let telling = telling_rounds(rounds);
            &&& forall|k: int|
                0 <= k < telling.len() ==> 0 <= #[trigger] telling[k] < rounds.len()
                    && rounds[telling[k]].event != ChangeEvent::TimedOut
            &&& forall|j: int, k: int|
                0 <= j < k < telling.len() ==> #[trigger] telling[j] < #[trigger] telling[k]
            &&& forall|i: int|
                0 <= i < rounds.len() && (#[trigger] rounds[i]).event != ChangeEvent::TimedOut
                    ==> telling.contains(i)
        }),
    decreases rounds.len(),
{
    if rounds.len() > 0 {
        let last = rounds.len() - 1;
        let fewer = rounds.drop_last();
        let earlier = telling_rounds(fewer);
        let telling = telling_rounds(rounds);
        lemma_telling_rounds(fewer);
        assert forall|k: int| 0 <= k < telling.len() implies 0 <= #[trigger] telling[k]
            < rounds.len() && rounds[telling[k]].event != ChangeEvent::TimedOut by {
            if k < earlier.len() {
                assert(telling[k] == earlier[k]);
                assert(rounds[earlier[k]] == fewer[earlier[k]]);
            }
        }
        assert forall|i: int|
            0 <= i < rounds.len() && (#[trigger] rounds[i]).event
                != ChangeEvent::TimedOut implies telling.contains(i) by {
            if i < last {
                assert(fewer[i] == rounds[i]);
                let k = choose|k: int| 0 <= k < earlier.len() && earlier[k] == i;
                assert(telling[k] == i);
            } else {
                assert(telling[telling.len() - 1] == i);
            }
        }
    }
}

/// A run publishes one state for each change and each wake-up, one event for
/// each end of the stream, in order, and nothing for a timeout.
pub proof fn law_each_round_is_published<R>(known: Seq<BluerDevice>, rounds: Seq<ChangeRound>)
    ensures
        ({
            let telling = telling_rounds(rounds);
            &&& published(change_run::<R>(known, rounds)) == telling.map_values(
                |i: int| round_event::<R>(rounds[i]),
            )
            &&& forall|j: int, k: int|
                0 <= j < k < telling.len() ==> #[trigger] telling[j] < #[trigger] telling[k]
            &&& forall|i: int| #[trigger]
                telling.contains(i) <==> 0 <= i < rounds.len() && rounds[i].event
                    != ChangeEvent::TimedOut
        }),
    decreases rounds.len(),
{
    let telling = telling_rounds(rounds);
    let event = |i: int| round_event::<R>(rounds[i]);
    lemma_telling_rounds(rounds);
    assert forall|i: int| #[trigger] telling.contains(i) implies 0 <= i < rounds.len()
        && rounds[i].event != ChangeEvent::TimedOut by {
        let k = choose|k: int| 0 <= k < telling.len() && telling[k] == i;
        assert(0 <= telling[k] < rounds.len());
    }
    if rounds.len() == 0 {
        assert(published(change_run::<R>(known, rounds)) =~= telling.map_values(event));
    } else {
        let fewer = rounds.drop_last();
        let last = rounds.last();
        let earlier = telling_rounds(fewer);
        let before = known_after_all(known, fewer);
        law_each_round_is_published::<R>(known, fewer);
        lemma_telling_rounds(fewer);
        let fewer_event = |i: int| round_event::<R>(fewer[i]);
        assert(earlier.map_values(event) =~= earlier.map_values(fewer_event)) by {
            assert forall|k: int| 0 <= k < earlier.len() implies rounds[#[trigger] earlier[k]]
                == fewer[earlier[k]] by {}
        }
        lemma_published_concat(
            change_run::<R>(known, fewer),
            change_effects::<R>(before, last.event, last.devices@, last.state),
        );
        lemma_round_publishes::<R>(before, last);
        assert(published(change_run::<R>(known, rounds)) =~= telling.map_values(event));
    }
}

/// In a run the effects of a round stand together, behind those of the rounds
/// before it and ahead of those of the rounds after it: the requests of a
/// refresh come right before the state that it publishes, and a timeout adds
/// neither request nor event.
pub proof fn law_round_stands_in_run<R>(
    known: Seq<BluerDevice>,
    rounds: Seq<ChangeRound>,
    k: int,
)
    requires
        0 <= k < rounds.len(),
    ensures
        ({
            let round = rounds[k];
            let earlier = change_run::<R>(known, rounds.take(k));
            let effects = change_effects::<R>(
                known_after_all(known, rounds.take(k)),
                round.event,
                round.devices@,
                round.state,
            );
            (earlier + effects).is_prefix_of(change_run::<R>(known, rounds))
        }),
    decreases rounds.len(),
{
    let fewer = rounds.drop_last();
    if k == rounds.len() - 1 {
        assert(rounds.take(k) =~= fewer);
    } else {
        law_round_stands_in_run::<R>(known, fewer, k);
        assert(fewer.take(k) =~= rounds.take(k));
        assert(fewer[k] == rounds[k]);
        assert(change_run::<R>(known, fewer).is_prefix_of(change_run::<R>(known, rounds)));
    }
}

/// A run of timeouts does nothing, and forgets nothing.
pub proof fn law_timeouts_do_nothing<R>(known: Seq<BluerDevice>, rounds: Seq<ChangeRound>)
    requires
        forall|i: int|
            0 <= i < rounds.len() ==> (#[trigger] rounds[i]).event == ChangeEvent::TimedOut,
    ensures
        change_run::<R>(known, rounds) == Seq::<SessionEffect<R>>::empty(),
        known_after_all(known, rounds) == known,
    decreases rounds.len(),
{
    if rounds.len() > 0 {
        let fewer = rounds.drop_last();
        assert forall|i: int| 0 <= i < fewer.len() implies (#[trigger] fewer[i]).event
            == ChangeEvent::TimedOut by {
            assert(fewer[i] == rounds[i]);
        }
        law_timeouts_do_nothing::<R>(known, fewer);
        assert(rounds[rounds.len() - 1].event == ChangeEvent::TimedOut);
        assert(change_run::<R>(known, rounds) =~= Seq::empty());
    }
}

/// The task reads the devices on a change and on a wake-up, waits again on a
/// timeout, and starts anew when the stream has ended.
pub proof fn law_action_on_each_event(event: ChangeEvent)
    ensures
        action_on(event) == ChangeAction::Refresh <==> event == ChangeEvent::Changed || event
            == ChangeEvent::WokenUp,
        action_on(event) == ChangeAction::WaitAgain <==> event == ChangeEvent::TimedOut,
        action_on(event) == ChangeAction::Restart <==> event == ChangeEvent::StreamEnded,
{
}

/// Only a timeout makes the wait longer: twice as long, or the longest there is.
/// The end of the stream makes it ten milliseconds again, and the other events
/// leave it as it is.
pub proof fn law_wait_after_each_event(timeout: u64)
    ensures
        2 * timeout <= 0xffff_ffff_ffff_ffff ==> timeout_after(timeout, ChangeEvent::TimedOut) == 2
            * timeout,
        2 * timeout > 0xffff_ffff_ffff_ffff ==> timeout_after(timeout, ChangeEvent::TimedOut)
            == 0xffff_ffff_ffff_ffffu64,
        timeout_after(timeout, ChangeEvent::StreamEnded) == 10,
        timeout_after(timeout, ChangeEvent::Changed) == timeout,
        timeout_after(timeout, ChangeEvent::WokenUp) == timeout,
        FIRST_TIMEOUT == 10,
{
}

/// What is done on each event. A change and a wake-up bring the requests for the
/// new devices, each once and in order, then the state as it was read; a timeout
/// brings nothing; the end of the stream brings the news of it alone.
pub proof fn law_effects_of_each_event<R>(
    known: Seq<BluerDevice>,
    event: ChangeEvent,
    devices: Seq<BluerDevice>,
    state: BluerState,
)
    ensures
        ({
            let effects = change_effects::<R>(known, event, devices, state);
            let requests = connect_requests(to_reconnect(devices, known));
            &&& event == ChangeEvent::Changed || event == ChangeEvent::WokenUp ==> {
                &&& effects.len() == requests.len() + 1
                &&& forall|i: int|
                    0 <= i < requests.len() ==> #[trigger] effects[i]
                        == SessionEffect::<R>::Request(requests[i])
                &&& effects.last() == SessionEffect::<R>::Publish(
                    BluerSessionEvent::ChangesProcessed(state),
                )
            }
            &&& event == ChangeEvent::TimedOut ==> effects.len() == 0
            &&& event == ChangeEvent::StreamEnded ==> effects.len() == 1 && effects[0]
                == SessionEffect::<R>::Publish(BluerSessionEvent::ChangeStreamEnded)
        }),
{
}

/// The devices that count as known are those that were read last: timeouts do
/// not change them, and after the end of the stream there are none.
pub proof fn law_known_are_those_read_last(
    known: Seq<BluerDevice>,
    rounds: Seq<ChangeRound>,
    k: int,
)
    requires
        0 <= k < rounds.len(),
        rounds[k].event != ChangeEvent::TimedOut,
        forall|i: int|
            k < i < rounds.len() ==> (#[trigger] rounds[i]).event == ChangeEvent::TimedOut,
    ensures
        rounds[k].event == ChangeEvent::StreamEnded ==> known_after_all(known, rounds).len() == 0,
        rounds[k].event != ChangeEvent::StreamEnded ==> known_after_all(known, rounds)
            == rounds[k].devices@,
    decreases rounds.len(),
{
    let fewer = rounds.drop_last();
    if k < rounds.len() - 1 {
        assert(rounds[rounds.len() - 1].event == ChangeEvent::TimedOut);
        assert forall|i: int| k < i < fewer.len() implies (#[trigger] fewer[i]).event
            == ChangeEvent::TimedOut by {
            assert(fewer[i] == rounds[i]);
        }
        assert(fewer[k] == rounds[k]);
        law_known_are_those_read_last(known, fewer, k);
    }
}

} // verus!
