//! How a request runs: which step follows which, and what is answered.
//!
//! The steps themselves are I/O. A step is performed, its outcome goes into
//! [`next_step`], and so on until a step says what to report.

use crate::address::Address;
use crate::event::{BluerRequest, BluerSessionEvent};
use crate::rfkill::{radio_id, radio_id_in};
use crate::state::BluerState;
use vstd::prelude::*;
use vstd::string::*;

verus! {

/// The answer to a cancellation that finds nothing to cancel.
pub const NO_ACTIVE_REQUEST: &'static str = "No active connection request found";

/// A call on a device.
#[derive(Clone, Copy, Debug, PartialEq, Eq, Structural)]
pub enum DeviceCall {
    Pair,
    Connect,
    Disconnect,
}

/// The next thing to do for a request.
#[derive(Debug)]
pub enum RequestStep {
    /// Switch the power of the adapter.
    SetPowered(bool),
    /// Have `rfkill` list the radios, to switch that of the adapter.
    ListRadios(bool),
    /// Have `rfkill` switch a radio.
    SwitchRadio { enabled: bool, id: String },
    /// Wake up the task that watches for changes.
    WakeUp,
    /// Open a device, to make a call on it.
    OpenDevice { address: Address, call: DeviceCall },
    /// Make the call on the device that was opened.
    Call(DeviceCall),
    /// Mark the device as trusted.
    Trust,
    /// Look for this request among the active ones, and abort it.
    AbortActive(BluerRequest),
    /// Read the state and answer, with the error if there is one.
    Report(Option<String>),
}

/// What came of a step.
#[derive(Debug)]
pub enum StepOutcome {
    Done,
    /// The step failed, with the text of the error.
    Failed(String),
    /// What `rfkill` printed.
    Printed(Vec<u8>),
    /// Whether there was an active request to abort.
    Found(bool),
}

/// A [`RequestStep`] with its texts as sequences of characters.
pub enum RequestStepView {
    SetPowered(bool),
    ListRadios(bool),
    SwitchRadio { enabled: bool, id: Seq<char> },
    WakeUp,
    OpenDevice { address: Address, call: DeviceCall },
    Call(DeviceCall),
    Trust,
    AbortActive(BluerRequest),
    Report(Option<Seq<char>>),
}

/// A [`StepOutcome`] with its contents as sequences.
pub enum StepOutcomeView {
    Done,
    Failed(Seq<char>),
    Printed(Seq<u8>),
    Found(bool),
}

impl View for RequestStep {
    type V = RequestStepView;

    open spec fn view(&self) -> RequestStepView {
        match *self {
            RequestStep::SetPowered(enabled) => RequestStepView::SetPowered(enabled),
            RequestStep::ListRadios(enabled) => RequestStepView::ListRadios(enabled),
            RequestStep::SwitchRadio { enabled, id } => RequestStepView::SwitchRadio {
                enabled,
                id: id@,
            },
            RequestStep::WakeUp => RequestStepView::WakeUp,
            RequestStep::OpenDevice { address, call } => RequestStepView::OpenDevice {
                address,
                call,
            },
            RequestStep::Call(call) => RequestStepView::Call(call),
            RequestStep::Trust => RequestStepView::Trust,
            RequestStep::AbortActive(request) => RequestStepView::AbortActive(request),
            RequestStep::Report(Some(error)) => RequestStepView::Report(Some(error@)),
            RequestStep::Report(None) => RequestStepView::Report(None),
        }
    }
}

impl View for StepOutcome {
    type V = StepOutcomeView;

    open spec fn view(&self) -> StepOutcomeView {
        match *self {
            StepOutcome::Done => StepOutcomeView::Done,
            StepOutcome::Failed(error) => StepOutcomeView::Failed(error@),
            StepOutcome::Printed(output) => StepOutcomeView::Printed(output@),
            StepOutcome::Found(found) => StepOutcomeView::Found(found),
        }
    }
}

impl StepOutcomeView {
    /// The error of a step that failed.
    pub open spec fn error(self) -> Option<Seq<char>> {
        match self {
            StepOutcomeView::Failed(error) => Some(error),
            _ => None,
        }
    }
}

/// The step that a request starts with.
pub open spec fn first(request: BluerRequest) -> RequestStepView {
    match request {
        BluerRequest::SetBluetoothEnabled(enabled) => RequestStepView::SetPowered(enabled),
        BluerRequest::PairDevice(address) => RequestStepView::OpenDevice {
            address,
            call: DeviceCall::Pair,
        },
        BluerRequest::ConnectDevice(address) => RequestStepView::OpenDevice {
            address,
            call: DeviceCall::Connect,
        },
        BluerRequest::DisconnectDevice(address) => RequestStepView::OpenDevice {
            address,
            call: DeviceCall::Disconnect,
        },
        BluerRequest::CancelConnect(_) => RequestStepView::AbortActive(request),
        BluerRequest::StateUpdate => RequestStepView::Report(None),
    }
}

/// The step after the radio of the adapter was switched, or not found.
pub open spec fn after_radio(enabled: bool) -> RequestStepView {
    if enabled {
        RequestStepView::WakeUp
    } else {
        RequestStepView::Report(None)
    }
}

/// The step that follows `step`, for an adapter of the given name. An outcome
/// that is no failure counts as done wherever more is not asked of it.
pub open spec fn following(
    step: RequestStepView,
    outcome: StepOutcomeView,
    adapter: Seq<char>,
) -> RequestStepView {
    match step {
        RequestStepView::SetPowered(enabled) => RequestStepView::ListRadios(enabled),
        RequestStepView::ListRadios(enabled) => match outcome {
            StepOutcomeView::Printed(output) => match radio_id_in(output, adapter) {
                Some(id) => RequestStepView::SwitchRadio { enabled, id },
                None => after_radio(enabled),
            },
            _ => after_radio(enabled),
        },
        RequestStepView::SwitchRadio { enabled, .. } => after_radio(enabled),
        RequestStepView::WakeUp => RequestStepView::Report(None),
        RequestStepView::OpenDevice { call, .. } => match outcome.error() {
            Some(error) => RequestStepView::Report(Some(error)),
            None => RequestStepView::Call(call),
        },
        RequestStepView::Call(call) => match outcome.error() {
            Some(error) => RequestStepView::Report(Some(error)),
            None => if call == DeviceCall::Disconnect {
                RequestStepView::Report(None)
            } else {
                RequestStepView::Trust
            },
        },
        RequestStepView::Trust => RequestStepView::Report(None),
        RequestStepView::AbortActive(_) => if outcome == StepOutcomeView::Found(true) {
            RequestStepView::Report(None)
        } else {
            RequestStepView::Report(Some(NO_ACTIVE_REQUEST@))
        },
        RequestStepView::Report(error) => RequestStepView::Report(error),
    }
}

/// The step that a request starts with.
pub fn first_step(request: &BluerRequest) -> (step: RequestStep)
    ensures
        step@ == first(*request),
        request matches BluerRequest::PairDevice(opened) ==> step == (RequestStep::OpenDevice {
            address: *opened,
            call: DeviceCall::Pair,
        }),
        request matches BluerRequest::ConnectDevice(opened) ==> step == (RequestStep::OpenDevice {
            address: *opened,
            call: DeviceCall::Connect,
        }),
        request matches BluerRequest::DisconnectDevice(opened) ==> step == (
        RequestStep::OpenDevice { address: *opened, call: DeviceCall::Disconnect }),
        request matches BluerRequest::SetBluetoothEnabled(enabled) ==> step
            == RequestStep::SetPowered(*enabled),
        *request is CancelConnect ==> step == RequestStep::AbortActive(*request),
        *request is StateUpdate ==> step == RequestStep::Report(None),
{
    match request {
        BluerRequest::SetBluetoothEnabled(enabled) => RequestStep::SetPowered(*enabled),
        BluerRequest::PairDevice(address) => RequestStep::OpenDevice {
            address: *address,
            call: DeviceCall::Pair,
        },
        BluerRequest::ConnectDevice(address) => RequestStep::OpenDevice {
            address: *address,
            call: DeviceCall::Connect,
        },
        BluerRequest::DisconnectDevice(address) => RequestStep::OpenDevice {
            address: *address,
            call: DeviceCall::Disconnect,
        },
        BluerRequest::CancelConnect(_) => RequestStep::AbortActive(*request),
        BluerRequest::StateUpdate => RequestStep::Report(None),
    }
}

fn step_after_radio(enabled: bool) -> (step: RequestStep)
    ensures
        step@ == after_radio(enabled),
{
    if enabled {
        RequestStep::WakeUp
    } else {
        RequestStep::Report(None)
    }
}

/// The step that follows `step`, for an adapter of the given name.
pub fn next_step(step: RequestStep, outcome: StepOutcome, adapter: &str) -> (next: RequestStep)
    ensures
        next@ == following(step@, outcome@, adapter@),
{
    match step {
        RequestStep::SetPowered(enabled) => RequestStep::ListRadios(enabled),
        RequestStep::ListRadios(enabled) => match outcome {
            StepOutcome::Printed(output) => match radio_id(output, adapter) {
                Some(id) => RequestStep::SwitchRadio { enabled, id },
                None => step_after_radio(enabled),
            },
            _ => step_after_radio(enabled),
        },
        RequestStep::SwitchRadio { enabled, .. } => step_after_radio(enabled),
        RequestStep::WakeUp => RequestStep::Report(None),
        RequestStep::OpenDevice { call, .. } => match outcome {
            StepOutcome::Failed(error) => RequestStep::Report(Some(error)),
            _ => RequestStep::Call(call),
        },
        RequestStep::Call(call) => match outcome {
            StepOutcome::Failed(error) => RequestStep::Report(Some(error)),
            _ => match call {
                DeviceCall::Disconnect => RequestStep::Report(None),
                DeviceCall::Pair | DeviceCall::Connect => RequestStep::Trust,
            },
        },
        RequestStep::Trust => RequestStep::Report(None),
        RequestStep::AbortActive(_) => match outcome {
            StepOutcome::Found(true) => RequestStep::Report(None),
            _ => RequestStep::Report(Some(NO_ACTIVE_REQUEST.to_owned())),
        },
        RequestStep::Report(error) => RequestStep::Report(error),
    }
}

/// The answer to a request, with the state that it left behind.
pub fn answer<R>(
    request: BluerRequest,
    state: BluerState,
    error: Option<String>,
) -> (event: BluerSessionEvent<R>)
    ensures
        event == (BluerSessionEvent::<R>::RequestResponse { req: request, state, err_msg: error }),
{
    BluerSessionEvent::RequestResponse { req: request, state, err_msg: error }
}

/// An upper bound on the number of steps until the report.
pub open spec fn steps_left(step: RequestStepView) -> nat {
    match step {
        RequestStepView::SetPowered(_) => 4,
        RequestStepView::ListRadios(_) => 3,
        RequestStepView::SwitchRadio { .. } => 2,
        RequestStepView::WakeUp => 1,
        RequestStepView::OpenDevice { .. } => 3,
        RequestStepView::Call(_) => 2,
        RequestStepView::Trust => 1,
        RequestStepView::AbortActive(_) => 1,
        RequestStepView::Report(_) => 0,
    }
}

/// Every step brings a request closer to its report, whatever comes of it: a
/// request is answered after four steps at most.
pub proof fn law_request_is_answered(
    request: BluerRequest,
    step: RequestStepView,
    outcome: StepOutcomeView,
    adapter: Seq<char>,
)
    ensures
        steps_left(first(request)) <= 4,
        step is Report <==> steps_left(step) == 0,
        step !is Report ==> steps_left(following(step, outcome, adapter)) < steps_left(step),
{
}

/// The steps of a run from `step` on, up to and with the report. `outcomes`
/// says what comes of each step; no step comes twice in a run.
pub open spec fn run(
    step: RequestStepView,
    outcomes: spec_fn(RequestStepView) -> StepOutcomeView,
    adapter: Seq<char>,
) -> Seq<RequestStepView>
    decreases steps_left(step),
{
    if step is Report {
        seq![step]
    } else {
        seq![step] + run(following(step, outcomes(step), adapter), outcomes, adapter)
    }
}

/// A request to pair, connect or disconnect opens the device and makes the
/// call. The first error ends it and is answered. A device that was paired or
/// connected is trusted from then on; what comes of that is not answered.
pub proof fn law_device_request(
    request: BluerRequest,
    address: Address,
    call: DeviceCall,
    outcomes: spec_fn(RequestStepView) -> StepOutcomeView,
    adapter: Seq<char>,
)
    requires
        first(request) == (RequestStepView::OpenDevice { address, call }),
    ensures
        ({
            let open = RequestStepView::OpenDevice { address, call };
            let made = RequestStepView::Call(call);
            run(first(request), outcomes, adapter) == match outcomes(open).error() {
                Some(error) => seq![open, RequestStepView::Report(Some(error))],
                None => match outcomes(made).error() {
                    Some(error) => seq![open, made, RequestStepView::Report(Some(error))],
                    None => if call == DeviceCall::Disconnect {
                        seq![open, made, RequestStepView::Report(None)]
                    } else {
                        seq![open, made, RequestStepView::Trust, RequestStepView::Report(None)]
                    },
                },
            }
        }),
{
    reveal_with_fuel(run, 5);
    let open = RequestStepView::OpenDevice { address, call };
    let made = RequestStepView::Call(call);
    let report = |error: Option<Seq<char>>| RequestStepView::Report(error);
    match outcomes(open).error() {
        Some(error) => {
            assert(run(open, outcomes, adapter) =~= seq![open, report(Some(error))]);
        },
        None => match outcomes(made).error() {
            Some(error) => {
                assert(run(open, outcomes, adapter) =~= seq![open, made, report(Some(error))]);
            },
            None => if call == DeviceCall::Disconnect {
                assert(run(open, outcomes, adapter) =~= seq![open, made, report(None)]);
            } else {
                assert(run(open, outcomes, adapter) =~= seq![
                    open,
                    made,
                    RequestStepView::Trust,
                    report(None),
                ]);
            },
        },
    }
}

/// A request to switch Bluetooth switches the adapter, then the radio of the
/// adapter where `rfkill` lists it, and wakes up the watching task where it
/// switched on. It is answered without an error, whatever comes of the steps.
pub proof fn law_power_request(
    enabled: bool,
    outcomes: spec_fn(RequestStepView) -> StepOutcomeView,
    adapter: Seq<char>,
)
    ensures
        ({
            let list = RequestStepView::ListRadios(enabled);
            let switched = match outcomes(list) {
                StepOutcomeView::Printed(output) => match radio_id_in(output, adapter) {
                    Some(id) => seq![RequestStepView::SwitchRadio { enabled, id }],
                    None => Seq::empty(),
                },
                _ => Seq::empty(),
            };
            let woken = if enabled {
                seq![RequestStepView::WakeUp]
            } else {
                Seq::empty()
            };
            run(first(BluerRequest::SetBluetoothEnabled(enabled)), outcomes, adapter) == seq![
                RequestStepView::SetPowered(enabled),
                list,
            ] + switched + woken + seq![RequestStepView::Report(None)]
        }),
{
    reveal_with_fuel(run, 6);
    let list = RequestStepView::ListRadios(enabled);
    let begun = seq![RequestStepView::SetPowered(enabled), list];
    let report = seq![RequestStepView::Report(None)];
    let woken = if enabled {
        seq![RequestStepView::WakeUp]
    } else {
        Seq::empty()
    };
    let all = run(RequestStepView::SetPowered(enabled), outcomes, adapter);
    let next = following(list, outcomes(list), adapter);
    match next {
        RequestStepView::SwitchRadio { .. } => {
            assert(all =~= begun + seq![next] + woken + report);
        },
        _ => {
            assert(all =~= begun + Seq::<RequestStepView>::empty() + woken + report);
        },
    }
}

/// A request to cancel aborts the active request that it is filed under, and is
/// answered with an error where there is none.
pub proof fn law_cancel_request(
    address: Address,
    outcomes: spec_fn(RequestStepView) -> StepOutcomeView,
    adapter: Seq<char>,
)
    ensures
        ({
            let request = BluerRequest::CancelConnect(address);
            let abort = RequestStepView::AbortActive(request);
            run(first(request), outcomes, adapter) == seq![
                abort,
                RequestStepView::Report(
                    if outcomes(abort) == StepOutcomeView::Found(true) {
                        None
                    } else {
                        Some(NO_ACTIVE_REQUEST@)
                    },
                ),
            ]
        }),
{
    reveal_with_fuel(run, 3);
    let abort = RequestStepView::AbortActive(BluerRequest::CancelConnect(address));
    let last = following(abort, outcomes(abort), adapter);
    assert(run(abort, outcomes, adapter) =~= seq![abort, last]);
}

/// A request for the state does nothing but answer.
pub proof fn law_state_request(
    outcomes: spec_fn(RequestStepView) -> StepOutcomeView,
    adapter: Seq<char>,
)
    ensures
        run(first(BluerRequest::StateUpdate), outcomes, adapter) == seq![
            RequestStepView::Report(None),
        ],
{
}

/// A request to pair with an address opens the device with exactly that address and
/// makes this call on it. The first error ends it and is answered;
/// without one the device is trusted from then on.
pub proof fn law_pair_request(
    address: Address,
    outcomes: spec_fn(RequestStepView) -> StepOutcomeView,
    adapter: Seq<char>,
)
    ensures
        ({
            let open = RequestStepView::OpenDevice { address, call: DeviceCall::Pair };
            let made = RequestStepView::Call(DeviceCall::Pair);
            let steps = run(first(BluerRequest::PairDevice(address)), outcomes, adapter);
            &&& steps[0] == open
            &&& outcomes(open) matches StepOutcomeView::Failed(error) ==> steps == seq![
                open,
                RequestStepView::Report(Some(error)),
            ]
            &&& outcomes(open) !is Failed ==> (outcomes(made) matches StepOutcomeView::Failed(error)
                ==> steps == seq![open, made, RequestStepView::Report(Some(error))])
            &&& outcomes(open) !is Failed && outcomes(made) !is Failed ==> steps == seq![
                open,
                made,
                RequestStepView::Trust,
                RequestStepView::Report(None),
            ]
        }),
{
    law_device_request(
        BluerRequest::PairDevice(address),
        address,
        DeviceCall::Pair,
        outcomes,
        adapter,
    );
}

/// A request to connect to an address opens the device with exactly that address and
/// makes this call on it. The first error ends it and is answered;
/// without one the device is trusted from then on.
pub proof fn law_connect_request(
    address: Address,
    outcomes: spec_fn(RequestStepView) -> StepOutcomeView,
    adapter: Seq<char>,
)
    ensures
        ({
            let open = RequestStepView::OpenDevice { address, call: DeviceCall::Connect };
            let made = RequestStepView::Call(DeviceCall::Connect);
            let steps = run(first(BluerRequest::ConnectDevice(address)), outcomes, adapter);
            &&& steps[0] == open
            &&& outcomes(open) matches StepOutcomeView::Failed(error) ==> steps == seq![
                open,
                RequestStepView::Report(Some(error)),
            ]
            &&& outcomes(open) !is Failed ==> (outcomes(made) matches StepOutcomeView::Failed(error)
                ==> steps == seq![open, made, RequestStepView::Report(Some(error))])
            &&& outcomes(open) !is Failed && outcomes(made) !is Failed ==> steps == seq![
                open,
                made,
                RequestStepView::Trust,
                RequestStepView::Report(None),
            ]
        }),
{
    law_device_request(
        BluerRequest::ConnectDevice(address),
        address,
        DeviceCall::Connect,
        outcomes,
        adapter,
    );
}

/// A request to disconnect from an address opens the device with exactly that address and
/// makes this call on it. The first error ends it and is answered;
/// the device is not trusted on account of it.
pub proof fn law_disconnect_request(
    address: Address,
    outcomes: spec_fn(RequestStepView) -> StepOutcomeView,
    adapter: Seq<char>,
)
    ensures
        ({
            let open = RequestStepView::OpenDevice { address, call: DeviceCall::Disconnect };
            let made = RequestStepView::Call(DeviceCall::Disconnect);
            let steps = run(first(BluerRequest::DisconnectDevice(address)), outcomes, adapter);
            &&& steps[0] == open
            &&& outcomes(open) matches StepOutcomeView::Failed(error) ==> steps == seq![
                open,
                RequestStepView::Report(Some(error)),
            ]
            &&& outcomes(open) !is Failed ==> (outcomes(made) matches StepOutcomeView::Failed(error)
                ==> steps == seq![open, made, RequestStepView::Report(Some(error))])
            &&& outcomes(open) !is Failed && outcomes(made) !is Failed ==> steps == seq![
                open,
                made,
                RequestStepView::Report(None),
            ]
        }),
{
    law_device_request(
        BluerRequest::DisconnectDevice(address),
        address,
        DeviceCall::Disconnect,
        outcomes,
        adapter,
    );
}

/// Where there is no active request to cancel, for whatever request was asked,
/// the answer says so in these words; a report stays as it is.
pub proof fn law_step_after_abort_or_report(
    request: BluerRequest,
    outcome: StepOutcomeView,
    error: Option<Seq<char>>,
    adapter: Seq<char>,
)
    ensures
        following(RequestStepView::AbortActive(request), outcome, adapter)
            == RequestStepView::Report(None) <==> outcome == StepOutcomeView::Found(true),
        outcome != StepOutcomeView::Found(true) ==> following(
            RequestStepView::AbortActive(request),
            outcome,
            adapter,
        ) == RequestStepView::Report(Some("No active connection request found"@)),
        following(RequestStepView::Report(error), outcome, adapter) == RequestStepView::Report(
            error,
        ),
{
}

/// A request switches a radio on only where it switches Bluetooth on, and off
/// only where it switches it off, and wakes up the watching task only where it
/// switches it on. It switches the power before it looks for the radio.
pub proof fn law_radio_follows_power(
    enabled: bool,
    outcomes: spec_fn(RequestStepView) -> StepOutcomeView,
    adapter: Seq<char>,
    i: int,
)
    requires
        0 <= i < run(
            first(BluerRequest::SetBluetoothEnabled(enabled)),
            outcomes,
            adapter,
        ).len(),
    ensures
        ({
            let steps = run(first(BluerRequest::SetBluetoothEnabled(enabled)), outcomes, adapter);
            &&& steps[0] == RequestStepView::SetPowered(enabled)
            &&& steps[1] == RequestStepView::ListRadios(enabled)
            &&& steps[i] matches RequestStepView::SwitchRadio { enabled: switched, id } ==> {
                &&& i == 2
                &&& switched == enabled
                &&& outcomes(steps[1]) matches StepOutcomeView::Printed(output) && radio_id_in(
                    output,
                    adapter,
                ) == Some(id)
            }
            &&& steps[i] is WakeUp ==> enabled
            &&& steps[i] matches RequestStepView::Report(error) ==> error is None && i
                == steps.len() - 1
        }),
{
    law_power_request(enabled, outcomes, adapter);
}

/// A step and its view say the same, and so do an outcome and its view.
pub proof fn law_views_of_steps(step: RequestStep, outcome: StepOutcome)
    ensures
        step matches RequestStep::SetPowered(enabled) ==> step@ == RequestStepView::SetPowered(
            enabled,
        ),
        step matches RequestStep::ListRadios(enabled) ==> step@ == RequestStepView::ListRadios(
            enabled,
        ),
        step matches RequestStep::SwitchRadio { enabled, id } ==> step@ == (
        RequestStepView::SwitchRadio { enabled, id: id@ }),
        step is WakeUp ==> step@ is WakeUp,
        step matches RequestStep::OpenDevice { address, call } ==> step@ == (
        RequestStepView::OpenDevice { address, call }),
        step matches RequestStep::Call(call) ==> step@ == RequestStepView::Call(call),
        step is Trust ==> step@ is Trust,
        step matches RequestStep::AbortActive(request) ==> step@ == RequestStepView::AbortActive(
            request,
        ),
        step matches RequestStep::Report(Some(error)) ==> step@ == RequestStepView::Report(
            Some(error@),
        ),
        step matches RequestStep::Report(None) ==> step@ == RequestStepView::Report(None),
        outcome is Done ==> outcome@ is Done,
        outcome matches StepOutcome::Failed(error) ==> outcome@ == StepOutcomeView::Failed(error@),
        outcome matches StepOutcome::Printed(output) ==> outcome@ == StepOutcomeView::Printed(
            output@,
        ),
        outcome matches StepOutcome::Found(found) ==> outcome@ == StepOutcomeView::Found(found),
{
}

} // verus!
