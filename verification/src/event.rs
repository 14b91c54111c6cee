//! The messages between the applet, the session and the agent.
//!
//! `Q` stands for the channel on which requests are sent, `R` for the channel
//! on which the user's answer to a question comes back.

use crate::address::Address;
use crate::device::BluerDevice;
use crate::property::Uuid;
use crate::state::BluerState;
use vstd::prelude::*;

verus! {

/// What the applet asks of the session.
#[derive(Clone, Copy, Debug, Eq, Hash)]
pub enum BluerRequest {
    SetBluetoothEnabled(bool),
    PairDevice(Address),
    ConnectDevice(Address),
    DisconnectDevice(Address),
    CancelConnect(Address),
    StateUpdate,
}

impl PartialEq for BluerRequest {
    fn eq(&self, other: &Self) -> (same: bool) {
        match (self, other) {
            (
                BluerRequest::SetBluetoothEnabled(a),
                BluerRequest::SetBluetoothEnabled(b),
            ) => *a == *b,
            (BluerRequest::PairDevice(a), BluerRequest::PairDevice(b)) => *a == *b,
            (BluerRequest::ConnectDevice(a), BluerRequest::ConnectDevice(b)) => *a == *b,
            (BluerRequest::DisconnectDevice(a), BluerRequest::DisconnectDevice(b)) => *a == *b,
            (BluerRequest::CancelConnect(a), BluerRequest::CancelConnect(b)) => *a == *b,
            (BluerRequest::StateUpdate, BluerRequest::StateUpdate) => true,
            _ => false,
        }
    }
}

impl vstd::std_specs::cmp::PartialEqSpecImpl for BluerRequest {
    open spec fn obeys_eq_spec() -> bool {
        true
    }

    open spec fn eq_spec(&self, other: &Self) -> bool {
        *self == *other
    }
}

/// A question, or a code to show, that comes up while devices pair.
#[derive(Clone, Debug)]
pub enum BluerAgentEvent<R> {
    DisplayPinCode(BluerDevice, String),
    DisplayPasskey(BluerDevice, String),
    RequestPinCode(BluerDevice),
    RequestPasskey(BluerDevice),
    RequestConfirmation(BluerDevice, String, R),
    RequestDeviceAuthorization(BluerDevice, R),
    RequestServiceAuthorization(BluerDevice, Uuid, R),
}

/// What the session tells the listener.
#[derive(Clone, Debug)]
pub enum BluerSessionEvent<R> {
    RequestResponse { req: BluerRequest, state: BluerState, err_msg: Option<String> },
    ChangesProcessed(BluerState),
    ChangeStreamEnded,
    AgentEvent(BluerAgentEvent<R>),
}

/// What the listener tells the applet.
#[derive(Clone, Debug)]
pub enum BluerEvent<Q, R> {
    RequestResponse { req: BluerRequest, state: BluerState, err_msg: Option<String> },
    Init { sender: Q, state: BluerState },
    DevicesChanged { state: BluerState },
    AgentEvent(BluerAgentEvent<R>),
    Finished,
}

/// What a task of the session does to the outside.
pub enum SessionEffect<R> {
    /// Send a request to the session.
    Request(BluerRequest),
    /// Wake up the task that watches for changes.
    WakeUp,
    /// Tell the listener.
    Publish(BluerSessionEvent<R>),
}

/// Requests are equal exactly where they ask for the same thing of the same
/// device.
pub proof fn law_request_equality(a: BluerRequest, b: BluerRequest)
    ensures
        vstd::std_specs::cmp::PartialEqSpec::eq_spec(&a, &b) <==> a == b,
{
}

} // verus!
