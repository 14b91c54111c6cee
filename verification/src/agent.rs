//! The pairing agent: what the user is asked or shown, and what BlueZ is
//! answered.

use crate::device::{BluerDevice, DeviceReading};
use crate::event::{BluerAgentEvent, BluerSessionEvent};
use crate::passkey::{
    decimal_value, law_passkey_has_six_digits, law_passkey_reads_back, passkey, passkey_digits,
    passkey_text, pin_code,
};
use crate::property::Uuid;
use vstd::prelude::*;

verus! {

/// Why the agent refuses what BlueZ asked.
#[derive(Clone, Copy, Debug, PartialEq, Eq, Structural)]
pub enum ReqError {
    Rejected,
}

/// What BlueZ asks of the agent. `R` is the channel on which the user's answer
/// comes back.
#[derive(Debug)]
pub enum AgentRequest<R> {
    RequestPinCode,
    DisplayPinCode(String),
    RequestPasskey,
    DisplayPasskey(u32),
    RequestConfirmation(u32, R),
    RequestAuthorization(R),
    AuthorizeService(Uuid, R),
}

impl<R> AgentRequest<R> {
    /// Whether `event` puts the request about `device` to the user.
    pub open spec fn put_as(self, device: BluerDevice, event: BluerAgentEvent<R>) -> bool {
        match (self, event) {
            (AgentRequest::RequestPinCode, BluerAgentEvent::RequestPinCode(d)) => d == device,
            (AgentRequest::DisplayPinCode(code), BluerAgentEvent::DisplayPinCode(d, shown)) => {
                d == device && shown == code
            },
            (AgentRequest::RequestPasskey, BluerAgentEvent::RequestPasskey(d)) => d == device,
            (AgentRequest::DisplayPasskey(passkey), BluerAgentEvent::DisplayPasskey(d, shown)) => {
                d == device && shown@ == passkey_digits(passkey as nat)
            },
            (
                AgentRequest::RequestConfirmation(passkey, reply),
                BluerAgentEvent::RequestConfirmation(d, shown, to),
            ) => d == device && shown@ == passkey_digits(passkey as nat) && to == reply,
            (
                AgentRequest::RequestAuthorization(reply),
                BluerAgentEvent::RequestDeviceAuthorization(d, to),
            ) => d == device && to == reply,
            (
                AgentRequest::AuthorizeService(service, reply),
                BluerAgentEvent::RequestServiceAuthorization(d, uuid, to),
            ) => d == device && uuid == service && to == reply,
            _ => false,
        }
    }
}

/// What BlueZ waits for once a request was put to the user.
#[derive(Clone, Copy, Debug, PartialEq, Eq, Structural)]
pub enum AgentReply {
    /// That the request was taken in.
    Acknowledge,
    /// A pin code.
    PinCode,
    /// A passkey.
    Passkey,
    /// The consent of the user.
    Consent,
}

impl<R> AgentRequest<R> {
    /// What BlueZ waits for once the request was put to the user.
    pub open spec fn awaits(self) -> AgentReply {
        match self {
            AgentRequest::RequestPinCode => AgentReply::PinCode,
            AgentRequest::RequestPasskey => AgentReply::Passkey,
            AgentRequest::DisplayPinCode(_) | AgentRequest::DisplayPasskey(_) => {
                AgentReply::Acknowledge
            },
            _ => AgentReply::Consent,
        }
    }

    /// What BlueZ waits for: a code where it asks for one, the user's consent
    /// to a confirmation or an authorization, and nothing more where a code is
    /// only shown.
    pub fn reply(&self) -> (reply: AgentReply)
        ensures
            reply == self.awaits(),
            reply == match *self {
                AgentRequest::RequestPinCode => AgentReply::PinCode,
                AgentRequest::RequestPasskey => AgentReply::Passkey,
                AgentRequest::DisplayPinCode(_) => AgentReply::Acknowledge,
                AgentRequest::DisplayPasskey(_) => AgentReply::Acknowledge,
                AgentRequest::RequestConfirmation(_, _) => AgentReply::Consent,
                AgentRequest::RequestAuthorization(_) => AgentReply::Consent,
                AgentRequest::AuthorizeService(_, _) => AgentReply::Consent,
            },
    {
        match self {
            AgentRequest::RequestPinCode => AgentReply::PinCode,
            AgentRequest::RequestPasskey => AgentReply::Passkey,
            AgentRequest::DisplayPinCode(_) | AgentRequest::DisplayPasskey(_) => {
                AgentReply::Acknowledge
            },
            AgentRequest::RequestConfirmation(_, _) => AgentReply::Consent,
            AgentRequest::RequestAuthorization(_) => AgentReply::Consent,
            AgentRequest::AuthorizeService(_, _) => AgentReply::Consent,
        }
    }
}

/// What BlueZ is answered.
#[derive(Debug)]
pub enum AgentAnswer {
    Done,
    PinCode(String),
    Passkey(u32),
}

/// The event that puts a request about `device` to the user.
pub fn agent_event<R>(request: AgentRequest<R>, device: BluerDevice) -> (event: BluerAgentEvent<R>)
    ensures
        request.put_as(device, event),
{
    match request {
        AgentRequest::RequestPinCode => BluerAgentEvent::RequestPinCode(device),
        AgentRequest::DisplayPinCode(code) => BluerAgentEvent::DisplayPinCode(device, code),
        AgentRequest::RequestPasskey => BluerAgentEvent::RequestPasskey(device),
        AgentRequest::DisplayPasskey(passkey) => BluerAgentEvent::DisplayPasskey(
            device,
            passkey_text(passkey),
        ),
        AgentRequest::RequestConfirmation(passkey, reply) => BluerAgentEvent::RequestConfirmation(
            device,
            passkey_text(passkey),
            reply,
        ),
        AgentRequest::RequestAuthorization(reply) => BluerAgentEvent::RequestDeviceAuthorization(
            device,
            reply,
        ),
        AgentRequest::AuthorizeService(
            service,
            reply,
        ) => BluerAgentEvent::RequestServiceAuthorization(device, service, reply),
    }
}

/// What is told the listener on a request about a device that was opened, or
/// not. A request about a device that could not be opened is rejected.
pub fn put_to_user<E, R>(
    request: AgentRequest<R>,
    opened: Result<DeviceReading<E>, E>,
) -> (event: Result<BluerSessionEvent<R>, ReqError>)
    ensures
        match opened {
            Ok(reading) => event matches Ok(BluerSessionEvent::AgentEvent(put)) && exists|
                device: BluerDevice,
            |
                reading.shown_as(device) && #[trigger] request.put_as(device, put),
            Err(_) => event == Err::<BluerSessionEvent<R>, ReqError>(ReqError::Rejected),
        },
{
    match opened {
        Ok(reading) => {
            let device = BluerDevice::from_device(reading);
            let ghost shown = device;
            let put = agent_event(request, device);
            assert(reading.shown_as(shown) && request.put_as(shown, put));
            Ok(BluerSessionEvent::AgentEvent(put))
        },
        Err(_) => Err(ReqError::Rejected),
    }
}

/// The answer to BlueZ on what the user answered: consent only where the user
/// said yes. No answer is no consent.
pub fn consent(answer: Option<bool>) -> (reply: Result<(), ReqError>)
    ensures
        reply == if answer == Some(true) {
            Ok::<(), ReqError>(())
        } else {
            Err(ReqError::Rejected)
        },
{
    match answer {
        Some(true) => Ok(()),
        _ => Err(ReqError::Rejected),
    }
}

/// The answer to BlueZ on a request that was put to the user, with what the
/// user answered, where there was a question.
pub fn answer_to(reply: AgentReply, answer: Option<bool>) -> (given: Result<AgentAnswer, ReqError>)
    ensures
        match reply {
            AgentReply::Acknowledge => given == Ok::<AgentAnswer, ReqError>(AgentAnswer::Done),
            AgentReply::PinCode => given matches Ok(AgentAnswer::PinCode(code)) && exists|
                number: u32,
            |
                number < 999_999 && code@ == #[trigger] passkey_digits(number as nat),
            AgentReply::Passkey => given matches Ok(AgentAnswer::Passkey(number)) && number
                < 999_999,
            AgentReply::Consent => given == if answer == Some(true) {
                Ok::<AgentAnswer, ReqError>(AgentAnswer::Done)
            } else {
                Err(ReqError::Rejected)
            },
        },
{
    match reply {
        AgentReply::Acknowledge => Ok(AgentAnswer::Done),
        AgentReply::PinCode => Ok(AgentAnswer::PinCode(pin_code())),
        AgentReply::Passkey => Ok(AgentAnswer::Passkey(passkey())),
        AgentReply::Consent => match consent(answer) {
            Ok(()) => Ok(AgentAnswer::Done),
            Err(error) => Err(error),
        },
    }
}

/// What the user is told determines the request and the device: no two requests
/// are put in the same way.
pub proof fn law_event_tells_request<R>(
    first: AgentRequest<R>,
    second: AgentRequest<R>,
    device: BluerDevice,
    other: BluerDevice,
    event: BluerAgentEvent<R>,
)
    requires
        first.put_as(device, event),
        second.put_as(other, event),
    ensures
        first == second,
        device == other,
{
    match (first, second) {
        (AgentRequest::DisplayPasskey(a), AgentRequest::DisplayPasskey(b)) => {
            law_passkey_reads_back(a as nat);
            law_passkey_reads_back(b as nat);
        },
        (AgentRequest::RequestConfirmation(a, _), AgentRequest::RequestConfirmation(b, _)) => {
            law_passkey_reads_back(a as nat);
            law_passkey_reads_back(b as nat);
        },
        _ => {},
    }
}

/// What the user is told of each request: it is about the device that the
/// request is about; a pin code is shown as it came; the digits of a passkey are
/// shown, six of them where these are enough; and the answer goes to the channel
/// that came with the request.
pub proof fn law_user_is_told_the_request<R>(
    request: AgentRequest<R>,
    device: BluerDevice,
    event: BluerAgentEvent<R>,
)
    requires
        request.put_as(device, event),
    ensures
        request is RequestPinCode ==> event == BluerAgentEvent::<R>::RequestPinCode(device),
        request is RequestPasskey ==> event == BluerAgentEvent::<R>::RequestPasskey(device),
        request matches AgentRequest::DisplayPinCode(code) ==> event
            matches BluerAgentEvent::DisplayPinCode(about, shown) && about == device && shown@
            == code@,
        request matches AgentRequest::DisplayPasskey(number) ==> event
            matches BluerAgentEvent::DisplayPasskey(about, shown) && about == device
            && decimal_value(shown@) == number && shown@.len() >= 6 && (number <= 999_999
            ==> shown@.len() == 6) && forall|i: int|
            0 <= i < shown@.len() ==> '0' <= #[trigger] shown@[i] <= '9',
        request matches AgentRequest::RequestConfirmation(number, reply) ==> event
            matches BluerAgentEvent::RequestConfirmation(about, shown, to) && about == device && to
            == reply && decimal_value(shown@) == number && shown@.len() >= 6 && (number <= 999_999
            ==> shown@.len() == 6) && forall|i: int|
            0 <= i < shown@.len() ==> '0' <= #[trigger] shown@[i] <= '9',
        request matches AgentRequest::RequestAuthorization(reply) ==> event
            == BluerAgentEvent::<R>::RequestDeviceAuthorization(device, reply),
        request matches AgentRequest::AuthorizeService(service, reply) ==> event
            == BluerAgentEvent::<R>::RequestServiceAuthorization(device, service, reply),
{
    match request {
        AgentRequest::DisplayPasskey(number) | AgentRequest::RequestConfirmation(number, _) => {
            law_passkey_reads_back(number as nat);
            if number <= 999_999 {
                law_passkey_has_six_digits(number as nat);
            }
        },
        _ => {},
    }
}

/// BlueZ waits for the user's consent exactly where the user is asked for an
/// answer, for a code exactly where the user is told that one is asked for, and
/// for nothing more exactly where a code is shown.
pub proof fn law_reply_goes_with_the_question<R>(
    request: AgentRequest<R>,
    device: BluerDevice,
    event: BluerAgentEvent<R>,
)
    requires
        request.put_as(device, event),
    ensures
        request.awaits() == AgentReply::Consent <==> event is RequestConfirmation || event
            is RequestDeviceAuthorization || event is RequestServiceAuthorization,
        request.awaits() == AgentReply::PinCode <==> event is RequestPinCode,
        request.awaits() == AgentReply::Passkey <==> event is RequestPasskey,
        request.awaits() == AgentReply::Acknowledge <==> event is DisplayPinCode || event
            is DisplayPasskey,
{
}

} // verus!
