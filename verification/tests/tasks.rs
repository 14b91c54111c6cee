use bluetooth::address::Address;
use bluetooth::agent::{
    answer_to, consent, put_to_user, AgentAnswer, AgentReply, AgentRequest, ReqError,
};
use bluetooth::backoff::{doubled, retry_delay};
use bluetooth::changes::{stream_ended, ChangeAction, ChangeEvent, ChangeWatch, FIRST_TIMEOUT};
use bluetooth::device::{BluerDevice, BluerDeviceStatus, DeviceReading};
use bluetooth::event::{BluerAgentEvent, BluerEvent, BluerRequest, BluerSessionEvent, SessionEffect};
use bluetooth::listening::{
    session_closed, session_event, session_failed, session_started, Duty, ListenerEffect, State,
};
use bluetooth::passkey::{passkey, passkey_text, pin_code};
use bluetooth::power::{PowerWatch, POWER_POLL_SECONDS};
use bluetooth::property::{DeviceProperty, Uuid};
use bluetooth::session::BluerSessionState;
use bluetooth::state::{bluer_state, powered_on, reconnect_new, BluerState};

type Session = BluerSessionState<&'static str, &'static str, u8, u16, u32>;
type Listener = State<&'static str, &'static str, u8, u16, u32>;
type Effects = Vec<ListenerEffect<u16, char>>;

fn device(last: u8, trusted: bool) -> BluerDevice {
    BluerDevice {
        name: format!("device {}", last),
        address: Address([0, 0, 0, 0, 0, last]),
        status: BluerDeviceStatus::Paired,
        properties: vec![DeviceProperty::Paired(true), DeviceProperty::Trusted(trusted)],
        icon: "bluetooth-symbolic".to_string(),
    }
}

fn state(enabled: bool) -> BluerState {
    BluerState {
        devices: vec![device(1, true), device(2, false), device(3, true)],
        bluetooth_enabled: enabled,
    }
}

fn asked(requests: &Vec<BluerRequest>) -> Vec<u8> {
    requests
        .iter()
        .map(|r| match r {
            BluerRequest::ConnectDevice(address) => address.0[5],
            _ => panic!(),
        })
        .collect()
}

fn reading() -> DeviceReading<String> {
    DeviceReading {
        address: Address([9; 6]),
        name: Ok(Some("Mouse".to_string())),
        paired: Ok(false),
        connected: Ok(false),
        properties: Ok(vec![]),
    }
}

fn put(request: AgentRequest<char>) -> BluerAgentEvent<char> {
    match put_to_user(request, Ok(reading())) {
        Ok(BluerSessionEvent::AgentEvent(event)) => event,
        _ => panic!(),
    }
}

fn session() -> Session {
    BluerSessionState::new("guard", "hci0", 1, 2, 3)
}

#[test]
fn power_that_cannot_be_read_is_off() {
    assert!(powered_on::<()>(Ok(true)));
    assert!(!powered_on::<()>(Ok(false)));
    assert!(!powered_on(Err("e")));
    assert!(!bluer_state(vec![], Err("e")).bluetooth_enabled);
    let read = bluer_state::<()>(vec![device(4, true)], Ok(true));
    assert!(read.bluetooth_enabled);
    assert_eq!(read.devices.len(), 1);
}

#[test]
fn default_state_is_empty_and_off() {
    let state = BluerState::default();
    assert!(state.devices.is_empty());
    assert!(!state.bluetooth_enabled);
}

#[test]
fn reconnection_asks_for_bonded_devices() {
    assert_eq!(asked(&state(true).reconnect()), vec![1, 3]);
    assert!(state(false).reconnect().is_empty());
}

#[test]
fn known_devices_are_not_reconnected() {
    let devices = state(true).devices;
    assert_eq!(asked(&reconnect_new(&devices, &vec![device(1, false)])), vec![3]);
    assert!(reconnect_new(&devices, &devices).is_empty());
    assert_eq!(asked(&reconnect_new(&devices, &vec![])), vec![1, 3]);
}

#[test]
fn power_is_reported_when_it_changes() {
    let mut watch = PowerWatch::new::<()>(Ok(false));
    assert!(!watch.observe::<()>(Ok(false)));
    assert!(!watch.observe(Err("e")));
    assert!(watch.observe::<()>(Ok(true)));
    assert!(!watch.observe::<()>(Ok(true)));
    assert!(watch.observe(Err("e")));
    assert_eq!(POWER_POLL_SECONDS, 5);
}

#[test]
fn power_on_reconnects_wakes_and_publishes() {
    let watch = PowerWatch::new::<()>(Ok(true));
    let effects: Vec<SessionEffect<()>> = watch.report(state(true).devices);
    assert_eq!(effects.len(), 4);
    assert!(matches!(&effects[0], SessionEffect::Request(BluerRequest::ConnectDevice(a)) if a.0[5] == 1));
    assert!(matches!(&effects[1], SessionEffect::Request(BluerRequest::ConnectDevice(a)) if a.0[5] == 3));
    assert!(matches!(&effects[2], SessionEffect::WakeUp));
    match &effects[3] {
        SessionEffect::Publish(BluerSessionEvent::ChangesProcessed(state)) => {
            assert!(state.bluetooth_enabled);
            assert_eq!(state.devices.len(), 3);
        }
        _ => panic!(),
    }
}

#[test]
fn power_off_reconnects_nothing() {
    let watch = PowerWatch::new::<()>(Ok(false));
    let effects: Vec<SessionEffect<()>> = watch.report(state(true).devices);
    assert_eq!(effects.len(), 2);
    assert!(matches!(&effects[0], SessionEffect::WakeUp));
    assert!(matches!(
        &effects[1],
        SessionEffect::Publish(BluerSessionEvent::ChangesProcessed(s)) if !s.bluetooth_enabled
    ));
}

#[test]
fn discovery_waits_longer_each_time() {
    let mut watch = ChangeWatch::new();
    assert_eq!(watch.discovery_failed(), 10);
    assert_eq!(watch.discovery_failed(), 20);
    assert_eq!(watch.discovery_failed(), 40);
    watch.discovery_started();
    assert_eq!(watch.timeout, FIRST_TIMEOUT);
    assert_eq!(watch.timeout, 10);
}

#[test]
fn timeouts_double_the_wait() {
    let mut watch = ChangeWatch::new();
    for _ in 0..3 {
        assert_eq!(watch.observe(ChangeEvent::TimedOut), ChangeAction::WaitAgain);
    }
    assert_eq!(watch.timeout, 80);
    for _ in 0..70 {
        watch.observe(ChangeEvent::TimedOut);
    }
    assert_eq!(watch.timeout, u64::MAX);
    assert_eq!(watch.observe(ChangeEvent::StreamEnded), ChangeAction::Restart);
    assert_eq!(watch.timeout, 10);
}

#[test]
fn change_and_wake_up_refresh() {
    let mut watch = ChangeWatch::new();
    watch.observe(ChangeEvent::TimedOut);
    assert_eq!(watch.observe(ChangeEvent::Changed), ChangeAction::Refresh);
    assert_eq!(watch.observe(ChangeEvent::WokenUp), ChangeAction::Refresh);
    assert_eq!(watch.timeout, 20);
}

#[test]
fn refresh_reconnects_new_devices_once() {
    let mut watch = ChangeWatch::new();
    watch.observe(ChangeEvent::TimedOut);
    assert_eq!(asked(&watch.refresh(state(true).devices)), vec![1, 3]);
    assert!(watch.refresh(state(true).devices).is_empty());
    assert_eq!(asked(&watch.refresh(vec![device(3, true), device(7, true)])), vec![7]);
    let event: BluerSessionEvent<()> = watch.publish(vec![device(8, true)], Err("e"));
    match event {
        BluerSessionEvent::ChangesProcessed(state) => {
            assert!(!state.bluetooth_enabled);
            assert_eq!(state.devices[0].address.0[5], 8);
        }
        _ => panic!(),
    }
    assert_eq!(watch.timeout, 10);
    assert_eq!(watch.known.len(), 2);
    watch.discovery_started();
    assert_eq!(asked(&watch.refresh(vec![device(3, true)])), vec![3]);
}

#[test]
fn pauses_double_up_to_the_longest() {
    assert_eq!(retry_delay(0), 1);
    assert_eq!(retry_delay(1), 2);
    assert_eq!(retry_delay(10), 1024);
    assert_eq!(retry_delay(63), 1 << 63);
    assert_eq!(retry_delay(64), u64::MAX);
    assert_eq!(retry_delay(u32::MAX), u64::MAX);
    assert_eq!(doubled(0), 0);
    assert_eq!(doubled(u64::MAX / 2), u64::MAX - 1);
    assert_eq!(doubled(u64::MAX / 2 + 1), u64::MAX);
}

#[test]
fn passkeys_in_six_digits() {
    assert_eq!(passkey_text(0), "000000");
    assert_eq!(passkey_text(42), "000042");
    assert_eq!(passkey_text(100_000), "100000");
    assert_eq!(passkey_text(999_999), "999999");
    assert_eq!(passkey_text(1_234_567), "1234567");
    assert_eq!(passkey_text(u32::MAX), "4294967295");
}

#[test]
fn codes_are_drawn_in_range() {
    let mut least: u32 = u32::MAX;
    let mut most: u32 = 0;
    for _ in 0..1000 {
        let number = passkey();
        assert!(number < 999_999);
        least = least.min(number);
        most = most.max(number);
        let code = pin_code();
        assert_eq!(code.len(), 6);
        assert!(code.parse::<u32>().unwrap() < 999_999);
    }
    assert!(least < most);
}

#[test]
fn agent_shows_codes() {
    match put(AgentRequest::DisplayPinCode("12ab".to_string())) {
        BluerAgentEvent::DisplayPinCode(d, code) => {
            assert_eq!(d.name, "Mouse");
            assert_eq!(code, "12ab");
        }
        _ => panic!(),
    }
    match put(AgentRequest::DisplayPasskey(7)) {
        BluerAgentEvent::DisplayPasskey(_, code) => assert_eq!(code, "000007"),
        _ => panic!(),
    }
}

#[test]
fn agent_asks_the_user() {
    assert!(matches!(put(AgentRequest::RequestPinCode), BluerAgentEvent::RequestPinCode(_)));
    assert!(matches!(put(AgentRequest::RequestPasskey), BluerAgentEvent::RequestPasskey(_)));
    match put(AgentRequest::RequestConfirmation(1234, 'c')) {
        BluerAgentEvent::RequestConfirmation(_, code, reply) => {
            assert_eq!(code, "001234");
            assert_eq!(reply, 'c');
        }
        _ => panic!(),
    }
    assert!(matches!(
        put(AgentRequest::RequestAuthorization('d')),
        BluerAgentEvent::RequestDeviceAuthorization(_, 'd')
    ));
    assert!(matches!(
        put(AgentRequest::AuthorizeService(Uuid(5), 'e')),
        BluerAgentEvent::RequestServiceAuthorization(_, Uuid(5), 'e')
    ));
}

#[test]
fn agent_rejects_a_device_it_cannot_open() {
    let refused = put_to_user(AgentRequest::<char>::RequestPinCode, Err("gone".to_string()));
    assert!(matches!(refused, Err(ReqError::Rejected)));
}

#[test]
fn only_yes_is_consent() {
    assert_eq!(consent(Some(true)), Ok(()));
    assert_eq!(consent(Some(false)), Err(ReqError::Rejected));
    assert_eq!(consent(None), Err(ReqError::Rejected));
}

#[test]
fn listener_starts_by_connecting() {
    assert!(matches!(Listener::new().begin(), Duty::Connect { retry_count: 0 }));
}

#[test]
fn failed_session_is_tried_again_later() {
    let (effects, next): (Effects, Listener) = session_failed(3);
    assert!(matches!(effects[..], [ListenerEffect::Sleep(8)]));
    assert!(matches!(next, State::Ready(4)));
    let (effects, next): (Effects, Listener) = session_failed(u32::MAX);
    assert!(matches!(effects[..], [ListenerEffect::Sleep(u64::MAX)]));
    assert!(matches!(next, State::Ready(u32::MAX)));
}

#[test]
fn started_session_reconnects_and_announces_itself() {
    let (effects, next): (Effects, Listener) = session_started(session(), 2, state(true));
    assert_eq!(effects.len(), 3);
    assert!(matches!(&effects[0], ListenerEffect::Request(BluerRequest::ConnectDevice(a)) if a.0[5] == 1));
    assert!(matches!(&effects[1], ListenerEffect::Request(BluerRequest::ConnectDevice(a)) if a.0[5] == 3));
    assert!(matches!(
        &effects[2],
        ListenerEffect::Emit(BluerEvent::Init { sender: 2, state }) if state.devices.len() == 3
    ));
    assert!(matches!(next, State::Waiting { .. }));
    let (effects, _next): (Effects, Listener) = session_started(session(), 2, state(false));
    assert_eq!(effects.len(), 1);
}

#[test]
fn events_are_passed_on() {
    let mut listener: Listener = State::Waiting { session_state: session() };
    let events: Vec<BluerSessionEvent<char>> = vec![
        BluerSessionEvent::ChangesProcessed(state(true)),
        BluerSessionEvent::ChangeStreamEnded,
        BluerSessionEvent::RequestResponse {
            req: BluerRequest::StateUpdate,
            state: state(false),
            err_msg: Some("e".to_string()),
        },
        BluerSessionEvent::AgentEvent(BluerAgentEvent::RequestPasskey(device(1, true))),
    ];
    let mut told: Effects = vec![];
    for event in events {
        match listener.begin() {
            Duty::Receive { session_state, rx } => {
                assert_eq!(rx, 1);
                let (effects, next) = session_event(session_state, rx, Some(event));
                told.extend(effects);
                listener = next;
            }
            _ => panic!(),
        }
    }
    assert_eq!(told.len(), 3);
    assert!(matches!(&told[0], ListenerEffect::Emit(BluerEvent::DevicesChanged { state }) if state.bluetooth_enabled));
    assert!(matches!(
        &told[1],
        ListenerEffect::Emit(BluerEvent::RequestResponse { req: BluerRequest::StateUpdate, err_msg: Some(e), .. }) if e == "e"
    ));
    assert!(matches!(&told[2], ListenerEffect::Emit(BluerEvent::AgentEvent(BluerAgentEvent::RequestPasskey(_)))));
    assert!(matches!(listener.begin(), Duty::Receive { rx: 1, .. }));
}

#[test]
fn closed_channel_ends_the_listener() {
    let mut deaf = session();
    assert_eq!(deaf.take_rx(), Some(1));
    let (effects, next): (Effects, Listener) = session_event(deaf, 1, None);
    assert!(matches!(effects[..], [ListenerEffect::Emit(BluerEvent::Finished)]));
    assert!(matches!(next.begin(), Duty::Rest));
}

#[test]
fn missing_channel_ends_the_listener() {
    let mut deaf = session();
    assert_eq!(deaf.take_rx(), Some(1));
    assert_eq!(deaf.take_rx(), None);
    let listener: Listener = State::Waiting { session_state: deaf };
    assert!(matches!(listener.begin(), Duty::Close));
    let (effects, next): (Effects, Listener) = session_closed();
    assert!(matches!(effects[..], [ListenerEffect::Emit(BluerEvent::Finished)]));
    assert!(matches!(next, State::Finished));
}

#[test]
fn wake_up_channel_is_taken_once() {
    let mut session = session();
    assert_eq!(session.take_wake_up(), Some(3));
    assert_eq!(session.take_wake_up(), None);
    assert_eq!(session.rx, Some(1));
    assert_eq!(session.adapter, "hci0");
    assert_eq!(session.req_tx, 2);
    session.put_rx(9);
    assert_eq!(session.rx, Some(9));
}

#[test]
fn questions_wait_for_consent() {
    let cases: Vec<(AgentRequest<char>, AgentReply)> = vec![
        (AgentRequest::RequestPinCode, AgentReply::PinCode),
        (AgentRequest::RequestPasskey, AgentReply::Passkey),
        (AgentRequest::DisplayPinCode("1".to_string()), AgentReply::Acknowledge),
        (AgentRequest::DisplayPasskey(1), AgentReply::Acknowledge),
        (AgentRequest::RequestConfirmation(1, 'a'), AgentReply::Consent),
        (AgentRequest::RequestAuthorization('b'), AgentReply::Consent),
        (AgentRequest::AuthorizeService(Uuid(1), 'c'), AgentReply::Consent),
    ];
    for (request, reply) in cases {
        assert_eq!(request.reply(), reply);
    }
}

#[test]
fn answers_to_bluez() {
    assert!(matches!(answer_to(AgentReply::Acknowledge, None), Ok(AgentAnswer::Done)));
    assert!(matches!(answer_to(AgentReply::Acknowledge, Some(false)), Ok(AgentAnswer::Done)));
    assert!(matches!(answer_to(AgentReply::Consent, Some(true)), Ok(AgentAnswer::Done)));
    assert!(matches!(answer_to(AgentReply::Consent, Some(false)), Err(ReqError::Rejected)));
    assert!(matches!(answer_to(AgentReply::Consent, None), Err(ReqError::Rejected)));
    assert!(matches!(answer_to(AgentReply::PinCode, None), Ok(AgentAnswer::PinCode(c)) if c.len() == 6));
    assert!(matches!(answer_to(AgentReply::Passkey, None), Ok(AgentAnswer::Passkey(n)) if n < 999_999));
}

#[test]
fn end_of_the_stream_is_published() {
    let event: BluerSessionEvent<()> = stream_ended();
    assert!(matches!(event, BluerSessionEvent::ChangeStreamEnded));
}

#[test]
fn run_of_readings_publishes_each_change() {
    let mut watch = PowerWatch::new::<()>(Ok(true));
    let mut told: Vec<bool> = vec![];
    for reading in [true, false, false, true, true, false] {
        if watch.observe::<()>(Ok(reading)) {
            let effects: Vec<SessionEffect<()>> = watch.report(vec![device(1, true)]);
            for effect in effects {
                if let SessionEffect::Publish(BluerSessionEvent::ChangesProcessed(state)) = effect {
                    told.push(state.bluetooth_enabled);
                }
            }
        }
    }
    assert_eq!(told, vec![false, true, false]);
}

#[test]
fn whole_life_of_the_listener() {
    let mut listener = Listener::new();
    let mut effects: Effects = vec![];
    for _ in 0..3 {
        let (done, next) = match listener.begin() {
            Duty::Connect { retry_count } => session_failed(retry_count),
            _ => panic!(),
        };
        effects.extend(done);
        listener = next;
    }
    let (done, next) = match listener.begin() {
        Duty::Connect { retry_count: 3 } => session_started(session(), 2, state(true)),
        _ => panic!(),
    };
    effects.extend(done);
    listener = next;
    let received = vec![
        Some(BluerSessionEvent::ChangesProcessed(state(false))),
        Some(BluerSessionEvent::ChangeStreamEnded),
        None,
    ];
    for event in received {
        let (done, next) = match listener.begin() {
            Duty::Receive { session_state, rx } => session_event(session_state, rx, event),
            _ => panic!(),
        };
        effects.extend(done);
        listener = next;
    }
    assert!(matches!(listener.begin(), Duty::Rest));
    assert!(matches!(effects[0], ListenerEffect::Sleep(1)));
    assert!(matches!(effects[1], ListenerEffect::Sleep(2)));
    assert!(matches!(effects[2], ListenerEffect::Sleep(4)));
    assert!(matches!(effects[3], ListenerEffect::Request(_)));
    assert!(matches!(effects[4], ListenerEffect::Request(_)));
    assert!(matches!(effects[5], ListenerEffect::Emit(BluerEvent::Init { .. })));
    assert!(matches!(effects[6], ListenerEffect::Emit(BluerEvent::DevicesChanged { .. })));
    assert!(matches!(effects[7], ListenerEffect::Emit(BluerEvent::Finished)));
    assert_eq!(effects.len(), 8);
}

#[test]
fn run_of_changes_publishes_each_round() {
    let rounds = [
        (ChangeEvent::TimedOut, vec![device(1, true)]),
        (ChangeEvent::Changed, vec![device(1, true), device(2, false)]),
        (ChangeEvent::TimedOut, vec![]),
        (ChangeEvent::WokenUp, vec![device(1, true), device(3, true)]),
        (ChangeEvent::StreamEnded, vec![]),
        (ChangeEvent::Changed, vec![device(1, true)]),
    ];
    let mut watch = ChangeWatch::new();
    watch.discovery_started();
    let mut done: Vec<String> = vec![];
    for (event, devices) in rounds {
        match watch.observe(event) {
            ChangeAction::WaitAgain => {}
            ChangeAction::Restart => {
                let told: BluerSessionEvent<()> = stream_ended();
                assert!(matches!(told, BluerSessionEvent::ChangeStreamEnded));
                done.push("ended".to_string());
                watch.discovery_started();
            }
            ChangeAction::Refresh => {
                let count = devices.len();
                for last in asked(&watch.refresh(devices.clone())) {
                    done.push(format!("connect {}", last));
                }
                let told: BluerSessionEvent<()> = watch.publish::<(), ()>(devices, Ok(true));
                match told {
                    BluerSessionEvent::ChangesProcessed(state) => {
                        assert_eq!(state.devices.len(), count);
                        done.push("state".to_string());
                    }
                    _ => panic!(),
                }
            }
        }
    }
    assert_eq!(
        done,
        vec!["connect 1", "state", "connect 3", "state", "ended", "connect 1", "state"]
    );
}
