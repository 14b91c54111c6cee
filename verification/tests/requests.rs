use bluetooth::active::ActiveRequests;
use bluetooth::address::Address;
use bluetooth::event::{BluerRequest, BluerSessionEvent};
use bluetooth::request::{
    answer, first_step, next_step, DeviceCall, RequestStep, StepOutcome, NO_ACTIVE_REQUEST,
};
use bluetooth::rfkill::{find_id, is_white_space, radio_id, rfkill_command};
use bluetooth::state::BluerState;

const A: Address = Address([1, 2, 3, 4, 5, 6]);
const B: Address = Address([6, 5, 4, 3, 2, 1]);

fn fail() -> StepOutcome {
    StepOutcome::Failed("broken".to_string())
}

fn run(request: BluerRequest, outcomes: Vec<StepOutcome>) -> Vec<String> {
    let mut step = first_step(&request);
    let mut steps = vec![format!("{:?}", step)];
    for outcome in outcomes {
        step = next_step(step, outcome, "hci0");
        steps.push(format!("{:?}", step));
    }
    steps
}

#[test]
fn radio_id_is_found() {
    assert_eq!(find_id("0 phy0\n1 hci0\n", "hci0"), Some("1".to_string()));
    assert_eq!(find_id("  7 hci0 \r\n8 hci1", "hci1"), Some("8".to_string()));
    assert_eq!(find_id("0 hci0\n1 hci0", "hci0"), Some("0".to_string()));
}

#[test]
fn radio_id_is_not_found() {
    assert_eq!(find_id("", "hci0"), None);
    assert_eq!(find_id("0 hci01\n1 phy0", "hci0"), None);
    assert_eq!(find_id("hci0", "hci0"), None);
    assert_eq!(find_id("0  hci0", "hci0"), None);
    assert_eq!(find_id("0\thci0", "hci0"), None);
}

#[test]
fn row_keeps_what_follows_the_first_space() {
    assert_eq!(find_id("3 a b", "a b"), Some("3".to_string()));
    assert_eq!(find_id("3 a b", "b"), None);
}

#[test]
fn radio_id_in_printed_bytes() {
    assert_eq!(radio_id(b"0 phy0\n12 hci0\n".to_vec(), "hci0"), Some("12".to_string()));
    assert_eq!(radio_id("1 \u{e9}".as_bytes().to_vec(), "\u{e9}"), Some("1".to_string()));
    assert_eq!(radio_id(vec![b'0', b' ', 0xff], "hci0"), None);
    assert_eq!(radio_id(vec![0xff, b'\n', b'0', b' ', b'h'], "h"), None);
}

#[test]
fn white_space_is_that_of_unicode() {
    for c in '\0'..='\u{10ffff}' {
        assert_eq!(is_white_space(c), c.is_whitespace());
    }
}

#[test]
fn rfkill_commands() {
    assert_eq!(rfkill_command(true), "unblock");
    assert_eq!(rfkill_command(false), "block");
}

#[test]
fn switching_on() {
    let steps = run(
        BluerRequest::SetBluetoothEnabled(true),
        vec![
            fail(),
            StepOutcome::Printed(b"4 hci0\n".to_vec()),
            fail(),
            StepOutcome::Done,
        ],
    );
    assert_eq!(
        steps,
        vec![
            "SetPowered(true)",
            "ListRadios(true)",
            "SwitchRadio { enabled: true, id: \"4\" }",
            "WakeUp",
            "Report(None)",
        ]
    );
}

#[test]
fn switching_off_without_radio() {
    let off = BluerRequest::SetBluetoothEnabled(false);
    let expected = vec!["SetPowered(false)", "ListRadios(false)", "Report(None)"];
    let unlisted = StepOutcome::Printed(b"4 phy0\n".to_vec());
    assert_eq!(run(off, vec![StepOutcome::Done, unlisted]), expected);
    assert_eq!(run(off, vec![StepOutcome::Done, fail()]), expected);
}

#[test]
fn pairing_trusts_the_device() {
    let step = first_step(&BluerRequest::PairDevice(A));
    match &step {
        RequestStep::OpenDevice { address, call } => {
            assert!(*address == A);
            assert_eq!(*call, DeviceCall::Pair);
        }
        _ => panic!(),
    }
    let steps = run(
        BluerRequest::PairDevice(A),
        vec![StepOutcome::Done, StepOutcome::Done, fail()],
    );
    assert_eq!(steps[1..], ["Call(Pair)", "Trust", "Report(None)"]);
}

#[test]
fn connecting_reports_the_error() {
    let request = BluerRequest::ConnectDevice(A);
    let steps = run(request, vec![fail()]);
    assert_eq!(steps[1..], ["Report(Some(\"broken\"))"]);
    let steps = run(request, vec![StepOutcome::Done, fail()]);
    assert_eq!(steps[1..], ["Call(Connect)", "Report(Some(\"broken\"))"]);
}

#[test]
fn disconnecting_does_not_trust() {
    let steps = run(
        BluerRequest::DisconnectDevice(A),
        vec![StepOutcome::Done, StepOutcome::Done],
    );
    assert_eq!(steps[1..], ["Call(Disconnect)", "Report(None)"]);
}

#[test]
fn cancelling_looks_for_its_own_request() {
    let request = BluerRequest::CancelConnect(A);
    match first_step(&request) {
        RequestStep::AbortActive(wanted) => assert!(wanted == request),
        _ => panic!(),
    }
    let found = run(request, vec![StepOutcome::Found(true)]);
    assert_eq!(found[1], "Report(None)");
    match next_step(first_step(&request), StepOutcome::Found(false), "hci0") {
        RequestStep::Report(error) => {
            assert_eq!(error.as_deref(), Some(NO_ACTIVE_REQUEST));
            assert_eq!(error.as_deref(), Some("No active connection request found"));
        }
        _ => panic!(),
    }
}

#[test]
fn state_request_only_reports() {
    assert_eq!(run(BluerRequest::StateUpdate, vec![]), vec!["Report(None)"]);
    assert_eq!(
        run(BluerRequest::StateUpdate, vec![fail()]),
        vec!["Report(None)", "Report(None)"]
    );
}

#[test]
fn answer_carries_request_state_and_error() {
    let event: BluerSessionEvent<()> = answer(
        BluerRequest::PairDevice(B),
        BluerState { devices: vec![], bluetooth_enabled: true },
        Some("no".to_string()),
    );
    match event {
        BluerSessionEvent::RequestResponse { req, state, err_msg } => {
            assert!(req == BluerRequest::PairDevice(B));
            assert!(state.bluetooth_enabled);
            assert_eq!(err_msg.as_deref(), Some("no"));
        }
        _ => panic!(),
    }
}

#[test]
fn requests_compare_by_kind_and_content() {
    assert!(BluerRequest::ConnectDevice(A) == BluerRequest::ConnectDevice(A));
    assert!(BluerRequest::ConnectDevice(A) != BluerRequest::ConnectDevice(B));
    assert!(BluerRequest::ConnectDevice(A) != BluerRequest::CancelConnect(A));
    assert!(BluerRequest::SetBluetoothEnabled(true) != BluerRequest::SetBluetoothEnabled(false));
    assert!(BluerRequest::StateUpdate == BluerRequest::StateUpdate);
}

#[test]
fn active_requests_are_noted_and_forgotten() {
    let mut active: ActiveRequests<u32> = ActiveRequests::new();
    let connect = BluerRequest::ConnectDevice(A);
    let other = BluerRequest::ConnectDevice(B);
    assert_eq!(active.get(&connect), None);
    assert_eq!(active.insert(connect, 1), None);
    assert_eq!(active.insert(other, 2), None);
    assert_eq!(active.insert(connect, 3), Some(1));
    assert_eq!(active.get(&connect), Some(&3));
    assert_eq!(active.get(&BluerRequest::CancelConnect(A)), None);
    assert_eq!(active.remove(&connect), Some(3));
    assert_eq!(active.remove(&connect), None);
    assert_eq!(active.get(&other), Some(&2));
}
