//! The state that the applet shows, and the devices to reconnect to.

use crate::address::Address;
use crate::device::BluerDevice;
use crate::event::BluerRequest;
use crate::order::same_device;
use crate::places::{law_selection_keeps_order, places_of};
use vstd::prelude::*;

verus! {

/// The devices, and whether Bluetooth is on.
#[derive(Clone, Debug)]
pub struct BluerState {
    pub devices: Vec<BluerDevice>,
    pub bluetooth_enabled: bool,
}

impl Default for BluerState {
    fn default() -> (state: Self)
        ensures
            state.devices@.len() == 0,
            !state.bluetooth_enabled,
    {
        BluerState { devices: Vec::new(), bluetooth_enabled: false }
    }
}

/// Whether the adapter is on. A reading that failed counts as `false`.
pub open spec fn is_on<E>(powered: Result<bool, E>) -> bool {
    powered matches Ok(on) && on
}

/// Whether the adapter is on. A reading that failed counts as `false`.
pub fn powered_on<E>(powered: Result<bool, E>) -> (on: bool)
    ensures
        on == is_on(powered),
{
    match powered {
        Ok(on) => on,
        Err(_) => false,
    }
}

/// The state for a list of devices and a reading of the adapter's power.
pub fn bluer_state<E>(devices: Vec<BluerDevice>, powered: Result<bool, E>) -> (state: BluerState)
    ensures
        state.devices == devices,
        state.bluetooth_enabled == is_on(powered),
{
    BluerState { devices, bluetooth_enabled: powered_on(powered) }
}

/// A request to connect to each of the devices.
pub open spec fn connect_requests(devices: Seq<BluerDevice>) -> Seq<BluerRequest> {
    devices.map_values(|device: BluerDevice| BluerRequest::ConnectDevice(device.address))
}

/// Whether a device that is the same as `device` is among `devices`.
pub open spec fn is_among(device: BluerDevice, devices: Seq<BluerDevice>) -> bool {
    exists|i: int| 0 <= i < devices.len() && same_device(#[trigger] devices[i], device)
}

/// The paired and trusted devices of `devices` that are not among `known`.
pub open spec fn to_reconnect(
    devices: Seq<BluerDevice>,
    known: Seq<BluerDevice>,
) -> Seq<BluerDevice> {
    devices.filter(|device: BluerDevice| !is_among(device, known) && device.is_paired_and_trusted())
}

fn contains(devices: &Vec<BluerDevice>, device: &BluerDevice) -> (found: bool)
    ensures
        found == is_among(*device, devices@),
{
    let mut i: usize = 0;
    while i < devices.len()
        invariant
            i <= devices.len(),
            forall|j: int| 0 <= j < i ==> !same_device(#[trigger] devices[j], *device),
        decreases devices.len() - i,
    {
        if devices[i] == *device {
            return true;
        }
        i += 1;
    }
    false
}

/// Requests to connect to the paired and trusted devices that were not known.
pub fn reconnect_new(devices: &Vec<BluerDevice>, known: &Vec<BluerDevice>) -> (requests: Vec<
    BluerRequest,
>)
    ensures
        requests@ == connect_requests(to_reconnect(devices@, known@)),
{
    let ghost wanted = |device: BluerDevice|
        !is_among(device, known@) && device.is_paired_and_trusted();
    let mut requests: Vec<BluerRequest> = Vec::new();
    let mut i: usize = 0;
    assert(devices@.take(0).filter(wanted) =~= Seq::empty()) by {
        reveal(Seq::filter);
    }
    while i < devices.len()
        invariant
            wanted == (|device: BluerDevice|
                !is_among(device, known@) && device.is_paired_and_trusted()),
            i <= devices.len(),
            requests@ == connect_requests(devices@.take(i as int).filter(wanted)),
        decreases devices.len() - i,
    {
        let ghost before = devices@.take(i as int);
        proof {
            assert(devices@.take(i + 1).drop_last() =~= before);
            reveal(Seq::filter);
        }
        let device = &devices[i];
        if !contains(known, device) && device.paired_and_trusted() {
            requests.push(BluerRequest::ConnectDevice(device.address));
            assert(requests@ =~= connect_requests(before.filter(wanted).push(*device)));
        }
        i += 1;
    }
    assert(devices@.take(i as int) =~= devices@);
    requests
}

impl BluerState {
    /// The requests to reconnect: one for each paired and trusted device, none
    /// while Bluetooth is off.
    pub open spec fn reconnection(self) -> Seq<BluerRequest> {
        if self.bluetooth_enabled {
            connect_requests(
                self.devices@.filter(|device: BluerDevice| device.is_paired_and_trusted()),
            )
        } else {
            Seq::empty()
        }
    }

    /// The requests to reconnect to paired and trusted devices.
    pub fn reconnect(&self) -> (requests: Vec<BluerRequest>)
        ensures
            requests@ == self.reconnection(),
    {
        if self.bluetooth_enabled {
            let none: Vec<BluerDevice> = Vec::new();
            proof {
                assert((|device: BluerDevice|
                    !is_among(device, none@) && device.is_paired_and_trusted()) =~= (
                |device: BluerDevice| device.is_paired_and_trusted()));
            }
            reconnect_new(&self.devices, &none)
        } else {
            Vec::new()
        }
    }
}

/// Whether the request is to connect to a paired and trusted device of the list.
pub open spec fn asks_for_bonded(request: BluerRequest, devices: Seq<BluerDevice>) -> bool {
    exists|i: int|
        0 <= i < devices.len() && (#[trigger] devices[i]).is_paired_and_trusted() && request
            == BluerRequest::ConnectDevice(devices[i].address)
}

/// A reconnection asks for the paired and trusted devices of the list, all of
/// them and no others, and for none while Bluetooth is off.
pub proof fn law_reconnects_to_bonded(state: BluerState, request: BluerRequest)
    ensures
        state.reconnection().contains(request) == (state.bluetooth_enabled && asks_for_bonded(
            request,
            state.devices@,
        )),
{
    let devices = state.devices@;
    let bonded = |device: BluerDevice| device.is_paired_and_trusted();
    let chosen = devices.filter(bonded);
    if state.bluetooth_enabled {
        if state.reconnection().contains(request) {
            let i = choose|i: int|
                0 <= i < state.reconnection().len() && state.reconnection()[i] == request;
            devices.lemma_filter_pred(bonded, i);
            devices.lemma_filter_contains_rev(bonded, chosen[i]);
            let k = choose|k: int| 0 <= k < devices.len() && devices[k] == chosen[i];
            assert(devices[k].is_paired_and_trusted());
        }
        if asks_for_bonded(request, devices) {
            let k = choose|k: int|
                0 <= k < devices.len() && (#[trigger] devices[k]).is_paired_and_trusted()
                    && request == BluerRequest::ConnectDevice(devices[k].address);
            devices.lemma_filter_contains(bonded, k);
            let i = choose|i: int| 0 <= i < chosen.len() && chosen[i] == devices[k];
            assert(connect_requests(chosen)[i] == request);
        }
    }
}

/// A reading of the adapter's power counts as on exactly where it was taken and
/// says so.
pub proof fn law_power_reading<E>(powered: Result<bool, E>)
    ensures
        is_on(powered) <==> powered == Ok::<bool, E>(true),
{
}

/// Which requests a new list of devices calls for, where the devices of `known`
/// were there before: one for the address of each device that is paired and
/// trusted and of which no known device has both the name and the address, in
/// the order of the list. Statuses, icons and the properties of known devices
/// make no difference.
pub proof fn law_requests_are_for_new_devices(
    devices: Seq<BluerDevice>,
    known: Seq<BluerDevice>,
)
    ensures
        exists|places: Seq<int>|
            {
                &&& #[trigger] places.len() == connect_requests(to_reconnect(devices, known)).len()
                &&& forall|i: int, j: int|
                    0 <= i < j < places.len() ==> #[trigger] places[i] < #[trigger] places[j]
                &&& forall|i: int|
                    0 <= i < places.len() ==> 0 <= #[trigger] places[i] < devices.len()
                        && connect_requests(to_reconnect(devices, known))[i]
                        == BluerRequest::ConnectDevice(devices[places[i]].address)
                &&& forall|p: int|
                    0 <= p < devices.len() ==> (#[trigger] places.contains(p)
                        <==> devices[p].is_paired_and_trusted() && forall|q: int|
                        0 <= q < known.len() ==> !(#[trigger] known[q].name@ == devices[p].name@
                            && known[q].address == devices[p].address))
            },
{
    let wanted = |device: BluerDevice| !is_among(device, known) && device.is_paired_and_trusted();
    let places = places_of(devices, wanted);
    law_selection_keeps_order(devices, wanted);
    assert(places.len() == connect_requests(to_reconnect(devices, known)).len());
    assert forall|p: int| 0 <= p < devices.len() implies (#[trigger] places.contains(p)
        <==> devices[p].is_paired_and_trusted() && forall|q: int|
        0 <= q < known.len() ==> !(#[trigger] known[q].name@ == devices[p].name@ && known[q].address
            == devices[p].address)) by {
        if places.contains(p) {
            let i = choose|i: int| 0 <= i < places.len() && places[i] == p;
            assert(wanted(devices[places[i]]));
            assert forall|q: int| 0 <= q < known.len() implies !(#[trigger] known[q].name@
                == devices[p].name@ && known[q].address == devices[p].address) by {
                assert(!same_device(known[q], devices[p]));
            }
        }
        if devices[p].is_paired_and_trusted() && forall|q: int|
            0 <= q < known.len() ==> !(#[trigger] known[q].name@ == devices[p].name@
                && known[q].address == devices[p].address) {
            assert(wanted(devices[p]));
        }
    }
}

/// Where every device of the new list with some address was known by its name
/// and that address before, nothing is asked of the address, whatever the
/// statuses, properties and icons were and are.
pub proof fn law_known_address_is_left_alone(
    devices: Seq<BluerDevice>,
    known: Seq<BluerDevice>,
    address: Address,
)
    requires
        forall|p: int|
            0 <= p < devices.len() && #[trigger] devices[p].address == address ==> exists|q: int|
                0 <= q < known.len() && #[trigger] known[q].name@ == devices[p].name@
                    && known[q].address == address,
    ensures
        !connect_requests(to_reconnect(devices, known)).contains(
            BluerRequest::ConnectDevice(address),
        ),
{
    let requests = connect_requests(to_reconnect(devices, known));
    let wanted = |device: BluerDevice| !is_among(device, known) && device.is_paired_and_trusted();
    let places = places_of(devices, wanted);
    law_selection_keeps_order(devices, wanted);
    if requests.contains(BluerRequest::ConnectDevice(address)) {
        let i = choose|i: int|
            0 <= i < requests.len() && requests[i] == BluerRequest::ConnectDevice(address);
        let p = places[i];
        assert(wanted(devices[p]));
        assert(devices[p].address == address);
        let q = choose|q: int|
            0 <= q < known.len() && #[trigger] known[q].name@ == devices[p].name@
                && known[q].address == address;
        assert(same_device(known[q], devices[p]));
    }
}

/// Taking a device out of the new list that was known by its name and address
/// before changes nothing of what is asked.
pub proof fn law_known_device_adds_no_request(
    devices: Seq<BluerDevice>,
    known: Seq<BluerDevice>,
    p: int,
    q: int,
)
    requires
        0 <= p < devices.len(),
        0 <= q < known.len(),
        known[q].name@ == devices[p].name@,
        known[q].address == devices[p].address,
    ensures
        connect_requests(to_reconnect(devices, known)) == connect_requests(
            to_reconnect(devices.remove(p), known),
        ),
{
    let wanted = |device: BluerDevice| !is_among(device, known) && device.is_paired_and_trusted();
    let before = devices.take(p);
    let after = devices.skip(p + 1);
    let one = seq![devices[p]];
    assert(same_device(known[q], devices[p]));
    assert(devices =~= before + one + after);
    assert(devices.remove(p) =~= before + after);
    Seq::filter_distributes_over_add(before + one, after, wanted);
    Seq::filter_distributes_over_add(before, one, wanted);
    Seq::filter_distributes_over_add(before, after, wanted);
    assert(one.filter(wanted).len() == 0) by {
        if one.filter(wanted).len() > 0 {
            one.lemma_filter_pred(wanted, 0);
            one.lemma_filter_contains_rev(wanted, one.filter(wanted)[0]);
        }
    }
    assert(before.filter(wanted) + one.filter(wanted) =~= before.filter(wanted));
}

/// A reconnection asks for the address of each paired and trusted device of the
/// list, in the order of the list, and for nothing else; while Bluetooth is off
/// it asks for nothing.
pub proof fn law_reconnection_goes_through_the_list(state: BluerState)
    ensures
        !state.bluetooth_enabled ==> state.reconnection().len() == 0,
        state.bluetooth_enabled ==> exists|places: Seq<int>|
            {
                &&& #[trigger] places.len() == state.reconnection().len()
                &&& forall|i: int, j: int|
                    0 <= i < j < places.len() ==> #[trigger] places[i] < #[trigger] places[j]
                &&& forall|i: int|
                    0 <= i < places.len() ==> 0 <= #[trigger] places[i] < state.devices@.len()
                        && state.reconnection()[i] == BluerRequest::ConnectDevice(
                        state.devices@[places[i]].address,
                    )
                &&& forall|p: int|
                    0 <= p < state.devices@.len() ==> (#[trigger] places.contains(p)
                        <==> state.devices@[p].is_paired_and_trusted())
            },
{
    let devices = state.devices@;
    let bonded = |device: BluerDevice| device.is_paired_and_trusted();
    let places = places_of(devices, bonded);
    law_selection_keeps_order(devices, bonded);
    if state.bluetooth_enabled {
        assert(places.len() == state.reconnection().len());
        assert forall|p: int| 0 <= p < devices.len() implies (#[trigger] places.contains(p)
            <==> devices[p].is_paired_and_trusted()) by {
            if places.contains(p) {
                let i = choose|i: int| 0 <= i < places.len() && places[i] == p;
                assert(bonded(devices[places[i]]));
            }
            if devices[p].is_paired_and_trusted() {
                assert(bonded(devices[p]));
            }
        }
    }
}

} // verus!
