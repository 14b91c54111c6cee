//! Bluetooth devices: what they are called, how they look, where they stand in
//! the list.

use crate::address::Address;
use crate::places::{law_selection_keeps_order, places_of};
use crate::property::DeviceProperty;
use crate::text::same_text;
use vstd::prelude::*;

verus! {

/// The icon of a device whose type is not known.
pub const DEFAULT_DEVICE_ICON: &'static str = "bluetooth-symbolic";

/// The icon for a device type of BlueZ.
pub open spec fn device_icon(device_type: Seq<char>) -> Seq<char> {
    if device_type == "computer"@ {
        "laptop-symbolic"@
    } else if device_type == "phone"@ {
        "smartphone-symbolic"@
    } else if device_type == "network-wireless"@ {
        "network-wireless-symbolic"@
    } else if device_type == "audio-headset"@ {
        "audio-headset-symbolic"@
    } else if device_type == "audio-headphones"@ {
        "audio-headphones-symbolic"@
    } else if device_type == "camera-video"@ {
        "camera-video-symbolic"@
    } else if device_type == "audio-card"@ {
        "audio-card-symbolic"@
    } else if device_type == "input-gaming"@ {
        "input-gaming-symbolic"@
    } else if device_type == "input-keyboard"@ {
        "input-keyboard-symbolic"@
    } else if device_type == "input-tablet"@ {
        "input-tablet-symbolic"@
    } else if device_type == "input-mouse"@ {
        "input-mouse-symbolic"@
    } else if device_type == "printer"@ {
        "printer-network-symbolic"@
    } else if device_type == "camera-photo"@ {
        "camera-photo-symbolic"@
    } else {
        DEFAULT_DEVICE_ICON@
    }
}

/// The icon for a device type of BlueZ.
pub fn device_type_to_icon(device_type: &str) -> (icon: &'static str)
    ensures
        icon@ == device_icon(device_type@),
{
    if same_text(device_type, "computer") {
        "laptop-symbolic"
    } else if same_text(device_type, "phone") {
        "smartphone-symbolic"
    } else if same_text(device_type, "network-wireless") {
        "network-wireless-symbolic"
    } else if same_text(device_type, "audio-headset") {
        "audio-headset-symbolic"
    } else if same_text(device_type, "audio-headphones") {
        "audio-headphones-symbolic"
    } else if same_text(device_type, "camera-video") {
        "camera-video-symbolic"
    } else if same_text(device_type, "audio-card") {
        "audio-card-symbolic"
    } else if same_text(device_type, "input-gaming") {
        "input-gaming-symbolic"
    } else if same_text(device_type, "input-keyboard") {
        "input-keyboard-symbolic"
    } else if same_text(device_type, "input-tablet") {
        "input-tablet-symbolic"
    } else if same_text(device_type, "input-mouse") {
        "input-mouse-symbolic"
    } else if same_text(device_type, "printer") {
        "printer-network-symbolic"
    } else if same_text(device_type, "camera-photo") {
        "camera-photo-symbolic"
    } else {
        DEFAULT_DEVICE_ICON
    }
}

/// How far the connection to a device has come.
#[derive(Clone, Copy, Debug, PartialEq, Eq, PartialOrd, Ord, Structural)]
pub enum BluerDeviceStatus {
    Connected,
    Connecting,
    Paired,
    /// Pairing is in progress, maybe with a passkey or pincode
    /// passkey or pincode will be 000000 - 999999
    Pairing,
    Disconnected,
    Disconnecting,
}

impl BluerDeviceStatus {
    /// The place of the status in the list of devices, the first being zero.
    pub open spec fn rank(self) -> int {
        match self {
            BluerDeviceStatus::Connected => 0,
            BluerDeviceStatus::Connecting => 1,
            BluerDeviceStatus::Paired => 2,
            BluerDeviceStatus::Pairing => 3,
            BluerDeviceStatus::Disconnected => 4,
            BluerDeviceStatus::Disconnecting => 5,
        }
    }

    /// The place of the status in the list of devices, the first being zero.
    pub fn place(&self) -> (place: u8)
        ensures
            place == self.rank(),
    {
        match self {
            BluerDeviceStatus::Connected => 0,
            BluerDeviceStatus::Connecting => 1,
            BluerDeviceStatus::Paired => 2,
            BluerDeviceStatus::Pairing => 3,
            BluerDeviceStatus::Disconnected => 4,
            BluerDeviceStatus::Disconnecting => 5,
        }
    }
}

/// What was read of one device. Each reading can fail by itself.
pub struct DeviceReading<E> {
    pub address: Address,
    pub name: Result<Option<String>, E>,
    pub paired: Result<bool, E>,
    pub connected: Result<bool, E>,
    pub properties: Result<Vec<DeviceProperty>, E>,
}

/// A Bluetooth device as the applet shows it.
#[derive(Clone, Debug)]
pub struct BluerDevice {
    pub name: String,
    pub address: Address,
    pub status: BluerDeviceStatus,
    pub properties: Vec<DeviceProperty>,
    pub icon: String,
}

/// The type of the first icon property, if there is one.
pub open spec fn reported_type(properties: Seq<DeviceProperty>) -> Option<Seq<char>>
    decreases properties.len(),
{
    if properties.len() == 0 {
        None
    } else {
        match properties[0] {
            DeviceProperty::Icon(device_type) => Some(device_type@),
            _ => reported_type(properties.drop_first()),
        }
    }
}

/// The icon of a device with these properties.
pub open spec fn icon_for(properties: Seq<DeviceProperty>) -> Seq<char> {
    match reported_type(properties) {
        Some(device_type) => device_icon(device_type),
        None => DEFAULT_DEVICE_ICON@,
    }
}

/// Whether the property says that the device is paired, or that it is trusted.
pub open spec fn is_bond_mark(property: DeviceProperty) -> bool {
    property == DeviceProperty::Paired(true) || property == DeviceProperty::Trusted(true)
}

impl<E> DeviceReading<E> {
    /// The name to show: the reported one, or the address where none, or an
    /// empty one, was reported.
    pub open spec fn shown_name(self) -> Seq<char> {
        match self.name {
            Ok(Some(name)) => if name@.len() > 0 {
                name@
            } else {
                self.address.text()
            },
            _ => self.address.text(),
        }
    }

    /// The status to show. A reading that failed counts as `false`.
    pub open spec fn shown_status(self) -> BluerDeviceStatus {
        if self.connected matches Ok(connected) && connected {
            BluerDeviceStatus::Connected
        } else if self.paired matches Ok(paired) && paired {
            BluerDeviceStatus::Paired
        } else {
            BluerDeviceStatus::Disconnected
        }
    }

    /// The properties, none where they could not be read.
    pub open spec fn known_properties(self) -> Seq<DeviceProperty> {
        match self.properties {
            Ok(properties) => properties@,
            Err(_) => Seq::empty(),
        }
    }

    /// Whether `device` shows what was read.
    pub open spec fn shown_as(self, device: BluerDevice) -> bool {
        &&& device.name@ == self.shown_name()
        &&& device.address == self.address
        &&& device.status == self.shown_status()
        &&& device.properties@ == self.known_properties()
        &&& device.icon@ == icon_for(self.known_properties())
    }
}

impl BluerDevice {
    /// Whether exactly two properties say that the device is paired or trusted.
    pub open spec fn is_paired_and_trusted(self) -> bool {
        self.properties@.filter(|p: DeviceProperty| is_bond_mark(p)).len() == 2
    }

    /// The device for what was read of it.
    pub fn from_device<E>(device: DeviceReading<E>) -> (shown: Self)
        ensures
            device.shown_as(shown),
            shown.status == BluerDeviceStatus::Connected <==> device.connected == Ok::<bool, E>(
                true,
            ),
            shown.status == BluerDeviceStatus::Paired <==> device.connected != Ok::<bool, E>(true)
                && device.paired == Ok::<bool, E>(true),
            shown.status == BluerDeviceStatus::Disconnected <==> device.connected != Ok::<bool, E>(
                true,
            ) && device.paired != Ok::<bool, E>(true),
    {
        let address = device.address;
        let mut name = match device.name {
            Ok(Some(name)) => name,
            _ => address.to_text(),
        };
        if name.as_str().is_empty() {
            name = address.to_text();
        }
        let is_paired = match device.paired {
            Ok(paired) => paired,
            Err(_) => false,
        };
        let is_connected = match device.connected {
            Ok(connected) => connected,
            Err(_) => false,
        };
        let properties = match device.properties {
            Ok(properties) => properties,
            Err(_) => Vec::new(),
        };
        let status = if is_connected {
            BluerDeviceStatus::Connected
        } else if is_paired {
            BluerDeviceStatus::Paired
        } else {
            BluerDeviceStatus::Disconnected
        };
        let icon = Self::icon_of(&properties);
        BluerDevice { name, address, status, properties, icon }
    }

    fn icon_of(properties: &Vec<DeviceProperty>) -> (icon: String)
        ensures
            icon@ == icon_for(properties@),
    {
        let mut i: usize = 0;
        assert(properties@.skip(0) =~= properties@);
        while i < properties.len()
            invariant
                i <= properties.len(),
                reported_type(properties@) == reported_type(properties@.skip(i as int)),
            decreases properties.len() - i,
        {
            if let DeviceProperty::Icon(device_type) = &properties[i] {
                return device_type_to_icon(device_type.as_str()).to_owned();
            }
            assert(properties@.skip(i as int).drop_first() =~= properties@.skip(i + 1));
            i += 1;
        }
        DEFAULT_DEVICE_ICON.to_owned()
    }

    /// Whether the device is both paired and trusted: it counts the properties
    /// that say so, and asks for two.
    pub fn paired_and_trusted(&self) -> (both: bool)
        ensures
            both == self.is_paired_and_trusted(),
    {
        let ghost mark = |p: DeviceProperty| is_bond_mark(p);
        let mut count: usize = 0;
        let mut i: usize = 0;
        while i < self.properties.len()
            invariant
                mark == (|p: DeviceProperty| is_bond_mark(p)),
                i <= self.properties.len(),
                count <= i,
                count == self.properties@.take(i as int).filter(mark).len(),
            decreases self.properties.len() - i,
        {
            proof {
                let next = self.properties@.take(i + 1);
                assert(next.drop_last() =~= self.properties@.take(i as int));
                reveal(Seq::filter);
            }
            match &self.properties[i] {
                DeviceProperty::Trusted(true) | DeviceProperty::Paired(true) => {
                    count += 1;
                },
                _ => {},
            }
            i += 1;
        }
        assert(self.properties@.take(i as int) =~= self.properties@);
        count == 2
    }

    /// Whether the device has an icon of its own.
    #[must_use]
    pub fn is_known_device_type(&self) -> (known: bool)
        ensures
            known == (self.icon@ != DEFAULT_DEVICE_ICON@),
    {
        !same_text(self.icon.as_str(), DEFAULT_DEVICE_ICON)
    }

    /// Whether the device shows anything but its address as its name.
    #[must_use]
    pub fn has_name(&self) -> (named: bool)
        ensures
            named == (self.name@ != self.address.text()),
    {
        !same_text(self.name.as_str(), self.address.to_text().as_str())
    }
}

/// Whether there is an icon for the device type.
pub open spec fn has_icon(device_type: Seq<char>) -> bool {
    ||| device_type == "computer"@
    ||| device_type == "phone"@
    ||| device_type == "network-wireless"@
    ||| device_type == "audio-headset"@
    ||| device_type == "audio-headphones"@
    ||| device_type == "camera-video"@
    ||| device_type == "audio-card"@
    ||| device_type == "input-gaming"@
    ||| device_type == "input-keyboard"@
    ||| device_type == "input-tablet"@
    ||| device_type == "input-mouse"@
    ||| device_type == "printer"@
    ||| device_type == "camera-photo"@
}

/// A device type has an icon of its own exactly where it is in the list of
/// those that have one.
pub proof fn law_known_types_have_icons(device_type: Seq<char>)
    ensures
        (device_icon(device_type) != DEFAULT_DEVICE_ICON@) == has_icon(device_type),
{
    let icon = device_icon(device_type);
    reveal_strlit("bluetooth-symbolic");
    reveal_strlit("laptop-symbolic");
    reveal_strlit("smartphone-symbolic");
    reveal_strlit("network-wireless-symbolic");
    reveal_strlit("audio-headset-symbolic");
    reveal_strlit("audio-headphones-symbolic");
    reveal_strlit("camera-video-symbolic");
    reveal_strlit("audio-card-symbolic");
    reveal_strlit("input-gaming-symbolic");
    reveal_strlit("input-keyboard-symbolic");
    reveal_strlit("input-tablet-symbolic");
    reveal_strlit("input-mouse-symbolic");
    reveal_strlit("printer-network-symbolic");
    reveal_strlit("camera-photo-symbolic");
    assert(DEFAULT_DEVICE_ICON@[0] == 'b');
    assert(has_icon(device_type) ==> icon[0] != 'b');
}

/// A device that is shown has a name, and it counts as named exactly where a
/// name other than its address was reported.
pub proof fn law_name_is_reported_or_address<E>(reading: DeviceReading<E>, device: BluerDevice)
    requires
        reading.shown_as(device),
    ensures
        device.name@.len() > 0,
        (device.name@ != device.address.text()) == (reading.name matches Ok(Some(name))
            && name@.len() > 0 && name@ != reading.address.text()),
{
}

/// Whether no two properties say whether the device is paired, and no two
/// whether it is trusted.
pub open spec fn said_once(properties: Seq<DeviceProperty>) -> bool {
    &&& forall|i: int, j: int|
        0 <= i < j < properties.len() ==> !(#[trigger] properties[i] is Paired
            && #[trigger] properties[j] is Paired)
    &&& forall|i: int, j: int|
        0 <= i < j < properties.len() ==> !(#[trigger] properties[i] is Trusted
            && #[trigger] properties[j] is Trusted)
}

proof fn lemma_bond_marks(properties: Seq<DeviceProperty>)
    requires
        said_once(properties),
    ensures
        properties.filter(|p: DeviceProperty| is_bond_mark(p)).len() == (if properties.contains(
            DeviceProperty::Paired(true),
        ) {
            1int
        } else {
            0
        }) + (if properties.contains(DeviceProperty::Trusted(true)) {
            1int
        } else {
            0
        }),
    decreases properties.len(),
{
    reveal(Seq::filter);
    if properties.len() > 0 {
        let rest = properties.drop_last();
        let last = properties.last();
        lemma_bond_marks(rest);
        assert forall|p: DeviceProperty| properties.contains(p) == (rest.contains(p) || p
            == last) by {
            if rest.contains(p) {
                let i = choose|i: int| 0 <= i < rest.len() && rest[i] == p;
                assert(properties[i] == p);
            }
            if p == last {
                assert(properties[properties.len() - 1] == p);
            }
            if properties.contains(p) && p != last {
                let i = choose|i: int| 0 <= i < properties.len() && properties[i] == p;
                assert(rest[i] == p);
            }
        }
        assert(properties.contains(DeviceProperty::Paired(true)) == (rest.contains(
            DeviceProperty::Paired(true),
        ) || DeviceProperty::Paired(true) == last));
        assert(properties.contains(DeviceProperty::Trusted(true)) == (rest.contains(
            DeviceProperty::Trusted(true),
        ) || DeviceProperty::Trusted(true) == last));
        if last is Paired && rest.contains(DeviceProperty::Paired(true)) {
            let i = choose|i: int|
                0 <= i < rest.len() && rest[i] == DeviceProperty::Paired(true);
            assert(properties[i] is Paired && properties[properties.len() - 1] is Paired);
        }
        if last is Trusted && rest.contains(DeviceProperty::Trusted(true)) {
            let i = choose|i: int|
                0 <= i < rest.len() && rest[i] == DeviceProperty::Trusted(true);
            assert(properties[i] is Trusted && properties[properties.len() - 1] is Trusted);
        }
    }
}

/// Where each property is there once at most, a device counts as paired and
/// trusted exactly where it is both.
pub proof fn law_paired_and_trusted_means_both(device: BluerDevice)
    requires
        said_once(device.properties@),
    ensures
        device.is_paired_and_trusted() == (device.properties@.contains(DeviceProperty::Paired(true))
            && device.properties@.contains(DeviceProperty::Trusted(true))),
{
    lemma_bond_marks(device.properties@);
}

/// A reading is shown as connected exactly where the connection was read and is
/// there; as paired exactly where it is not and the device was read to be
/// paired; and as disconnected exactly where neither was read to hold. Nothing
/// else of the reading matters, and no other status is shown.
pub proof fn law_shown_status<E>(reading: DeviceReading<E>, device: BluerDevice)
    requires
        reading.shown_as(device),
    ensures
        device.status == BluerDeviceStatus::Connected <==> reading.connected == Ok::<bool, E>(true),
        device.status == BluerDeviceStatus::Paired <==> reading.connected != Ok::<bool, E>(true)
            && reading.paired == Ok::<bool, E>(true),
        device.status == BluerDeviceStatus::Disconnected <==> reading.connected != Ok::<bool, E>(
            true,
        ) && reading.paired != Ok::<bool, E>(true),
{
}

/// A device is shown under its own address, with the properties that were read,
/// and under the name that was reported. Only where that is missing or empty is
/// it shown under the text of its address.
pub proof fn law_shown_name_and_address<E>(reading: DeviceReading<E>, device: BluerDevice)
    requires
        reading.shown_as(device),
    ensures
        forall|k: int| 0 <= k < 6 ==> device.address.0@[k] == reading.address.0@[k],
        reading.name matches Ok(Some(name)) ==> name@.len() > 0 ==> device.name@ == name@,
        (reading.name matches Ok(Some(name)) ==> name@.len() == 0) ==> device.name@
            == device.address.text(),
        reading.properties matches Ok(properties) ==> device.properties@ == properties@,
        reading.properties is Err ==> device.properties@.len() == 0,
{
}

/// The types whose icons are named after them, the three whose icons are named
/// otherwise, and the icon of all other types.
pub proof fn law_icon_names(device_type: Seq<char>)
    ensures
        ({
            ||| device_type == "network-wireless"@
            ||| device_type == "audio-headset"@
            ||| device_type == "audio-headphones"@
            ||| device_type == "audio-card"@
            ||| device_type == "camera-video"@
            ||| device_type == "camera-photo"@
            ||| device_type == "input-gaming"@
            ||| device_type == "input-keyboard"@
            ||| device_type == "input-tablet"@
            ||| device_type == "input-mouse"@
        }) ==> device_icon(device_type) == device_type + "-symbolic"@,
        device_type == "computer"@ ==> device_icon(device_type) == "laptop-symbolic"@,
        device_type == "phone"@ ==> device_icon(device_type) == "smartphone-symbolic"@,
        device_type == "printer"@ ==> device_icon(device_type) == device_type
            + "-network-symbolic"@,
        !({
            ||| device_type == "network-wireless"@
            ||| device_type == "audio-headset"@
            ||| device_type == "audio-headphones"@
            ||| device_type == "audio-card"@
            ||| device_type == "camera-video"@
            ||| device_type == "camera-photo"@
            ||| device_type == "input-gaming"@
            ||| device_type == "input-keyboard"@
            ||| device_type == "input-tablet"@
            ||| device_type == "input-mouse"@
            ||| device_type == "computer"@
            ||| device_type == "phone"@
            ||| device_type == "printer"@
        }) ==> device_icon(device_type) == "bluetooth-symbolic"@,
{
    reveal_strlit("-symbolic");
    reveal_strlit("-network-symbolic");
    reveal_strlit("computer");
    reveal_strlit("phone");
    reveal_strlit("printer");
    reveal_strlit("printer-network-symbolic");
    reveal_strlit("network-wireless");
    reveal_strlit("network-wireless-symbolic");
    reveal_strlit("audio-headset");
    reveal_strlit("audio-headset-symbolic");
    reveal_strlit("audio-headphones");
    reveal_strlit("audio-headphones-symbolic");
    reveal_strlit("camera-video");
    reveal_strlit("camera-video-symbolic");
    reveal_strlit("audio-card");
    reveal_strlit("audio-card-symbolic");
    reveal_strlit("input-gaming");
    reveal_strlit("input-gaming-symbolic");
    reveal_strlit("input-keyboard");
    reveal_strlit("input-keyboard-symbolic");
    reveal_strlit("input-tablet");
    reveal_strlit("input-tablet-symbolic");
    reveal_strlit("input-mouse");
    reveal_strlit("input-mouse-symbolic");
    reveal_strlit("camera-photo");
    reveal_strlit("camera-photo-symbolic");
    assert("computer"@.len() != "phone"@.len());
    assert("printer"@ + "-network-symbolic"@ =~= "printer-network-symbolic"@);
    assert("network-wireless"@ + "-symbolic"@ =~= "network-wireless-symbolic"@);
    assert("audio-headset"@ + "-symbolic"@ =~= "audio-headset-symbolic"@);
    assert("audio-headphones"@ + "-symbolic"@ =~= "audio-headphones-symbolic"@);
    assert("camera-video"@ + "-symbolic"@ =~= "camera-video-symbolic"@);
    assert("audio-card"@ + "-symbolic"@ =~= "audio-card-symbolic"@);
    assert("input-gaming"@ + "-symbolic"@ =~= "input-gaming-symbolic"@);
    assert("input-keyboard"@ + "-symbolic"@ =~= "input-keyboard-symbolic"@);
    assert("input-tablet"@ + "-symbolic"@ =~= "input-tablet-symbolic"@);
    assert("input-mouse"@ + "-symbolic"@ =~= "input-mouse-symbolic"@);
    assert("camera-photo"@ + "-symbolic"@ =~= "camera-photo-symbolic"@);
}

/// A device has the icon of its first icon property, wherever in the list that
/// stands.
pub proof fn law_first_icon_property_decides(properties: Seq<DeviceProperty>, k: int)
    requires
        0 <= k < properties.len(),
        properties[k] is Icon,
        forall|i: int| 0 <= i < k ==> !(#[trigger] properties[i] is Icon),
    ensures
        icon_for(properties) == device_icon(properties[k]->Icon_0@),
    decreases k,
{
    if k > 0 {
        let rest = properties.drop_first();
        assert(!(properties[0] is Icon));
        assert forall|i: int| 0 <= i < k - 1 implies !(#[trigger] rest[i] is Icon) by {
            assert(rest[i] == properties[i + 1]);
        }
        law_first_icon_property_decides(rest, k - 1);
    }
}

/// A device without an icon property has the icon of a device whose type is not
/// known.
pub proof fn law_no_icon_property(properties: Seq<DeviceProperty>)
    requires
        forall|i: int| 0 <= i < properties.len() ==> !(#[trigger] properties[i] is Icon),
    ensures
        icon_for(properties) == "bluetooth-symbolic"@,
    decreases properties.len(),
{
    if properties.len() > 0 {
        let rest = properties.drop_first();
        assert(!(properties[0] is Icon));
        assert forall|i: int| 0 <= i < rest.len() implies !(#[trigger] rest[i] is Icon) by {
            assert(rest[i] == properties[i + 1]);
        }
        law_no_icon_property(rest);
    }
}

/// The icon of a device that is shown goes by the properties that it is shown
/// with.
pub proof fn law_shown_icon<E>(reading: DeviceReading<E>, device: BluerDevice)
    requires
        reading.shown_as(device),
    ensures
        device.icon@ == icon_for(device.properties@),
{
}

/// The statuses in the order of the list.
pub proof fn law_status_order()
    ensures
        BluerDeviceStatus::Connected.rank() < BluerDeviceStatus::Connecting.rank(),
        BluerDeviceStatus::Connecting.rank() < BluerDeviceStatus::Paired.rank(),
        BluerDeviceStatus::Paired.rank() < BluerDeviceStatus::Pairing.rank(),
        BluerDeviceStatus::Pairing.rank() < BluerDeviceStatus::Disconnected.rank(),
        BluerDeviceStatus::Disconnected.rank() < BluerDeviceStatus::Disconnecting.rank(),
{
}

/// A device counts as paired and trusted exactly where two of its properties,
/// and no third, say that it is paired or that it is trusted.
pub proof fn law_two_properties_make_a_bond(device: BluerDevice)
    ensures
        device.is_paired_and_trusted() <==> exists|i: int, j: int|
            0 <= i < j < device.properties@.len() && (#[trigger] device.properties@[i]
                == DeviceProperty::Paired(true) || device.properties@[i] == DeviceProperty::Trusted(
                true,
            )) && (#[trigger] device.properties@[j] == DeviceProperty::Paired(true)
                || device.properties@[j] == DeviceProperty::Trusted(true)) && forall|k: int|
                0 <= k < device.properties@.len() && (#[trigger] device.properties@[k]
                    == DeviceProperty::Paired(true) || device.properties@[k]
                    == DeviceProperty::Trusted(true)) ==> k == i || k == j,
{
    let properties = device.properties@;
    let mark = |p: DeviceProperty| is_bond_mark(p);
    let places = places_of(properties, mark);
    law_selection_keeps_order(properties, mark);
    if device.is_paired_and_trusted() {
        let i = places[0];
        let j = places[1];
        assert(mark(properties[i]) && mark(properties[j]));
        assert forall|k: int|
            0 <= k < properties.len() && (#[trigger] properties[k] == DeviceProperty::Paired(true)
                || properties[k] == DeviceProperty::Trusted(true)) implies k == i || k == j by {
            assert(mark(properties[k]));
        }
        assert(0 <= i < j < properties.len());
    }
    if exists|i: int, j: int|
        0 <= i < j < properties.len() && (#[trigger] properties[i] == DeviceProperty::Paired(true)
            || properties[i] == DeviceProperty::Trusted(true)) && (#[trigger] properties[j]
            == DeviceProperty::Paired(true) || properties[j] == DeviceProperty::Trusted(true))
            && forall|k: int|
            0 <= k < properties.len() && (#[trigger] properties[k] == DeviceProperty::Paired(true)
                || properties[k] == DeviceProperty::Trusted(true)) ==> k == i || k == j {
        let (i, j) = choose|i: int, j: int|
            0 <= i < j < properties.len() && (#[trigger] properties[i]
                == DeviceProperty::Paired(true) || properties[i] == DeviceProperty::Trusted(true))
                && (#[trigger] properties[j] == DeviceProperty::Paired(true) || properties[j]
                == DeviceProperty::Trusted(true)) && forall|k: int|
                0 <= k < properties.len() && (#[trigger] properties[k] == DeviceProperty::Paired(
                    true,
                ) || properties[k] == DeviceProperty::Trusted(true)) ==> k == i || k == j;
        assert(mark(properties[i]) && mark(properties[j]));
        assert(places.contains(i) && places.contains(j));
        let a = choose|a: int| 0 <= a < places.len() && places[a] == i;
        let b = choose|b: int| 0 <= b < places.len() && places[b] == j;
        if places.len() > 2 {
            assert(mark(properties[places[0]]) && mark(properties[places[1]]) && mark(
                properties[places[2]],
            ));
            assert(places[0] < places[1] && places[1] < places[2]);
        }
    }
}

} // verus!
