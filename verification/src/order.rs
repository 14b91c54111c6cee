//! The order of the device list: by status, then by name without regard to case.

use crate::device::{BluerDevice, BluerDeviceStatus};
use crate::text::{
    law_first_difference_decides, law_text_before_irreflexive, law_text_before_total,
    law_text_before_transitive, lowercase_text, precedes, same_text, text_before,
};
use std::cmp::Ordering;
use vstd::prelude::*;

verus! {

/// Whether a device with key `a` stands before one with key `b`. A key is the
/// rank of the status and the name in lower case.
pub open spec fn key_before(a: (int, Seq<char>), b: (int, Seq<char>)) -> bool {
    a.0 < b.0 || (a.0 == b.0 && text_before(a.1, b.1))
}

/// No key stands before itself.
pub proof fn law_key_before_irreflexive(a: (int, Seq<char>))
    ensures
        !key_before(a, a),
{
    law_text_before_irreflexive(a.1);
}

/// Of two different keys one stands before the other, and not both do.
pub proof fn law_key_before_total(a: (int, Seq<char>), b: (int, Seq<char>))
    ensures
        a == b || key_before(a, b) || key_before(b, a),
        !(key_before(a, b) && key_before(b, a)),
{
    law_text_before_total(a.1, b.1);
}

/// The order of keys is transitive.
pub proof fn law_key_before_transitive(
    a: (int, Seq<char>),
    b: (int, Seq<char>),
    c: (int, Seq<char>),
)
    requires
        key_before(a, b),
        key_before(b, c),
    ensures
        key_before(a, c),
{
    if a.0 == b.0 && b.0 == c.0 {
        law_text_before_transitive(a.1, b.1, c.1);
    }
}

/// A key before `b` is before every key that is not before `b`.
pub proof fn law_key_before_weakens(
    a: (int, Seq<char>),
    b: (int, Seq<char>),
    c: (int, Seq<char>),
)
    requires
        key_before(a, b),
        !key_before(c, b),
    ensures
        key_before(a, c),
{
    law_key_before_total(b, c);
    if key_before(b, c) {
        law_key_before_transitive(a, b, c);
    }
}

/// The three-way answer that goes with a strict order.
pub open spec fn ordering_of(before: bool, after: bool) -> Ordering {
    if before {
        Ordering::Less
    } else if after {
        Ordering::Greater
    } else {
        Ordering::Equal
    }
}

/// Whether a device with the first status and lower case name stands before one
/// with the second.
pub fn listed_before(
    status: BluerDeviceStatus,
    lower: &str,
    other_status: BluerDeviceStatus,
    other_lower: &str,
) -> (before: bool)
    ensures
        before == key_before((status.rank(), lower@), (other_status.rank(), other_lower@)),
{
    let place = status.place();
    let other_place = other_status.place();
    place < other_place || (place == other_place && precedes(lower, other_lower))
}

impl BluerDevice {
    /// What the device is ordered by.
    pub open spec fn key(self) -> (int, Seq<char>) {
        (self.status.rank(), lowercase_text(self.name@))
    }

    /// How the device compares with another: by status, then by lower case name.
    pub open spec fn compared(self, other: BluerDevice) -> Ordering {
        ordering_of(key_before(self.key(), other.key()), key_before(other.key(), self.key()))
    }

    /// Compares two devices by status, then by lower case name.
    pub fn cmp(&self, other: &Self) -> (order: Ordering)
        ensures
            order == self.compared(*other),
    {
        let lower = self.name.as_str().to_lowercase();
        let other_lower = other.name.as_str().to_lowercase();
        if listed_before(self.status, lower.as_str(), other.status, other_lower.as_str()) {
            Ordering::Less
        } else if listed_before(other.status, other_lower.as_str(), self.status, lower.as_str()) {
            Ordering::Greater
        } else {
            Ordering::Equal
        }
    }
}

impl PartialEq for BluerDevice {
    /// Devices are the same where name and address are.
    fn eq(&self, other: &Self) -> (same: bool) {
        same_text(self.name.as_str(), other.name.as_str()) && self.address == other.address
    }
}

impl vstd::std_specs::cmp::PartialEqSpecImpl for BluerDevice {
    open spec fn obeys_eq_spec() -> bool {
        true
    }

    open spec fn eq_spec(&self, other: &Self) -> bool {
        same_device(*self, *other)
    }
}

impl Eq for BluerDevice {}

impl PartialOrd for BluerDevice {
    fn partial_cmp(&self, other: &Self) -> (order: Option<Ordering>) {
        Some(self.cmp(other))
    }
}

impl vstd::std_specs::cmp::PartialOrdSpecImpl for BluerDevice {
    open spec fn obeys_partial_cmp_spec() -> bool {
        true
    }

    open spec fn partial_cmp_spec(&self, other: &Self) -> Option<Ordering> {
        Some(self.compared(*other))
    }
}

/// Whether the two are the same device: their names and addresses are.
pub open spec fn same_device(a: BluerDevice, b: BluerDevice) -> bool {
    a.name@ == b.name@ && a.address == b.address
}

/// Comparing two devices the other way round gives the opposite answer, and two
/// devices are level exactly where status and lower case name are the same. So
/// devices that differ can be level.
pub proof fn law_comparison_is_consistent(a: BluerDevice, b: BluerDevice)
    ensures
        a.compared(b) is Less == b.compared(a) is Greater,
        a.compared(b) is Equal == b.compared(a) is Equal,
        a.compared(b) is Equal == (a.status.rank() == b.status.rank() && lowercase_text(a.name@)
            == lowercase_text(b.name@)),
        same_device(a, b) && a.status == b.status ==> a.compared(b) is Equal,
{
    law_key_before_total(a.key(), b.key());
    law_key_before_irreflexive(a.key());
}

/// Keys go by the rank first. Of two keys with the same rank, whichever it is,
/// the one whose text ends first behind a common start, or has the smaller code
/// point there, stands before the other.
pub proof fn law_key_before_by_text(a: (int, Seq<char>), b: (int, Seq<char>))
    ensures
        a.0 != b.0 ==> (key_before(a, b) <==> a.0 < b.0),
        a.0 == b.0 ==> (key_before(a, b) <==> exists|k: int|
            0 <= k <= a.1.len() && k < b.1.len() && #[trigger] a.1.take(k) == b.1.take(k) && (k
                == a.1.len() || a.1[k] < b.1[k])),
{
    law_first_difference_decides(a.1, b.1);
}

/// Devices of different statuses compare as the statuses do, whatever their
/// names. Devices of the same status, whichever it is, compare by the first
/// difference of their lower case names.
pub proof fn law_comparison_goes_by_status_then_name(a: BluerDevice, b: BluerDevice)
    ensures
        a.status.rank() < b.status.rank() ==> a.compared(b) is Less,
        a.status.rank() > b.status.rank() ==> a.compared(b) is Greater,
        a.status == b.status && lowercase_text(a.name@) == lowercase_text(b.name@) ==> a.compared(
            b,
        ) is Equal,
        a.status == b.status ==> (a.compared(b) is Less <==> exists|k: int|
            0 <= k <= lowercase_text(a.name@).len() && k < lowercase_text(b.name@).len()
                && #[trigger] lowercase_text(a.name@).take(k) == lowercase_text(b.name@).take(k)
                && (k == lowercase_text(a.name@).len() || lowercase_text(a.name@)[k]
                < lowercase_text(b.name@)[k])),
        a.status == b.status ==> (a.compared(b) is Greater <==> exists|k: int|
            0 <= k <= lowercase_text(b.name@).len() && k < lowercase_text(a.name@).len()
                && #[trigger] lowercase_text(b.name@).take(k) == lowercase_text(a.name@).take(k)
                && (k == lowercase_text(b.name@).len() || lowercase_text(b.name@)[k]
                < lowercase_text(a.name@)[k])),
        vstd::std_specs::cmp::PartialOrdSpec::partial_cmp_spec(&a, &b) == Some(a.compared(b)),
{
    law_key_before_total(a.key(), b.key());
    law_key_before_irreflexive(a.key());
    law_first_difference_decides(lowercase_text(a.name@), lowercase_text(b.name@));
    law_first_difference_decides(lowercase_text(b.name@), lowercase_text(a.name@));
}

/// Two devices are equal exactly where their names are, character for character,
/// and their addresses, byte for byte, whatever their statuses, properties and
/// icons.
pub proof fn law_equality_goes_by_name_and_address(a: BluerDevice, b: BluerDevice)
    ensures
        vstd::std_specs::cmp::PartialEqSpec::eq_spec(&a, &b) <==> a.name@.len() == b.name@.len() && (
        forall|k: int| 0 <= k < a.name@.len() ==> a.name@[k] == b.name@[k]) && (forall|k: int|
            0 <= k < 6 ==> a.address.0@[k] == b.address.0@[k]),
{
    if a.name@.len() == b.name@.len() && forall|k: int|
        0 <= k < a.name@.len() ==> a.name@[k] == b.name@[k] {
        assert(a.name@ =~= b.name@);
    }
    if forall|k: int| 0 <= k < 6 ==> a.address.0@[k] == b.address.0@[k] {
        assert(a.address.0@ =~= b.address.0@);
        assert(a.address.0 =~= b.address.0);
    }
}

} // verus!
