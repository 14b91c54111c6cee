//! The list of devices: read, sorted, none twice and none lost.

use crate::device::{BluerDevice, DeviceReading};
use crate::order::{
    key_before, law_key_before_by_text, law_key_before_total, law_key_before_weakens, listed_before,
};
use crate::places::{law_selection_keeps_order, places_of};
use crate::text::lowercase_text;
use vstd::prelude::*;

verus! {

/// Whether entry `p` has to stand before entry `q`: its key does, or the keys
/// leave it open and `p` came first.
pub open spec fn goes_first(keys: Seq<(int, Seq<char>)>, p: int, q: int) -> bool {
    key_before(keys[p], keys[q]) || (!key_before(keys[q], keys[p]) && p < q)
}

/// Whether `order` names every entry once, in the order of a stable sort.
pub open spec fn stable_order(keys: Seq<(int, Seq<char>)>, order: Seq<int>) -> bool {
    &&& order.len() == keys.len()
    &&& forall|i: int| 0 <= i < order.len() ==> 0 <= #[trigger] order[i] < keys.len()
    &&& order.no_duplicates()
    &&& forall|i: int, j: int|
        0 <= i < j < order.len() ==> goes_first(keys, #[trigger] order[i], #[trigger] order[j])
}

/// The devices in the given order.
pub open spec fn arranged(devices: Seq<BluerDevice>, order: Seq<int>) -> Seq<BluerDevice> {
    order.map_values(|p: int| devices[p])
}

/// Whether `list` holds `devices` in the order of a stable sort by `keys`.
pub open spec fn sorted_by(
    devices: Seq<BluerDevice>,
    keys: Seq<(int, Seq<char>)>,
    list: Seq<BluerDevice>,
) -> bool {
    exists|order: Seq<int>| #[trigger]
        stable_order(keys, order) && list == arranged(devices, order)
}

/// The devices of entries that carry their lower case names.
pub open spec fn keyed_devices(keyed: Seq<(BluerDevice, String)>) -> Seq<BluerDevice> {
    keyed.map_values(|entry: (BluerDevice, String)| entry.0)
}

/// The keys of entries that carry their lower case names.
pub open spec fn keyed_keys(keyed: Seq<(BluerDevice, String)>) -> Seq<(int, Seq<char>)> {
    keyed.map_values(|entry: (BluerDevice, String)| (entry.0.status.rank(), entry.1@))
}

/// The devices, stably sorted by status and by the text beside each.
pub fn sort_keyed(keyed: Vec<(BluerDevice, String)>) -> (list: Vec<BluerDevice>)
    ensures
        sorted_by(keyed_devices(keyed@), keyed_keys(keyed@), list@),
{
    let ghost all = keyed@;
    let ghost keys = keyed_keys(keyed@);
    let ghost mut order: Seq<int> = Seq::empty();
    let mut sorted: Vec<(BluerDevice, String)> = Vec::new();
    for entry in iter: keyed
        invariant
            iter.seq() == all,
            keys == keyed_keys(all),
            order.len() == iter.index(),
            sorted@.len() == order.len(),
            forall|i: int| 0 <= i < order.len() ==> 0 <= #[trigger] order[i] < iter.index(),
            order.no_duplicates(),
            forall|i: int, j: int|
                0 <= i < j < order.len() ==> goes_first(
                    keys,
                    #[trigger] order[i],
                    #[trigger] order[j],
                ),
            forall|i: int| 0 <= i < sorted@.len() ==> #[trigger] sorted@[i] == all[order[i]],
    {
        let ghost n: int = iter.index() as int;
        let mut pos: usize = sorted.len();
        while pos > 0 && listed_before(
            entry.0.status,
            entry.1.as_str(),
            sorted[pos - 1].0.status,
            sorted[pos - 1].1.as_str(),
        )
            invariant
                keys == keyed_keys(all),
                0 <= n < all.len(),
                entry == all[n],
                pos <= sorted@.len(),
                sorted@.len() == order.len(),
                forall|i: int| 0 <= i < order.len() ==> 0 <= #[trigger] order[i] < n,
                forall|i: int| 0 <= i < sorted@.len() ==> #[trigger] sorted@[i] == all[order[i]],
                forall|j: int|
                    pos <= j < order.len() ==> key_before(keys[n], keys[#[trigger] order[j]]),
            decreases pos,
        {
            pos -= 1;
        }
        proof {
            let old_order = order;
            order = old_order.insert(pos as int, n);
            assert forall|i: int| 0 <= i < pos implies !key_before(
                keys[n],
                keys[#[trigger] old_order[i]],
            ) by {
                let last = old_order[pos - 1];
                assert(sorted@[pos - 1] == all[last]);
                if i < pos - 1 && key_before(keys[n], keys[old_order[i]]) {
                    assert(goes_first(keys, old_order[i], last));
                    if key_before(keys[old_order[i]], keys[last]) {
                        law_key_before_total(keys[old_order[i]], keys[last]);
                    }
                    law_key_before_weakens(keys[n], keys[old_order[i]], keys[last]);
                }
            }
            assert forall|i: int, j: int| 0 <= i < j < order.len() implies goes_first(
                keys,
                #[trigger] order[i],
                #[trigger] order[j],
            ) by {
                let before = if i < pos { i } else { i - 1 };
                let after = if j < pos { j } else { j - 1 };
                if i != pos {
                    assert(order[i] == old_order[before]);
                }
                if j != pos {
                    assert(order[j] == old_order[after]);
                }
            }
            assert forall|i: int, j: int|
                0 <= i < order.len() && 0 <= j < order.len() && i != j implies order[i]
                != order[j] by {
                let before = if i < pos { i } else { i - 1 };
                let after = if j < pos { j } else { j - 1 };
                if i != pos {
                    assert(order[i] == old_order[before]);
                }
                if j != pos {
                    assert(order[j] == old_order[after]);
                }
            }
        }
        sorted.insert(pos, entry);
    }
    let ghost ranked = sorted@;
    let mut list: Vec<BluerDevice> = Vec::new();
    for entry in iter: sorted
        invariant
            iter.seq() == ranked,
            list@ == keyed_devices(ranked).take(iter.index() as int),
    {
        let (device, _lower) = entry;
        list.push(device);
    }
    proof {
        assert(stable_order(keys, order));
        assert(list@ =~= arranged(keyed_devices(all), order));
    }
    list
}

/// The keys of the devices.
pub open spec fn device_keys(devices: Seq<BluerDevice>) -> Seq<(int, Seq<char>)> {
    devices.map_values(|device: BluerDevice| device.key())
}

/// The devices, stably sorted by status and lower case name.
pub fn sort_devices(devices: Vec<BluerDevice>) -> (list: Vec<BluerDevice>)
    ensures
        sorted_by(devices@, device_keys(devices@), list@),
{
    let ghost all = devices@;
    let mut keyed: Vec<(BluerDevice, String)> = Vec::new();
    for device in iter: devices
        invariant
            iter.seq() == all,
            keyed_devices(keyed@) == all.take(iter.index() as int),
            keyed_keys(keyed@) == device_keys(all.take(iter.index() as int)),
    {
        let lower = device.name.as_str().to_lowercase();
        let ghost before = keyed@;
        keyed.push((device, lower));
        proof {
            let n: int = iter.index() as int;
            assert(keyed_devices(keyed@) =~= keyed_devices(before).push(all[n]));
            assert(keyed_keys(keyed@) =~= keyed_keys(before).push(all[n].key()));
            assert(all.take(n + 1) =~= all.take(n).push(all[n]));
            assert(device_keys(all.take(n + 1)) =~= device_keys(all.take(n)).push(all[n].key()));
        }
    }
    assert(all.take(all.len() as int) =~= all);
    sort_keyed(keyed)
}

/// The readings of the devices that could be opened.
pub open spec fn opened<E>(readings: Seq<Result<DeviceReading<E>, E>>) -> Seq<DeviceReading<E>>
    decreases readings.len(),
{
    if readings.len() == 0 {
        Seq::empty()
    } else {
        match readings.last() {
            Ok(reading) => opened(readings.drop_last()).push(reading),
            Err(_) => opened(readings.drop_last()),
        }
    }
}

/// What could be read of the devices of an adapter, in the order of the
/// addresses; nothing where the addresses could not be read.
pub open spec fn readable<E>(
    readings: Result<Vec<Result<DeviceReading<E>, E>>, E>,
) -> Seq<DeviceReading<E>> {
    match readings {
        Ok(readings) => opened(readings@),
        Err(_) => Seq::empty(),
    }
}

/// Whether the devices show the readings, one for one.
pub open spec fn all_shown<E>(
    readings: Seq<DeviceReading<E>>,
    devices: Seq<BluerDevice>,
) -> bool {
    &&& devices.len() == readings.len()
    &&& forall|i: int|
        0 <= i < readings.len() ==> (#[trigger] readings[i]).shown_as(devices[i])
}

/// The list of an adapter's devices: one for each that could be opened, sorted.
pub fn build_device_list<E>(
    readings: Result<Vec<Result<DeviceReading<E>, E>>, E>,
) -> (list: Vec<BluerDevice>)
    ensures
        exists|devices: Seq<BluerDevice>| #[trigger]
            all_shown(readable(readings), devices) && sorted_by(
                devices,
                device_keys(devices),
                list@,
            ),
{
    let mut devices: Vec<BluerDevice> = Vec::new();
    if let Ok(found) = readings {
        let ghost all = found@;
        for reading in iter: found
            invariant
                iter.seq() == all,
                all_shown(opened(all.take(iter.index() as int)), devices@),
        {
            proof {
                let n: int = iter.index() as int;
                assert(all.take(n + 1).drop_last() =~= all.take(n));
            }
            if let Ok(reading) = reading {
                devices.push(BluerDevice::from_device(reading));
            }
        }
        assert(all.take(all.len() as int) =~= all);
    }
    let ghost shown = devices@;
    assert(all_shown(readable(readings), shown));
    sort_devices(devices)
}

/// An order that names every entry of a list once leaves no entry out.
proof fn lemma_every_entry_named(order: Seq<int>, n: nat, p: int)
    requires
        order.len() == n,
        order.no_duplicates(),
        forall|i: int| 0 <= i < order.len() ==> 0 <= #[trigger] order[i] < n,
        0 <= p < n,
    ensures
        order.contains(p),
{
    let named = order.to_set();
    let entries = vstd::set_lib::set_int_range(0, n as int);
    vstd::set_lib::lemma_int_range(0, n as int);
    order.unique_seq_to_set();
    assert(named.subset_of(entries)) by {
        assert forall|q: int| named.contains(q) implies entries.contains(q) by {
            let i = choose|i: int| 0 <= i < order.len() && order[i] == q;
            assert(0 <= order[i] < n);
        }
    }
    vstd::set_lib::lemma_subset_equality(named, entries);
    assert(named.contains(p));
}

/// There is one order only in which a stable sort leaves the entries.
pub proof fn law_stable_order_unique(
    keys: Seq<(int, Seq<char>)>,
    first: Seq<int>,
    second: Seq<int>,
)
    requires
        stable_order(keys, first),
        stable_order(keys, second),
    ensures
        first == second,
{
    if exists|k: int| 0 <= k < keys.len() && first[k] != second[k] {
        let k = lemma_first_difference(first, second);
        lemma_every_entry_named(second, keys.len(), first[k]);
        lemma_every_entry_named(first, keys.len(), second[k]);
        let in_second = choose|j: int| 0 <= j < second.len() && second[j] == first[k];
        let in_first = choose|j: int| 0 <= j < first.len() && first[j] == second[k];
        assert(in_second > k) by {
            if in_second < k {
                assert(first[in_second] == second[in_second]);
            }
        }
        assert(in_first > k) by {
            if in_first < k {
                assert(first[in_first] == second[in_first]);
            }
        }
        assert(goes_first(keys, second[k], second[in_second]));
        assert(goes_first(keys, first[k], first[in_first]));
        law_key_before_total(keys[first[k]], keys[second[k]]);
    }
    assert(first =~= second);
}

proof fn lemma_first_difference(first: Seq<int>, second: Seq<int>) -> (k: int)
    requires
        first.len() == second.len(),
        exists|k: int| 0 <= k < first.len() && first[k] != second[k],
    ensures
        0 <= k < first.len(),
        first[k] != second[k],
        forall|j: int| 0 <= j < k ==> first[j] == second[j],
    decreases first.len(),
{
    let n = first.len() - 1;
    if exists|k: int| 0 <= k < n && first[k] != second[k] {
        let k = choose|k: int| 0 <= k < n && first[k] != second[k];
        assert(first.drop_last()[k] != second.drop_last()[k]);
        let found = lemma_first_difference(first.drop_last(), second.drop_last());
        assert forall|j: int| 0 <= j < found implies first[j] == second[j] by {
            assert(first.drop_last()[j] == second.drop_last()[j]);
        }
        found
    } else {
        n
    }
}

/// Sorting a list has one outcome only.
pub proof fn law_sorted_list_unique(
    devices: Seq<BluerDevice>,
    keys: Seq<(int, Seq<char>)>,
    first: Seq<BluerDevice>,
    second: Seq<BluerDevice>,
)
    requires
        sorted_by(devices, keys, first),
        sorted_by(devices, keys, second),
    ensures
        first == second,
{
    let a = choose|order: Seq<int>| #[trigger]
        stable_order(keys, order) && first == arranged(devices, order);
    let b = choose|order: Seq<int>| #[trigger]
        stable_order(keys, order) && second == arranged(devices, order);
    law_stable_order_unique(keys, a, b);
}

/// In a sorted list no device stands behind one that it belongs before.
pub proof fn law_list_in_order(devices: Seq<BluerDevice>, list: Seq<BluerDevice>, i: int, j: int)
    requires
        sorted_by(devices, device_keys(devices), list),
        0 <= i < j < list.len(),
    ensures
        !key_before(list[j].key(), list[i].key()),
{
    let keys = device_keys(devices);
    let order = choose|order: Seq<int>| #[trigger]
        stable_order(keys, order) && list == arranged(devices, order);
    assert(goes_first(keys, order[i], order[j]));
    law_key_before_total(list[i].key(), list[j].key());
}

/// Sorting keeps every device, as often as it was there, and adds none.
pub proof fn law_list_keeps_devices(
    devices: Seq<BluerDevice>,
    keys: Seq<(int, Seq<char>)>,
    list: Seq<BluerDevice>,
)
    requires
        keys.len() == devices.len(),
        sorted_by(devices, keys, list),
    ensures
        list.len() == devices.len(),
        list.to_multiset() == devices.to_multiset(),
{
    let order = choose|order: Seq<int>| #[trigger]
        stable_order(keys, order) && list == arranged(devices, order);
    lemma_arranged_multiset(devices, order);
}

proof fn lemma_arranged_multiset(devices: Seq<BluerDevice>, order: Seq<int>)
    requires
        order.len() == devices.len(),
        order.no_duplicates(),
        forall|i: int| 0 <= i < order.len() ==> 0 <= #[trigger] order[i] < devices.len(),
    ensures
        arranged(devices, order).to_multiset() == devices.to_multiset(),
    decreases devices.len(),
{
    broadcast use vstd::seq_lib::group_to_multiset_ensures;

    if devices.len() == 0 {
        assert(arranged(devices, order) =~= devices);
    } else {
        let n: int = devices.len() - 1;
        lemma_every_entry_named(order, devices.len(), n);
        let at = choose|j: int| 0 <= j < order.len() && order[j] == n;
        let rest = order.remove(at);
        let fewer = devices.drop_last();
        assert forall|i: int| 0 <= i < rest.len() implies 0 <= #[trigger] rest[i] < n by {
            let j = if i < at { i } else { i + 1 };
            assert(rest[i] == order[j]);
        }
        assert(rest.no_duplicates()) by {
            assert forall|i: int, j: int|
                0 <= i < rest.len() && 0 <= j < rest.len() && i != j implies rest[i]
                != rest[j] by {
                let a = if i < at { i } else { i + 1 };
                let b = if j < at { j } else { j + 1 };
                assert(rest[i] == order[a] && rest[j] == order[b]);
            }
        }
        lemma_arranged_multiset(fewer, rest);
        assert(arranged(fewer, rest) =~= arranged(devices, order).remove(at));
        assert(devices =~= fewer.push(devices[n]));
        assert(arranged(devices, order) =~= arranged(fewer, rest).insert(at, devices[n]));
    }
}

/// A list that is sorted already stays as it is.
pub proof fn law_sorting_again_changes_nothing(
    devices: Seq<BluerDevice>,
    list: Seq<BluerDevice>,
    again: Seq<BluerDevice>,
)
    requires
        sorted_by(devices, device_keys(devices), list),
        sorted_by(list, device_keys(list), again),
    ensures
        again == list,
{
    let keys = device_keys(list);
    let same = Seq::new(list.len(), |i: int| i);
    assert forall|i: int, j: int| 0 <= i < j < same.len() implies goes_first(
        keys,
        #[trigger] same[i],
        #[trigger] same[j],
    ) by {
        law_list_in_order(devices, list, i, j);
    }
    assert(stable_order(keys, same));
    assert(arranged(list, same) =~= list);
    assert(sorted_by(list, keys, list));
    law_sorted_list_unique(list, keys, list, again);
}

/// In the list a device never stands behind one whose status has a higher rank.
pub proof fn law_list_goes_by_status(
    devices: Seq<BluerDevice>,
    list: Seq<BluerDevice>,
    i: int,
    j: int,
)
    requires
        sorted_by(devices, device_keys(devices), list),
        0 <= i < j < list.len(),
    ensures
        list[i].status.rank() <= list[j].status.rank(),
{
    law_list_in_order(devices, list, i, j);
    law_key_before_by_text(list[j].key(), list[i].key());
}

/// In the list, of two devices with the same status, whichever it is, the one
/// stands first whose lower case name ends first behind a common start, or has
/// the smaller code point there.
pub proof fn law_list_goes_by_name(
    devices: Seq<BluerDevice>,
    list: Seq<BluerDevice>,
    i: int,
    j: int,
)
    requires
        sorted_by(devices, device_keys(devices), list),
        0 <= i < j < list.len(),
        list[i].status == list[j].status,
    ensures
        lowercase_text(list[i].name@) == lowercase_text(list[j].name@) || exists|k: int|
            0 <= k <= lowercase_text(list[i].name@).len() && k < lowercase_text(
                list[j].name@,
            ).len() && #[trigger] lowercase_text(list[i].name@).take(k) == lowercase_text(
                list[j].name@,
            ).take(k) && (k == lowercase_text(list[i].name@).len() || lowercase_text(
                list[i].name@,
            )[k] < lowercase_text(list[j].name@)[k]),
{
    law_list_in_order(devices, list, i, j);
    law_key_before_total(list[i].key(), list[j].key());
    law_key_before_by_text(list[i].key(), list[j].key());
}

/// The list is an arrangement of the devices, each at one place, and devices
/// with the same status and the same lower case name stay in the order in which
/// they came.
pub proof fn law_list_is_a_stable_arrangement(devices: Seq<BluerDevice>, list: Seq<BluerDevice>)
    requires
        sorted_by(devices, device_keys(devices), list),
    ensures
        exists|order: Seq<int>|
            {
                &&& order.len() == devices.len()
                &&& list.len() == devices.len()
                &&& #[trigger] order.no_duplicates()
                &&& forall|i: int|
                    0 <= i < order.len() ==> 0 <= #[trigger] order[i] < devices.len() && list[i]
                        == devices[order[i]]
                &&& forall|i: int, j: int|
                    0 <= i < j < order.len() && devices[#[trigger] order[i]].status
                        == devices[#[trigger] order[j]].status && lowercase_text(
                        devices[order[i]].name@,
                    ) == lowercase_text(devices[order[j]].name@) ==> order[i] < order[j]
            },
{
    let keys = device_keys(devices);
    let order = choose|order: Seq<int>| #[trigger]
        stable_order(keys, order) && list == arranged(devices, order);
    assert forall|i: int, j: int|
        0 <= i < j < order.len() && devices[#[trigger] order[i]].status == devices[#[trigger]
        order[j]].status && lowercase_text(devices[order[i]].name@) == lowercase_text(
            devices[order[j]].name@,
        ) implies order[i] < order[j] by {
        assert(goes_first(keys, order[i], order[j]));
        law_key_before_total(keys[order[i]], keys[order[j]]);
    }
    assert(order.no_duplicates());
}

/// Entries that carry their lower case names are sorted as their devices' ranks
/// and these names say.
pub proof fn law_entries_go_by_status_and_text(
    keyed: Seq<(BluerDevice, String)>,
    list: Seq<BluerDevice>,
)
    requires
        sorted_by(keyed_devices(keyed), keyed_keys(keyed), list),
    ensures
        exists|order: Seq<int>|
            {
                &&& order.len() == keyed.len()
                &&& list.len() == keyed.len()
                &&& #[trigger] order.no_duplicates()
                &&& forall|i: int|
                    0 <= i < order.len() ==> 0 <= #[trigger] order[i] < keyed.len() && list[i]
                        == keyed[order[i]].0
                &&& forall|i: int, j: int|
                    0 <= i < j < order.len() ==> keyed[#[trigger] order[i]].0.status.rank()
                        <= keyed[#[trigger] order[j]].0.status.rank()
                &&& forall|i: int, j: int|
                    0 <= i < j < order.len() && keyed[#[trigger] order[i]].0.status
                        == keyed[#[trigger] order[j]].0.status ==> {
                        ||| keyed[order[i]].1@ == keyed[order[j]].1@ && order[i] < order[j]
                        ||| exists|k: int|
                            0 <= k <= keyed[order[i]].1@.len() && k < keyed[order[j]].1@.len()
                                && #[trigger] keyed[order[i]].1@.take(k)
                                == keyed[order[j]].1@.take(k) && (k == keyed[order[i]].1@.len()
                                || keyed[order[i]].1@[k] < keyed[order[j]].1@[k])
                    }
            },
{
    let keys = keyed_keys(keyed);
    let order = choose|order: Seq<int>| #[trigger]
        stable_order(keys, order) && list == arranged(keyed_devices(keyed), order);
    assert forall|i: int, j: int| 0 <= i < j < order.len() implies keyed[#[trigger]
    order[i]].0.status.rank() <= keyed[#[trigger] order[j]].0.status.rank() by {
        assert(goes_first(keys, order[i], order[j]));
        law_key_before_by_text(keys[order[i]], keys[order[j]]);
        law_key_before_by_text(keys[order[j]], keys[order[i]]);
    }
    assert forall|i: int, j: int|
        0 <= i < j < order.len() && keyed[#[trigger] order[i]].0.status == keyed[#[trigger]
        order[j]].0.status implies {
        ||| keyed[order[i]].1@ == keyed[order[j]].1@ && order[i] < order[j]
        ||| exists|k: int|
            0 <= k <= keyed[order[i]].1@.len() && k < keyed[order[j]].1@.len()
                && #[trigger] keyed[order[i]].1@.take(k) == keyed[order[j]].1@.take(k) && (k
                == keyed[order[i]].1@.len() || keyed[order[i]].1@[k] < keyed[order[j]].1@[k])
    } by {
        let a = keys[order[i]];
        let b = keys[order[j]];
        assert(a == (keyed[order[i]].0.status.rank(), keyed[order[i]].1@));
        assert(b == (keyed[order[j]].0.status.rank(), keyed[order[j]].1@));
        assert(goes_first(keys, order[i], order[j]));
        law_key_before_total(a, b);
        law_key_before_by_text(a, b);
    }
    assert(order.no_duplicates());
}

/// The places of the readings that could be taken, in order.
spec fn opened_places<E>(readings: Seq<Result<DeviceReading<E>, E>>) -> Seq<int> {
    places_of(readings, |reading: Result<DeviceReading<E>, E>| reading is Ok)
}

proof fn lemma_opened<E>(readings: Seq<Result<DeviceReading<E>, E>>)
    ensures
        opened(readings).len() == readings.filter(
            |reading: Result<DeviceReading<E>, E>| reading is Ok,
        ).len(),
        forall|i: int|
            0 <= i < opened(readings).len() ==> Ok::<DeviceReading<E>, E>(
                #[trigger] opened(readings)[i],
            ) == readings.filter(|reading: Result<DeviceReading<E>, E>| reading is Ok)[i],
    decreases readings.len(),
{
    reveal(Seq::filter);
    if readings.len() > 0 {
        lemma_opened(readings.drop_last());
    }
}

/// Of the readings of an adapter's devices those are kept that could be taken,
/// all of them, in order; none where the addresses could not be read.
pub proof fn law_readable_keeps_what_was_opened<E>(
    readings: Result<Vec<Result<DeviceReading<E>, E>>, E>,
)
    ensures
        readings is Err ==> readable(readings).len() == 0,
        readings matches Ok(found) ==> exists|places: Seq<int>|
            {
                &&& #[trigger] places.len() == readable(readings).len()
                &&& forall|i: int|
                    0 <= i < places.len() ==> 0 <= #[trigger] places[i] < found@.len()
                        && found@[places[i]] == Ok::<DeviceReading<E>, E>(readable(readings)[i])
                &&& forall|i: int, j: int|
                    0 <= i < j < places.len() ==> #[trigger] places[i] < #[trigger] places[j]
                &&& forall|p: int|
                    0 <= p < found@.len() && #[trigger] found@[p] is Ok ==> places.contains(p)
            },
{
    if let Ok(found) = readings {
        let wanted = |reading: Result<DeviceReading<E>, E>| reading is Ok;
        let places = opened_places(found@);
        law_selection_keeps_order(found@, wanted);
        lemma_opened(found@);
        assert(places.len() == readable(readings).len());
        assert forall|i: int| 0 <= i < places.len() implies 0 <= #[trigger] places[i] < found@.len()
            && found@[places[i]] == Ok::<DeviceReading<E>, E>(readable(readings)[i]) by {
            assert(Ok::<DeviceReading<E>, E>(opened(found@)[i]) == found@.filter(wanted)[i]);
        }
    }
}

/// The list of an adapter's devices shows every reading that could be taken at
/// one place, and nothing else.
pub proof fn law_list_shows_every_reading<E>(
    readings: Seq<DeviceReading<E>>,
    devices: Seq<BluerDevice>,
    list: Seq<BluerDevice>,
)
    requires
        all_shown(readings, devices),
        sorted_by(devices, device_keys(devices), list),
    ensures
        exists|order: Seq<int>|
            {
                &&& order.len() == readings.len()
                &&& list.len() == readings.len()
                &&& #[trigger] order.no_duplicates()
                &&& forall|i: int|
                    0 <= i < order.len() ==> 0 <= #[trigger] order[i] < readings.len()
                        && readings[order[i]].shown_as(list[i])
            },
{
    let keys = device_keys(devices);
    let order = choose|order: Seq<int>| #[trigger]
        stable_order(keys, order) && list == arranged(devices, order);
    assert forall|i: int| 0 <= i < order.len() implies 0 <= #[trigger] order[i] < readings.len()
        && readings[order[i]].shown_as(list[i]) by {
        assert(readings[order[i]].shown_as(devices[order[i]]));
    }
    assert(order.no_duplicates());
}

} // verus!
