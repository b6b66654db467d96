//! The entities of a device by their place: a peripheral by its index, a
//! register by the indices of its peripheral and of itself, a field by
//! three indices. A table of entities in progress holds such places, each
//! at most once, so it is never longer than the device has entities.

use vstd::prelude::*;
use crate::lookup::{field_in, first_index, lemma_first_index, locate_field, locate_peripheral,
    locate_register, peripheral_names, register_in, split_path};
use crate::raw::RawDeviceView;

verus! {

/// `p` is the index of a peripheral.
pub open spec fn is_peripheral(device: RawDeviceView, p: int) -> bool {
    0 <= p < device.peripherals.len()
}

/// `(p, r)` is the place of a register.
pub open spec fn is_register(device: RawDeviceView, p: int, r: int) -> bool {
    is_peripheral(device, p) && 0 <= r < device.peripherals[p].registers.len()
}

/// `(p, r, f)` is the place of a field.
pub open spec fn is_field(device: RawDeviceView, p: int, r: int, f: int) -> bool {
    is_register(device, p, r) && 0 <= f < device.peripherals[p].registers[r].fields.len()
}

/// The places of all peripherals.
pub open spec fn peripheral_keys(device: RawDeviceView) -> Seq<int> {
    Seq::new(device.peripherals.len(), |p: int| p)
}

/// The places of the registers of the first `n` peripherals.
pub open spec fn register_keys_upto(device: RawDeviceView, n: int) -> Seq<(int, int)>
    decreases n,
{
    if n <= 0 {
        Seq::empty()
    } else {
        register_keys_upto(device, n - 1) + Seq::new(
            device.peripherals[n - 1].registers.len(),
            |r: int| (n - 1, r),
        )
    }
}

/// The places of all registers.
pub open spec fn register_keys(device: RawDeviceView) -> Seq<(int, int)> {
    register_keys_upto(device, device.peripherals.len() as int)
}

/// The places of the fields of the first `m` registers of peripheral `p`.
pub open spec fn field_keys_in(device: RawDeviceView, p: int, m: int) -> Seq<(int, int, int)>
    decreases m,
{
    if m <= 0 {
        Seq::empty()
    } else {
        field_keys_in(device, p, m - 1) + Seq::new(
            device.peripherals[p].registers[m - 1].fields.len(),
            |f: int| (p, m - 1, f),
        )
    }
}

/// The places of the fields of the first `n` peripherals.
pub open spec fn field_keys_upto(device: RawDeviceView, n: int) -> Seq<(int, int, int)>
    decreases n,
{
    if n <= 0 {
        Seq::empty()
    } else {
        field_keys_upto(device, n - 1) + field_keys_in(
            device,
            n - 1,
            device.peripherals[n - 1].registers.len() as int,
        )
    }
}

/// The places of all fields.
pub open spec fn field_keys(device: RawDeviceView) -> Seq<(int, int, int)> {
    field_keys_upto(device, device.peripherals.len() as int)
}

/// A table of peripherals in progress: places of peripherals, each once.
pub open spec fn pending_peripherals(device: RawDeviceView, table: Seq<int>) -> bool {
    &&& table.no_duplicates()
    &&& forall|i: int| 0 <= i < table.len() ==> is_peripheral(device, #[trigger] table[i])
}

/// A table of registers in progress: places of registers, each once.
pub open spec fn pending_registers(device: RawDeviceView, table: Seq<(int, int)>) -> bool {
    &&& table.no_duplicates()
    &&& forall|i: int|
        0 <= i < table.len() ==> is_register(device, (#[trigger] table[i]).0, table[i].1)
}

/// A table of fields in progress: places of fields, each once.
pub open spec fn pending_fields(device: RawDeviceView, table: Seq<(int, int, int)>) -> bool {
    &&& table.no_duplicates()
    &&& forall|i: int|
        0 <= i < table.len() ==> is_field(
            device,
            (#[trigger] table[i]).0,
            table[i].1,
            table[i].2,
        )
}

/// A list without duplicates whose entries all occur in `universe` is no
/// longer than `universe` has distinct entries.
pub proof fn lemma_table_bounded<K>(universe: Seq<K>, table: Seq<K>)
    requires
        table.no_duplicates(),
        forall|i: int| 0 <= i < table.len() ==> universe.contains(#[trigger] table[i]),
    ensures
        table.len() <= universe.to_set().len(),
{
    table.unique_seq_to_set();
    vstd::seq_lib::seq_to_set_is_finite(universe);
    assert forall|k: K| table.to_set().contains(k) implies universe.to_set().contains(k) by {
        let i = choose|i: int| 0 <= i < table.len() && table[i] == k;
        assert(universe.contains(table[i]));
    }
    vstd::set_lib::lemma_len_subset(table.to_set(), universe.to_set());
}

/// A table stays a table when an entry that it does not hold is added.
pub proof fn lemma_table_push<K>(table: Seq<K>, key: K)
    requires
        table.no_duplicates(),
        !table.contains(key),
    ensures
        table.push(key).no_duplicates(),
{
    let longer = table.push(key);
    assert forall|i: int, j: int|
        0 <= i < longer.len() && 0 <= j < longer.len() && i != j implies longer[i] != longer[j] by {
        if i < table.len() && j < table.len() {
        } else if i < table.len() {
            assert(table[i] == longer[i]);
            assert(table.contains(table[i]));
        } else {
            assert(table[j] == longer[j]);
            assert(table.contains(table[j]));
        }
    }
}

proof fn lemma_register_key_listed(device: RawDeviceView, p: int, r: int, n: int)
    requires
        is_register(device, p, r),
        p < n <= device.peripherals.len(),
    ensures
        register_keys_upto(device, n).contains((p, r)),
    decreases n,
{
    let before = register_keys_upto(device, n - 1);
    let last = Seq::new(device.peripherals[n - 1].registers.len(), |r: int| (n - 1, r));
    if p == n - 1 {
        assert((before + last)[before.len() + r] == (p, r));
    } else {
        lemma_register_key_listed(device, p, r, n - 1);
        let i = choose|i: int| 0 <= i < before.len() && before[i] == (p, r);
        assert((before + last)[i] == (p, r));
    }
}

proof fn lemma_field_key_listed_in(device: RawDeviceView, p: int, r: int, f: int, m: int)
    requires
        is_field(device, p, r, f),
        r < m <= device.peripherals[p].registers.len(),
    ensures
        field_keys_in(device, p, m).contains((p, r, f)),
    decreases m,
{
    let before = field_keys_in(device, p, m - 1);
    let last = Seq::new(
        device.peripherals[p].registers[m - 1].fields.len(),
        |f: int| (p, m - 1, f),
    );
    if r == m - 1 {
        assert((before + last)[before.len() + f] == (p, r, f));
    } else {
        lemma_field_key_listed_in(device, p, r, f, m - 1);
        let i = choose|i: int| 0 <= i < before.len() && before[i] == (p, r, f);
        assert((before + last)[i] == (p, r, f));
    }
}

proof fn lemma_field_key_listed(device: RawDeviceView, p: int, r: int, f: int, n: int)
    requires
        is_field(device, p, r, f),
        p < n <= device.peripherals.len(),
    ensures
        field_keys_upto(device, n).contains((p, r, f)),
    decreases n,
{
    let before = field_keys_upto(device, n - 1);
    let last = field_keys_in(device, n - 1, device.peripherals[n - 1].registers.len() as int);
    if p == n - 1 {
        lemma_field_key_listed_in(device, p, r, f, device.peripherals[p].registers.len() as int);
        let i = choose|i: int| 0 <= i < last.len() && last[i] == (p, r, f);
        assert((before + last)[before.len() + i] == (p, r, f));
    } else {
        lemma_field_key_listed(device, p, r, f, n - 1);
        let i = choose|i: int| 0 <= i < before.len() && before[i] == (p, r, f);
        assert((before + last)[i] == (p, r, f));
    }
}

/// A table of peripherals in progress can take one more peripheral, and is
/// then still no longer than the device has peripherals.
pub proof fn lemma_pending_peripherals_push(device: RawDeviceView, table: Seq<int>, p: int)
    requires
        pending_peripherals(device, table),
        is_peripheral(device, p),
        !table.contains(p),
    ensures
        pending_peripherals(device, table.push(p)),
        table.len() < peripheral_keys(device).to_set().len(),
{
    lemma_table_push(table, p);
    let longer = table.push(p);
    assert forall|i: int| 0 <= i < longer.len() implies peripheral_keys(device).contains(
        #[trigger] longer[i],
    ) by {
        assert(is_peripheral(device, longer[i]));
        assert(peripheral_keys(device)[longer[i]] == longer[i]);
    }
    lemma_table_bounded(peripheral_keys(device), longer);
}

/// A table of registers in progress can take one more register, and is
/// then still no longer than the device has registers.
pub proof fn lemma_pending_registers_push(
    device: RawDeviceView,
    table: Seq<(int, int)>,
    p: int,
    r: int,
)
    requires
        pending_registers(device, table),
        is_register(device, p, r),
        !table.contains((p, r)),
    ensures
        pending_registers(device, table.push((p, r))),
        table.len() < register_keys(device).to_set().len(),
{
    lemma_table_push(table, (p, r));
    let longer = table.push((p, r));
    assert forall|i: int| 0 <= i < longer.len() implies register_keys(device).contains(
        #[trigger] longer[i],
    ) by {
        assert(is_register(device, longer[i].0, longer[i].1));
        lemma_register_key_listed(
            device,
            longer[i].0,
            longer[i].1,
            device.peripherals.len() as int,
        );
    }
    lemma_table_bounded(register_keys(device), longer);
}

/// A table of fields in progress can take one more field, and is then
/// still no longer than the device has fields.
pub proof fn lemma_pending_fields_push(
    device: RawDeviceView,
    table: Seq<(int, int, int)>,
    p: int,
    r: int,
    f: int,
)
    requires
        pending_fields(device, table),
        is_field(device, p, r, f),
        !table.contains((p, r, f)),
    ensures
        pending_fields(device, table.push((p, r, f))),
        table.len() < field_keys(device).to_set().len(),
{
    lemma_table_push(table, (p, r, f));
    let longer = table.push((p, r, f));
    assert forall|i: int| 0 <= i < longer.len() implies field_keys(device).contains(
        #[trigger] longer[i],
    ) by {
        assert(is_field(device, longer[i].0, longer[i].1, longer[i].2));
        lemma_field_key_listed(
            device,
            longer[i].0,
            longer[i].1,
            longer[i].2,
            device.peripherals.len() as int,
        );
    }
    lemma_table_bounded(field_keys(device), longer);
}

/// What a reference names is an entity of the device.
pub proof fn lemma_located_peripheral(device: RawDeviceView, reference: Seq<char>)
    ensures
        locate_peripheral(device, reference) is Some ==> is_peripheral(
            device,
            locate_peripheral(device, reference)->0,
        ),
{
    let parts = split_path(reference);
    lemma_first_index(peripheral_names(device), parts[0]);
}

proof fn lemma_register_in(device: RawDeviceView, p: int, name: Seq<char>)
    requires
        is_peripheral(device, p),
    ensures
        register_in(device, p, name) is Some ==> ({
            let found = register_in(device, p, name).unwrap();
            found.0 == p && is_register(device, p, found.1)
        }),
{
    lemma_first_index(crate::lookup::register_names(device, p), name);
}

proof fn lemma_field_in(device: RawDeviceView, p: int, r: int, name: Seq<char>)
    requires
        is_register(device, p, r),
    ensures
        field_in(device, p, r, name) is Some ==> ({
            let found = field_in(device, p, r, name).unwrap();
            found.0 == p && found.1 == r && is_field(device, p, r, found.2)
        }),
{
    lemma_first_index(crate::lookup::field_names(device, p, r), name);
}

/// What a reference names is an entity of the device.
pub proof fn lemma_located_register(device: RawDeviceView, scope: int, reference: Seq<char>)
    requires
        is_peripheral(device, scope),
    ensures
        locate_register(device, scope, reference) is Some ==> ({
            let found = locate_register(device, scope, reference).unwrap();
            is_register(device, found.0, found.1)
        }),
{
    let parts = split_path(reference);
    if parts.len() == 1 {
        lemma_register_in(device, scope, parts[0]);
    } else if parts.len() == 2 {
        lemma_first_index(peripheral_names(device), parts[0]);
        match first_index(peripheral_names(device), parts[0]) {
            Some(p) => lemma_register_in(device, p, parts[1]),
            None => {},
        }
    }
}

/// What a reference names is an entity of the device.
pub proof fn lemma_located_field(
    device: RawDeviceView,
    scope_p: int,
    scope_r: int,
    reference: Seq<char>,
)
    requires
        is_register(device, scope_p, scope_r),
    ensures
        locate_field(device, scope_p, scope_r, reference) is Some ==> ({
            let found = locate_field(device, scope_p, scope_r, reference).unwrap();
            is_field(device, found.0, found.1, found.2)
        }),
{
    let parts = split_path(reference);
    if parts.len() == 1 {
        lemma_field_in(device, scope_p, scope_r, parts[0]);
    } else if parts.len() == 2 {
        lemma_register_in(device, scope_p, parts[0]);
        match register_in(device, scope_p, parts[0]) {
            Some((p, r)) => lemma_field_in(device, p, r, parts[1]),
            None => {},
        }
    } else if parts.len() == 3 {
        lemma_first_index(peripheral_names(device), parts[0]);
        match first_index(peripheral_names(device), parts[0]) {
            Some(p) => {
                lemma_register_in(device, p, parts[1]);
                match register_in(device, p, parts[1]) {
                    Some((q, r)) => lemma_field_in(device, q, r, parts[2]),
                    None => {},
                }
            },
            None => {},
        }
    }
}

} // verus!
