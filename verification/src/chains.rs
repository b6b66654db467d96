//! How the resolved form of an entity depends on the entities in progress:
//! not at all, as long as it resolves.

use vstd::prelude::*;
use crate::error::ConversionErrorView;
use crate::keys::{field_keys, is_field, is_peripheral, is_register, lemma_located_field,
    lemma_located_peripheral, lemma_located_register, lemma_pending_fields_push,
    lemma_pending_peripherals_push, lemma_pending_registers_push, pending_fields,
    pending_peripherals, pending_registers, peripheral_keys, register_keys};
use crate::lookup::{locate_field, locate_peripheral, locate_register};
use crate::raw::{RawDeviceView, RawFieldView, RawPeripheralView, RawRegisterView};
use crate::resolved::{field_path, peripheral_path, register_path, resolved_field,
    resolved_peripheral, resolved_register};

verus! {

/// Every entry of `small` is an entry of `big`.
pub open spec fn within<T>(small: Seq<T>, big: Seq<T>) -> bool {
    forall|e: T| small.contains(e) ==> big.contains(e)
}

/// Adding the same entry to both keeps one within the other.
pub proof fn lemma_within_push<T>(small: Seq<T>, big: Seq<T>, x: T)
    requires
        within(small, big),
    ensures
        within(small.push(x), big.push(x)),
{
    assert forall|e: T| small.push(x).contains(e) implies big.push(x).contains(e) by {
        let i = choose|i: int| 0 <= i < small.push(x).len() && small.push(x)[i] == e;
        if i < small.len() {
            assert(small[i] == e);
            assert(small.contains(e));
            let j = choose|j: int| 0 <= j < big.len() && big[j] == e;
            assert(big.push(x)[j] == e);
        } else {
            assert(big.push(x)[big.len() as int] == e);
        }
    }
}

// ---------------------------------------------------------------------
// Chains of peripherals
// ---------------------------------------------------------------------

/// The peripheral that the peripheral at the given place derives from, where it
/// derives from one.
pub open spec fn peripheral_target(device: RawDeviceView, p: int) -> Option<int> {
    match device.peripherals[p].derived_from {
        Some(reference) => locate_peripheral(device, reference),
        None => None,
    }
}

/// The peripheral at place `j` of `chain` derives from the next one of the
/// chain, or from the one at `end` where it is the last.
pub open spec fn peripheral_link(device: RawDeviceView, chain: Seq<int>, end: int, j: int) -> bool {
    peripheral_target(device, chain[j]) == Some(
        if j + 1 < chain.len() {
            chain[j + 1]
        } else {
            end
        },
    )
}

/// Each peripheral of `chain` derives from the next one, and the last from the
/// one at `end`.
pub open spec fn is_peripheral_chain(device: RawDeviceView, chain: Seq<int>, end: int) -> bool {
    forall|j: int| 0 <= j < chain.len() ==> #[trigger] peripheral_link(device, chain, end, j)
}

/// A peripheral that resolves while some peripherals are in progress resolves to the
/// same form while fewer are.
pub proof fn lemma_peripheral_with_fewer_in_progress(
    device: RawDeviceView,
    p: int,
    small: Seq<int>,
    big: Seq<int>,
)
    requires
        is_peripheral(device, p),
        pending_peripherals(device, small),
        pending_peripherals(device, big),
        within(small, big),
        resolved_peripheral(device, p, big) is Ok,
    ensures
        resolved_peripheral(device, p, small) == resolved_peripheral(device, p, big),
    decreases peripheral_keys(device).to_set().len() - big.len(),
{
    let own = device.peripherals[p];
    if own.derived_from is Some {
        let reference = own.derived_from->0;
        let target = locate_peripheral(device, reference)->0;
        lemma_located_peripheral(device, reference);
        lemma_pending_peripherals_push(device, big, p);
        lemma_pending_peripherals_push(device, small, p);
        lemma_within_push(small, big, p);
        lemma_peripheral_with_fewer_in_progress(
            device,
            target,
            small.push(p),
            big.push(p),
        );
    }
}

/// Along a cycle every peripheral fails as cyclic, with the path of the peripheral
/// at which the cycle was entered.
pub proof fn lemma_peripheral_cycle(device: RawDeviceView, cycle: Seq<int>, k: int)
    requires
        pending_peripherals(device, cycle),
        0 <= k < cycle.len(),
        is_peripheral_chain(device, cycle, cycle[0]),
    ensures
        resolved_peripheral(
            device,
            cycle[k],
            cycle.take(k),
        ) == Err::<RawPeripheralView, ConversionErrorView>(
            ConversionErrorView::CyclicDerivation { path: peripheral_path(device, cycle[0]) },
        ),
    decreases cycle.len() - k,
{
    let visiting = cycle.take(k);
    let here = cycle[k];
    let first = cycle[0];
    assert(here == here && first == first);
    assert(is_peripheral(device, here));
    assert(is_peripheral(device, first));
    assert(pending_peripherals(device, visiting)) by {
        assert forall|i: int| 0 <= i < visiting.len() implies is_peripheral(
            device,
            visiting[i],
        ) by {
            assert(visiting[i] == cycle[i]);
        }
    }
    if visiting.contains(here) {
        let j = choose|j: int| 0 <= j < visiting.len() && visiting[j] == here;
        assert(cycle[j] == cycle[k]);
    }
    assert(peripheral_link(device, cycle, first, k));
    assert(peripheral_link(device, cycle, first, 0));
    assert(peripheral_target(device, here) is Some);
    assert(peripheral_target(device, first) is Some);
    assert(visiting.push(here) =~= cycle.take(k + 1));
    let failure = Err::<RawPeripheralView, ConversionErrorView>(
        ConversionErrorView::CyclicDerivation { path: peripheral_path(device, first) },
    );
    if k + 1 < cycle.len() {
        let next = cycle[k + 1];
        assert(next == next);
        lemma_peripheral_cycle(device, cycle, k + 1);
        assert(resolved_peripheral(device, next, cycle.take(k + 1)) == failure);
        assert(peripheral_target(device, here) == Some(next));
    } else {
        assert(cycle.take(k + 1) =~= cycle);
        assert(cycle.contains(first));
        assert(resolved_peripheral(device, first, cycle) == failure);
        assert(peripheral_target(device, here) == Some(first));
    }
    assert(resolved_peripheral(device, here, visiting) == failure);
}

/// The part of a table from place `j` on is a table.
proof fn lemma_pending_peripherals_skip(device: RawDeviceView, table: Seq<int>, j: int)
    requires
        pending_peripherals(device, table),
        0 <= j <= table.len(),
    ensures
        pending_peripherals(device, table.skip(j)),
{
    let rest = table.skip(j);
    assert forall|a: int, b: int|
        0 <= a < rest.len() && 0 <= b < rest.len() && a != b implies rest[a] != rest[b] by {
        assert(rest[a] == table[j + a]);
        assert(rest[b] == table[j + b]);
    }
    assert forall|i: int| 0 <= i < rest.len() implies is_peripheral(device, rest[i]) by {
        assert(rest[i] == table[j + i]);
    }
}

/// The part of a chain from a peripheral on, where the chain leads back to that
/// peripheral, is a cycle.
proof fn lemma_peripheral_chain_closes(device: RawDeviceView, chain: Seq<int>, j: int)
    requires
        0 <= j < chain.len(),
        is_peripheral_chain(device, chain, chain[j]),
    ensures
        is_peripheral_chain(device, chain.skip(j), chain.skip(j)[0]),
{
    let cycle = chain.skip(j);
    assert(cycle[0] == chain[j]);
    assert forall|i: int| 0 <= i < cycle.len() implies #[trigger] peripheral_link(
        device,
        cycle,
        cycle[0],
        i,
    ) by {
        assert(peripheral_link(device, chain, chain[j], j + i));
        assert(cycle[i] == chain[j + i]);
        if i + 1 < cycle.len() {
            assert(cycle[i + 1] == chain[j + i + 1]);
        }
    }
}

/// A peripheral that lies on a chain which leads to it does not resolve.
pub proof fn lemma_peripheral_on_own_chain(device: RawDeviceView, p: int, chain: Seq<int>)
    requires
        pending_peripherals(device, chain),
        is_peripheral_chain(device, chain, p),
        chain.contains(p),
    ensures
        resolved_peripheral(device, p, Seq::empty()) is Err,
{
    let j = choose|j: int| 0 <= j < chain.len() && chain[j] == p;
    let cycle = chain.skip(j);
    assert(cycle[0] == p);
    lemma_pending_peripherals_skip(device, chain, j);
    lemma_peripheral_chain_closes(device, chain, j);
    lemma_peripheral_cycle(device, cycle, 0);
    assert(cycle.take(0) =~= Seq::<int>::empty());
}

/// A chain that leads to a peripheral leads, with that peripheral added, to the one
/// it derives from.
pub proof fn lemma_peripheral_chain_push(
    device: RawDeviceView,
    p: int,
    chain: Seq<int>,
    target: int,
)
    requires
        is_peripheral_chain(device, chain, p),
        peripheral_target(device, p) == Some(target),
    ensures
        is_peripheral_chain(device, chain.push(p), target),
{
    let longer = chain.push(p);
    assert forall|i: int| 0 <= i < longer.len() implies #[trigger] peripheral_link(
        device,
        longer,
        target,
        i,
    ) by {
        if i < chain.len() {
            assert(peripheral_link(device, chain, p, i));
            assert(longer[i] == chain[i]);
            if i + 1 < chain.len() {
                assert(longer[i + 1] == chain[i + 1]);
            } else {
                assert(longer[i + 1] == p);
            }
        } else {
            assert(longer[i] == p);
        }
    }
}

/// A peripheral that resolves on its own resolves to the same form behind a
/// chain of peripherals in progress that leads to it.
pub proof fn lemma_peripheral_behind_chain(device: RawDeviceView, p: int, chain: Seq<int>)
    requires
        is_peripheral(device, p),
        pending_peripherals(device, chain),
        is_peripheral_chain(device, chain, p),
        resolved_peripheral(device, p, Seq::empty()) is Ok,
    ensures
        resolved_peripheral(device, p, chain) == resolved_peripheral(device, p, Seq::empty()),
    decreases peripheral_keys(device).to_set().len() - chain.len(),
{
    let own = device.peripherals[p];
    let nothing = Seq::<int>::empty();
    if own.derived_from is Some {
        let reference = own.derived_from->0;
        if chain.contains(p) {
            lemma_peripheral_on_own_chain(device, p, chain);
        }
        let target = locate_peripheral(device, reference)->0;
        lemma_located_peripheral(device, reference);
        assert(pending_peripherals(device, nothing));
        lemma_pending_peripherals_push(device, nothing, p);
        lemma_pending_peripherals_push(device, chain, p);
        assert(within(nothing, nothing.push(p)));
        assert(target == target);
        lemma_peripheral_with_fewer_in_progress(device, target, nothing, nothing.push(p));
        lemma_peripheral_chain_push(device, p, chain, target);
        lemma_peripheral_behind_chain(device, target, chain.push(p));
    }
}

// ---------------------------------------------------------------------
// Chains of registers
// ---------------------------------------------------------------------

/// The register that the register at the given place derives from, where it
/// derives from one.
pub open spec fn register_target(device: RawDeviceView, p: int, r: int) -> Option<(int, int)> {
    match device.peripherals[p].registers[r].derived_from {
        Some(reference) => locate_register(device, p, reference),
        None => None,
    }
}

/// The register at place `j` of `chain` derives from the next one of the
/// chain, or from the one at `end` where it is the last.
pub open spec fn register_link(
    device: RawDeviceView,
    chain: Seq<(int, int)>,
    end: (int, int),
    j: int,
) -> bool {
    register_target(device, chain[j].0, chain[j].1) == Some(
        if j + 1 < chain.len() {
            chain[j + 1]
        } else {
            end
        },
    )
}

/// Each register of `chain` derives from the next one, and the last from the
/// one at `end`.
pub open spec fn is_register_chain(
    device: RawDeviceView,
    chain: Seq<(int, int)>,
    end: (int, int),
) -> bool {
    forall|j: int| 0 <= j < chain.len() ==> #[trigger] register_link(device, chain, end, j)
}

/// A register that resolves while some registers are in progress resolves to the
/// same form while fewer are.
pub proof fn lemma_register_with_fewer_in_progress(
    device: RawDeviceView,
    p: int, r: int,
    small: Seq<(int, int)>,
    big: Seq<(int, int)>,
)
    requires
        is_register(device, p, r),
        pending_registers(device, small),
        pending_registers(device, big),
        within(small, big),
        resolved_register(device, p, r, big) is Ok,
    ensures
        resolved_register(device, p, r, small) == resolved_register(device, p, r, big),
    decreases register_keys(device).to_set().len() - big.len(),
{
    let own = device.peripherals[p].registers[r];
    if own.derived_from is Some {
        let reference = own.derived_from->0;
        let target = locate_register(device, p, reference)->0;
        lemma_located_register(device, p, reference);
        lemma_pending_registers_push(device, big, p, r);
        lemma_pending_registers_push(device, small, p, r);
        lemma_within_push(small, big, (p, r));
        lemma_register_with_fewer_in_progress(
            device,
            target.0, target.1,
            small.push((p, r)),
            big.push((p, r)),
        );
    }
}

/// Along a cycle every register fails as cyclic, with the path of the register
/// at which the cycle was entered.
pub proof fn lemma_register_cycle(device: RawDeviceView, cycle: Seq<(int, int)>, k: int)
    requires
        pending_registers(device, cycle),
        0 <= k < cycle.len(),
        is_register_chain(device, cycle, cycle[0]),
    ensures
        resolved_register(
            device,
            cycle[k].0,
            cycle[k].1,
            cycle.take(k),
        ) == Err::<RawRegisterView, ConversionErrorView>(
            ConversionErrorView::CyclicDerivation { path: register_path(
                device,
                cycle[0].0,
                cycle[0].1,
            ) },
        ),
    decreases cycle.len() - k,
{
    let visiting = cycle.take(k);
    let here = cycle[k];
    let first = cycle[0];
    assert(here == (here.0, here.1) && first == (first.0, first.1));
    assert(is_register(device, here.0, here.1));
    assert(is_register(device, first.0, first.1));
    assert(pending_registers(device, visiting)) by {
        assert forall|i: int| 0 <= i < visiting.len() implies is_register(
            device,
            visiting[i].0,
            visiting[i].1,
        ) by {
            assert(visiting[i] == cycle[i]);
        }
    }
    if visiting.contains(here) {
        let j = choose|j: int| 0 <= j < visiting.len() && visiting[j] == here;
        assert(cycle[j] == cycle[k]);
    }
    assert(register_link(device, cycle, first, k));
    assert(register_link(device, cycle, first, 0));
    assert(register_target(device, here.0, here.1) is Some);
    assert(register_target(device, first.0, first.1) is Some);
    assert(visiting.push((here.0, here.1)) =~= cycle.take(k + 1));
    let failure = Err::<RawRegisterView, ConversionErrorView>(
        ConversionErrorView::CyclicDerivation { path: register_path(device, first.0, first.1) },
    );
    if k + 1 < cycle.len() {
        let next = cycle[k + 1];
        assert(next == (next.0, next.1));
        lemma_register_cycle(device, cycle, k + 1);
        assert(resolved_register(device, next.0, next.1, cycle.take(k + 1)) == failure);
        assert(register_target(device, here.0, here.1) == Some(next));
    } else {
        assert(cycle.take(k + 1) =~= cycle);
        assert(cycle.contains((first.0, first.1)));
        assert(resolved_register(device, first.0, first.1, cycle) == failure);
        assert(register_target(device, here.0, here.1) == Some(first));
    }
    assert(resolved_register(device, here.0, here.1, visiting) == failure);
}

/// The part of a table from place `j` on is a table.
proof fn lemma_pending_registers_skip(device: RawDeviceView, table: Seq<(int, int)>, j: int)
    requires
        pending_registers(device, table),
        0 <= j <= table.len(),
    ensures
        pending_registers(device, table.skip(j)),
{
    let rest = table.skip(j);
    assert forall|a: int, b: int|
        0 <= a < rest.len() && 0 <= b < rest.len() && a != b implies rest[a] != rest[b] by {
        assert(rest[a] == table[j + a]);
        assert(rest[b] == table[j + b]);
    }
    assert forall|i: int| 0 <= i < rest.len() implies is_register(device, rest[i].0, rest[i].1) by {
        assert(rest[i] == table[j + i]);
    }
}

/// The part of a chain from a register on, where the chain leads back to that
/// register, is a cycle.
proof fn lemma_register_chain_closes(device: RawDeviceView, chain: Seq<(int, int)>, j: int)
    requires
        0 <= j < chain.len(),
        is_register_chain(device, chain, chain[j]),
    ensures
        is_register_chain(device, chain.skip(j), chain.skip(j)[0]),
{
    let cycle = chain.skip(j);
    assert(cycle[0] == chain[j]);
    assert forall|i: int| 0 <= i < cycle.len() implies #[trigger] register_link(
        device,
        cycle,
        cycle[0],
        i,
    ) by {
        assert(register_link(device, chain, chain[j], j + i));
        assert(cycle[i] == chain[j + i]);
        if i + 1 < cycle.len() {
            assert(cycle[i + 1] == chain[j + i + 1]);
        }
    }
}

/// A register that lies on a chain which leads to it does not resolve.
pub proof fn lemma_register_on_own_chain(
    device: RawDeviceView,
    p: int,
    r: int,
    chain: Seq<(int, int)>,
)
    requires
        pending_registers(device, chain),
        is_register_chain(device, chain, (p, r)),
        chain.contains((p, r)),
    ensures
        resolved_register(device, p, r, Seq::empty()) is Err,
{
    let j = choose|j: int| 0 <= j < chain.len() && chain[j] == (p, r);
    let cycle = chain.skip(j);
    assert(cycle[0] == (p, r));
    lemma_pending_registers_skip(device, chain, j);
    lemma_register_chain_closes(device, chain, j);
    lemma_register_cycle(device, cycle, 0);
    assert(cycle.take(0) =~= Seq::<(int, int)>::empty());
}

/// A chain that leads to a register leads, with that register added, to the one
/// it derives from.
pub proof fn lemma_register_chain_push(
    device: RawDeviceView,
    p: int,
    r: int,
    chain: Seq<(int, int)>,
    target: (int, int),
)
    requires
        is_register_chain(device, chain, (p, r)),
        register_target(device, p, r) == Some(target),
    ensures
        is_register_chain(device, chain.push((p, r)), target),
{
    let longer = chain.push((p, r));
    assert forall|i: int| 0 <= i < longer.len() implies #[trigger] register_link(
        device,
        longer,
        target,
        i,
    ) by {
        if i < chain.len() {
            assert(register_link(device, chain, (p, r), i));
            assert(longer[i] == chain[i]);
            if i + 1 < chain.len() {
                assert(longer[i + 1] == chain[i + 1]);
            } else {
                assert(longer[i + 1] == (p, r));
            }
        } else {
            assert(longer[i] == (p, r));
        }
    }
}

/// A register that resolves on its own resolves to the same form behind a
/// chain of registers in progress that leads to it.
pub proof fn lemma_register_behind_chain(
    device: RawDeviceView,
    p: int,
    r: int,
    chain: Seq<(int, int)>,
)
    requires
        is_register(device, p, r),
        pending_registers(device, chain),
        is_register_chain(device, chain, (p, r)),
        resolved_register(device, p, r, Seq::empty()) is Ok,
    ensures
        resolved_register(device, p, r, chain) == resolved_register(device, p, r, Seq::empty()),
    decreases register_keys(device).to_set().len() - chain.len(),
{
    let own = device.peripherals[p].registers[r];
    let nothing = Seq::<(int, int)>::empty();
    if own.derived_from is Some {
        let reference = own.derived_from->0;
        if chain.contains((p, r)) {
            lemma_register_on_own_chain(device, p, r, chain);
        }
        let target = locate_register(device, p, reference)->0;
        lemma_located_register(device, p, reference);
        assert(pending_registers(device, nothing));
        lemma_pending_registers_push(device, nothing, p, r);
        lemma_pending_registers_push(device, chain, p, r);
        assert(within(nothing, nothing.push((p, r))));
        assert(target == (target.0, target.1));
        lemma_register_with_fewer_in_progress(
            device,
            target.0,
            target.1,
            nothing,
            nothing.push((p, r)),
        );
        lemma_register_chain_push(device, p, r, chain, target);
        lemma_register_behind_chain(device, target.0, target.1, chain.push((p, r)));
    }
}

// ---------------------------------------------------------------------
// Chains of fields
// ---------------------------------------------------------------------

/// The field that the field at the given place derives from, where it
/// derives from one.
pub open spec fn field_target(
    device: RawDeviceView,
    p: int,
    r: int,
    f: int,
) -> Option<(int, int, int)> {
    match device.peripherals[p].registers[r].fields[f].derived_from {
        Some(reference) => locate_field(device, p, r, reference),
        None => None,
    }
}

/// The field at place `j` of `chain` derives from the next one of the
/// chain, or from the one at `end` where it is the last.
pub open spec fn field_link(
    device: RawDeviceView,
    chain: Seq<(int, int, int)>,
    end: (int, int, int),
    j: int,
) -> bool {
    field_target(device, chain[j].0, chain[j].1, chain[j].2) == Some(
        if j + 1 < chain.len() {
            chain[j + 1]
        } else {
            end
        },
    )
}

/// Each field of `chain` derives from the next one, and the last from the
/// one at `end`.
pub open spec fn is_field_chain(
    device: RawDeviceView,
    chain: Seq<(int, int, int)>,
    end: (int, int, int),
) -> bool {
    forall|j: int| 0 <= j < chain.len() ==> #[trigger] field_link(device, chain, end, j)
}

/// A field that resolves while some fields are in progress resolves to the
/// same form while fewer are.
pub proof fn lemma_field_with_fewer_in_progress(
    device: RawDeviceView,
    p: int, r: int, f: int,
    small: Seq<(int, int, int)>,
    big: Seq<(int, int, int)>,
)
    requires
        is_field(device, p, r, f),
        pending_fields(device, small),
        pending_fields(device, big),
        within(small, big),
        resolved_field(device, p, r, f, big) is Ok,
    ensures
        resolved_field(device, p, r, f, small) == resolved_field(device, p, r, f, big),
    decreases field_keys(device).to_set().len() - big.len(),
{
    let own = device.peripherals[p].registers[r].fields[f];
    if own.derived_from is Some {
        let reference = own.derived_from->0;
        let target = locate_field(device, p, r, reference)->0;
        lemma_located_field(device, p, r, reference);
        lemma_pending_fields_push(device, big, p, r, f);
        lemma_pending_fields_push(device, small, p, r, f);
        lemma_within_push(small, big, (p, r, f));
        lemma_field_with_fewer_in_progress(
            device,
            target.0, target.1, target.2,
            small.push((p, r, f)),
            big.push((p, r, f)),
        );
    }
}

/// Along a cycle every field fails as cyclic, with the path of the field
/// at which the cycle was entered.
pub proof fn lemma_field_cycle(device: RawDeviceView, cycle: Seq<(int, int, int)>, k: int)
    requires
        pending_fields(device, cycle),
        0 <= k < cycle.len(),
        is_field_chain(device, cycle, cycle[0]),
    ensures
        resolved_field(
            device,
            cycle[k].0,
            cycle[k].1,
            cycle[k].2,
            cycle.take(k),
        ) == Err::<RawFieldView, ConversionErrorView>(
            ConversionErrorView::CyclicDerivation { path: field_path(
                device,
                cycle[0].0,
                cycle[0].1,
                cycle[0].2,
            ) },
        ),
    decreases cycle.len() - k,
{
    let visiting = cycle.take(k);
    let here = cycle[k];
    let first = cycle[0];
    assert(here == (here.0, here.1, here.2) && first == (first.0, first.1, first.2));
    assert(is_field(device, here.0, here.1, here.2));
    assert(is_field(device, first.0, first.1, first.2));
    assert(pending_fields(device, visiting)) by {
        assert forall|i: int| 0 <= i < visiting.len() implies is_field(
            device,
            visiting[i].0,
            visiting[i].1,
            visiting[i].2,
        ) by {
            assert(visiting[i] == cycle[i]);
        }
    }
    if visiting.contains(here) {
        let j = choose|j: int| 0 <= j < visiting.len() && visiting[j] == here;
        assert(cycle[j] == cycle[k]);
    }
    assert(field_link(device, cycle, first, k));
    assert(field_link(device, cycle, first, 0));
    assert(field_target(device, here.0, here.1, here.2) is Some);
    assert(field_target(device, first.0, first.1, first.2) is Some);
    assert(visiting.push((here.0, here.1, here.2)) =~= cycle.take(k + 1));
    let failure = Err::<RawFieldView, ConversionErrorView>(
        ConversionErrorView::CyclicDerivation { path: field_path(
            device,
            first.0,
            first.1,
            first.2,
        ) },
    );
    if k + 1 < cycle.len() {
        let next = cycle[k + 1];
        assert(next == (next.0, next.1, next.2));
        lemma_field_cycle(device, cycle, k + 1);
        assert(resolved_field(device, next.0, next.1, next.2, cycle.take(k + 1)) == failure);
        assert(field_target(device, here.0, here.1, here.2) == Some(next));
    } else {
        assert(cycle.take(k + 1) =~= cycle);
        assert(cycle.contains((first.0, first.1, first.2)));
        assert(resolved_field(device, first.0, first.1, first.2, cycle) == failure);
        assert(field_target(device, here.0, here.1, here.2) == Some(first));
    }
    assert(resolved_field(device, here.0, here.1, here.2, visiting) == failure);
}

/// The part of a table from place `j` on is a table.
proof fn lemma_pending_fields_skip(device: RawDeviceView, table: Seq<(int, int, int)>, j: int)
    requires
        pending_fields(device, table),
        0 <= j <= table.len(),
    ensures
        pending_fields(device, table.skip(j)),
{
    let rest = table.skip(j);
    assert forall|a: int, b: int|
        0 <= a < rest.len() && 0 <= b < rest.len() && a != b implies rest[a] != rest[b] by {
        assert(rest[a] == table[j + a]);
        assert(rest[b] == table[j + b]);
    }
    assert forall|i: int| 0 <= i < rest.len() implies is_field(
        device,
        rest[i].0,
        rest[i].1,
        rest[i].2,
    ) by {
        assert(rest[i] == table[j + i]);
    }
}

/// The part of a chain from a field on, where the chain leads back to that
/// field, is a cycle.
proof fn lemma_field_chain_closes(device: RawDeviceView, chain: Seq<(int, int, int)>, j: int)
    requires
        0 <= j < chain.len(),
        is_field_chain(device, chain, chain[j]),
    ensures
        is_field_chain(device, chain.skip(j), chain.skip(j)[0]),
{
    let cycle = chain.skip(j);
    assert(cycle[0] == chain[j]);
    assert forall|i: int| 0 <= i < cycle.len() implies #[trigger] field_link(
        device,
        cycle,
        cycle[0],
        i,
    ) by {
        assert(field_link(device, chain, chain[j], j + i));
        assert(cycle[i] == chain[j + i]);
        if i + 1 < cycle.len() {
            assert(cycle[i + 1] == chain[j + i + 1]);
        }
    }
}

/// A field that lies on a chain which leads to it does not resolve.
pub proof fn lemma_field_on_own_chain(
    device: RawDeviceView,
    p: int,
    r: int,
    f: int,
    chain: Seq<(int, int, int)>,
)
    requires
        pending_fields(device, chain),
        is_field_chain(device, chain, (p, r, f)),
        chain.contains((p, r, f)),
    ensures
        resolved_field(device, p, r, f, Seq::empty()) is Err,
{
    let j = choose|j: int| 0 <= j < chain.len() && chain[j] == (p, r, f);
    let cycle = chain.skip(j);
    assert(cycle[0] == (p, r, f));
    lemma_pending_fields_skip(device, chain, j);
    lemma_field_chain_closes(device, chain, j);
    lemma_field_cycle(device, cycle, 0);
    assert(cycle.take(0) =~= Seq::<(int, int, int)>::empty());
}

/// A chain that leads to a field leads, with that field added, to the one
/// it derives from.
pub proof fn lemma_field_chain_push(
    device: RawDeviceView,
    p: int,
    r: int,
    f: int,
    chain: Seq<(int, int, int)>,
    target: (int, int, int),
)
    requires
        is_field_chain(device, chain, (p, r, f)),
        field_target(device, p, r, f) == Some(target),
    ensures
        is_field_chain(device, chain.push((p, r, f)), target),
{
    let longer = chain.push((p, r, f));
    assert forall|i: int| 0 <= i < longer.len() implies #[trigger] field_link(
        device,
        longer,
        target,
        i,
    ) by {
        if i < chain.len() {
            assert(field_link(device, chain, (p, r, f), i));
            assert(longer[i] == chain[i]);
            if i + 1 < chain.len() {
                assert(longer[i + 1] == chain[i + 1]);
            } else {
                assert(longer[i + 1] == (p, r, f));
            }
        } else {
            assert(longer[i] == (p, r, f));
        }
    }
}

/// A field that resolves on its own resolves to the same form behind a
/// chain of fields in progress that leads to it.
pub proof fn lemma_field_behind_chain(
    device: RawDeviceView,
    p: int,
    r: int,
    f: int,
    chain: Seq<(int, int, int)>,
)
    requires
        is_field(device, p, r, f),
        pending_fields(device, chain),
        is_field_chain(device, chain, (p, r, f)),
        resolved_field(device, p, r, f, Seq::empty()) is Ok,
    ensures
        resolved_field(device, p, r, f, chain) == resolved_field(device, p, r, f, Seq::empty()),
    decreases field_keys(device).to_set().len() - chain.len(),
{
    let own = device.peripherals[p].registers[r].fields[f];
    let nothing = Seq::<(int, int, int)>::empty();
    if own.derived_from is Some {
        let reference = own.derived_from->0;
        if chain.contains((p, r, f)) {
            lemma_field_on_own_chain(device, p, r, f, chain);
        }
        let target = locate_field(device, p, r, reference)->0;
        lemma_located_field(device, p, r, reference);
        assert(pending_fields(device, nothing));
        lemma_pending_fields_push(device, nothing, p, r, f);
        lemma_pending_fields_push(device, chain, p, r, f);
        assert(within(nothing, nothing.push((p, r, f))));
        assert(target == (target.0, target.1, target.2));
        lemma_field_with_fewer_in_progress(
            device,
            target.0,
            target.1,
            target.2,
            nothing,
            nothing.push((p, r, f)),
        );
        lemma_field_chain_push(device, p, r, f, chain, target);
        lemma_field_behind_chain(device, target.0, target.1, target.2, chain.push((p, r, f)));
    }
}

} // verus!
