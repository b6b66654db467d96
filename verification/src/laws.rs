//! What holds of resolution, stated over the views and proved.

use vstd::prelude::*;
use crate::builder::{fully_resolved, peripheral_settled, register_settled};
use crate::document::{keys_of, member_of, ValueView};
use crate::encode::{device_entries, encoded_device, encoded_interrupt, encoded_optional_cpu,
    encoded_peripheral, listed, optional, optional_text, required};
use crate::error::ConversionErrorView;
use crate::model::SerializableDeviceView;
use crate::chains::{is_field_chain, is_peripheral_chain, is_register_chain,
    lemma_field_cycle, lemma_field_with_fewer_in_progress, lemma_peripheral_cycle,
    lemma_peripheral_with_fewer_in_progress, lemma_register_cycle,
    lemma_register_with_fewer_in_progress, peripheral_link, within};
use crate::keys::{is_field, is_peripheral, is_register, lemma_located_field,
    lemma_located_peripheral, lemma_located_register, lemma_pending_fields_push,
    lemma_pending_peripherals_push, lemma_pending_registers_push, pending_fields,
    pending_peripherals, pending_registers};
use crate::lookup::{locate_field, locate_peripheral, locate_register};
use crate::merge::{merged_field, merged_peripheral, merged_register};
use crate::raw::{RawDeviceView, RawFieldView, RawPeripheralView, RawRegisterView};
use crate::resolved::{field_level_from, field_level_registers_from, field_path,
    fields_resolved, peripheral_path, peripheral_with_resolved_fields,
    peripheral_with_resolved_registers, peripherals_resolved, register_level_from, register_path,
    register_with_resolved_fields, registers_resolved, resolved_device, resolved_field,
    resolved_fields_from, resolved_peripheral, resolved_peripherals_from, resolved_register,
    resolved_registers_from, settled_field, settled_peripheral, settled_register};

verus! {

// ---------------------------------------------------------------------
// What a level that succeeded is made of
// ---------------------------------------------------------------------

/// Where the peripherals from `from` on resolve, there is one resolved
/// form for each, in order.
pub proof fn lemma_resolved_peripherals_items(device: RawDeviceView, from: int)
    requires
        0 <= from <= device.peripherals.len(),
        resolved_peripherals_from(device, from) is Ok,
    ensures
        resolved_peripherals_from(device, from)->Ok_0.len() == device.peripherals.len() - from,
        forall|i: int|
            0 <= i < device.peripherals.len() - from ==> resolved_peripheral(
                device,
                from + i,
                Seq::empty(),
            ) == Ok::<RawPeripheralView, ConversionErrorView>(
                #[trigger] resolved_peripherals_from(device, from)->Ok_0[i],
            ),
    decreases device.peripherals.len() - from,
{
    if from < device.peripherals.len() {
        lemma_resolved_peripherals_items(device, from + 1);
        let all = resolved_peripherals_from(device, from)->Ok_0;
        let rest = resolved_peripherals_from(device, from + 1)->Ok_0;
        assert forall|i: int| 0 <= i < device.peripherals.len() - from implies resolved_peripheral(
            device,
            from + i,
            Seq::empty(),
        ) == Ok::<RawPeripheralView, ConversionErrorView>(#[trigger] all[i]) by {
            if i > 0 {
                assert(all[i] == rest[i - 1]);
            }
        }
    }
}

/// Where the registers of peripheral `p` from `from` on resolve, there is
/// one resolved form for each, in order.
pub proof fn lemma_resolved_registers_items(device: RawDeviceView, p: int, from: int)
    requires
        0 <= from <= device.peripherals[p].registers.len(),
        resolved_registers_from(device, p, from) is Ok,
    ensures
        resolved_registers_from(
            device,
            p,
            from,
        )->Ok_0.len() == device.peripherals[p].registers.len()
            - from,
        forall|i: int|
            0 <= i < device.peripherals[p].registers.len() - from ==> resolved_register(
                device,
                p,
                from + i,
                Seq::empty(),
            ) == Ok::<RawRegisterView, ConversionErrorView>(
                #[trigger] resolved_registers_from(device, p, from)->Ok_0[i],
            ),
    decreases device.peripherals[p].registers.len() - from,
{
    if from < device.peripherals[p].registers.len() {
        lemma_resolved_registers_items(device, p, from + 1);
        let all = resolved_registers_from(device, p, from)->Ok_0;
        let rest = resolved_registers_from(device, p, from + 1)->Ok_0;
        assert forall|i: int|
            0 <= i < device.peripherals[p].registers.len() - from implies resolved_register(
            device,
            p,
            from + i,
            Seq::empty(),
        ) == Ok::<RawRegisterView, ConversionErrorView>(#[trigger] all[i]) by {
            if i > 0 {
                assert(all[i] == rest[i - 1]);
            }
        }
    }
}

/// Where the register level succeeds from peripheral `from` on, there is
/// one peripheral with resolved registers for each, in order.
pub proof fn lemma_register_level_items(device: RawDeviceView, from: int)
    requires
        0 <= from <= device.peripherals.len(),
        register_level_from(device, from) is Ok,
    ensures
        register_level_from(device, from)->Ok_0.len() == device.peripherals.len() - from,
        forall|i: int|
            0 <= i < device.peripherals.len() - from ==> peripheral_with_resolved_registers(
                device,
                from + i,
            ) == Ok::<RawPeripheralView, ConversionErrorView>(
                #[trigger] register_level_from(device, from)->Ok_0[i],
            ),
    decreases device.peripherals.len() - from,
{
    if from < device.peripherals.len() {
        lemma_register_level_items(device, from + 1);
        let all = register_level_from(device, from)->Ok_0;
        let rest = register_level_from(device, from + 1)->Ok_0;
        assert forall|i: int|
            0 <= i < device.peripherals.len() - from implies peripheral_with_resolved_registers(
            device,
            from + i,
        ) == Ok::<RawPeripheralView, ConversionErrorView>(#[trigger] all[i]) by {
            if i > 0 {
                assert(all[i] == rest[i - 1]);
            }
        }
    }
}

/// Where the fields of a register from `from` on resolve, there is one
/// resolved form for each, in order.
pub proof fn lemma_resolved_fields_items(device: RawDeviceView, p: int, r: int, from: int)
    requires
        0 <= from <= device.peripherals[p].registers[r].fields.len(),
        resolved_fields_from(device, p, r, from) is Ok,
    ensures
        resolved_fields_from(device, p, r, from)->Ok_0.len()
            == device.peripherals[p].registers[r].fields.len() - from,
        forall|i: int|
            0 <= i < device.peripherals[p].registers[r].fields.len() - from ==> resolved_field(
                device,
                p,
                r,
                from + i,
                Seq::empty(),
            ) == Ok::<RawFieldView, ConversionErrorView>(
                #[trigger] resolved_fields_from(device, p, r, from)->Ok_0[i],
            ),
    decreases device.peripherals[p].registers[r].fields.len() - from,
{
    if from < device.peripherals[p].registers[r].fields.len() {
        lemma_resolved_fields_items(device, p, r, from + 1);
        let all = resolved_fields_from(device, p, r, from)->Ok_0;
        let rest = resolved_fields_from(device, p, r, from + 1)->Ok_0;
        assert forall|i: int|
            0 <= i < device.peripherals[p].registers[r].fields.len() - from implies resolved_field(
            device,
            p,
            r,
            from + i,
            Seq::empty(),
        ) == Ok::<RawFieldView, ConversionErrorView>(#[trigger] all[i]) by {
            if i > 0 {
                assert(all[i] == rest[i - 1]);
            }
        }
    }
}

/// Where the field level succeeds on the registers of peripheral `p` from
/// `from` on, there is one register with resolved fields for each, in
/// order.
pub proof fn lemma_field_level_registers_items(device: RawDeviceView, p: int, from: int)
    requires
        0 <= from <= device.peripherals[p].registers.len(),
        field_level_registers_from(device, p, from) is Ok,
    ensures
        field_level_registers_from(device, p, from)->Ok_0.len()
            == device.peripherals[p].registers.len() - from,
        forall|i: int|
            0 <= i < device.peripherals[p].registers.len() - from ==> register_with_resolved_fields(
                device,
                p,
                from + i,
            ) == Ok::<RawRegisterView, ConversionErrorView>(
                #[trigger] field_level_registers_from(device, p, from)->Ok_0[i],
            ),
    decreases device.peripherals[p].registers.len() - from,
{
    if from < device.peripherals[p].registers.len() {
        lemma_field_level_registers_items(device, p, from + 1);
        let all = field_level_registers_from(device, p, from)->Ok_0;
        let rest = field_level_registers_from(device, p, from + 1)->Ok_0;
        assert forall|i: int|
            0 <= i < device.peripherals[p].registers.len()
                - from implies register_with_resolved_fields(device, p, from + i) == Ok::<
            RawRegisterView,
            ConversionErrorView,
        >(#[trigger] all[i]) by {
            if i > 0 {
                assert(all[i] == rest[i - 1]);
            }
        }
    }
}

/// Where the field level succeeds from peripheral `from` on, there is one
/// peripheral with resolved fields for each, in order.
pub proof fn lemma_field_level_items(device: RawDeviceView, from: int)
    requires
        0 <= from <= device.peripherals.len(),
        field_level_from(device, from) is Ok,
    ensures
        field_level_from(device, from)->Ok_0.len() == device.peripherals.len() - from,
        forall|i: int|
            0 <= i < device.peripherals.len() - from ==> peripheral_with_resolved_fields(
                device,
                from + i,
            ) == Ok::<RawPeripheralView, ConversionErrorView>(
                #[trigger] field_level_from(device, from)->Ok_0[i],
            ),
    decreases device.peripherals.len() - from,
{
    if from < device.peripherals.len() {
        lemma_field_level_items(device, from + 1);
        let all = field_level_from(device, from)->Ok_0;
        let rest = field_level_from(device, from + 1)->Ok_0;
        assert forall|i: int|
            0 <= i < device.peripherals.len() - from implies peripheral_with_resolved_fields(
            device,
            from + i,
        ) == Ok::<RawPeripheralView, ConversionErrorView>(#[trigger] all[i]) by {
            if i > 0 {
                assert(all[i] == rest[i - 1]);
            }
        }
    }
}

// ---------------------------------------------------------------------
// Resolution leaves no reference
// ---------------------------------------------------------------------

/// After the peripheral level no peripheral holds a reference.
pub proof fn lemma_peripheral_level_settles(device: RawDeviceView)
    requires
        peripherals_resolved(device) is Ok,
    ensures
        peripherals_resolved(device)->Ok_0.peripherals.len() == device.peripherals.len(),
        forall|p: int|
            0 <= p < device.peripherals.len() ==> (#[trigger] peripherals_resolved(
                device,
            )->Ok_0.peripherals[p]).derived_from is None,
{
    lemma_resolved_peripherals_items(device, 0);
}

/// After the register level no register holds a reference, and each
/// peripheral is as it was but for its registers.
pub proof fn lemma_register_level_settles(device: RawDeviceView)
    requires
        registers_resolved(device) is Ok,
    ensures
        registers_resolved(device)->Ok_0.peripherals.len() == device.peripherals.len(),
        forall|p: int|
            #![trigger registers_resolved(device)->Ok_0.peripherals[p]]
            0 <= p < device.peripherals.len() ==> {
                let after = registers_resolved(device)->Ok_0.peripherals[p];
                &&& after.derived_from == device.peripherals[p].derived_from
                &&& after.registers.len() == device.peripherals[p].registers.len()
                &&& forall|r: int|
                    0 <= r < after.registers.len() ==> (
                    #[trigger] after.registers[r]).derived_from is None
            },
{
    lemma_register_level_items(device, 0);
    let out = registers_resolved(device)->Ok_0;
    assert forall|p: int|
        #![trigger out.peripherals[p]]
        0 <= p < device.peripherals.len() implies {
        let after = out.peripherals[p];
        &&& after.derived_from == device.peripherals[p].derived_from
        &&& after.registers.len() == device.peripherals[p].registers.len()
        &&& forall|r: int|
            0 <= r < after.registers.len() ==> (#[trigger] after.registers[r]).derived_from is None
    } by {
        assert(peripheral_with_resolved_registers(device, 0 + p) == Ok::<
            RawPeripheralView,
            ConversionErrorView,
        >(out.peripherals[p]));
        lemma_resolved_registers_items(device, p, 0);
    }
}

/// After the field level no field holds a reference, and each peripheral
/// and register is as it was but for the fields.
pub proof fn lemma_field_level_settles(device: RawDeviceView)
    requires
        fields_resolved(device) is Ok,
    ensures
        fields_resolved(device)->Ok_0.peripherals.len() == device.peripherals.len(),
        forall|p: int|
            #![trigger fields_resolved(device)->Ok_0.peripherals[p]]
            0 <= p < device.peripherals.len() ==> {
                let before = device.peripherals[p];
                let after = fields_resolved(device)->Ok_0.peripherals[p];
                &&& after.derived_from == before.derived_from
                &&& after.registers.len() == before.registers.len()
                &&& forall|r: int|
                    #![trigger after.registers[r]]
                    0 <= r < after.registers.len() ==> {
                        &&& after.registers[r].derived_from == before.registers[r].derived_from
                        &&& forall|f: int|
                            0 <= f < after.registers[r].fields.len() ==> (
                            #[trigger] after.registers[r].fields[f]).derived_from is None
                    }
            },
{
    lemma_field_level_items(device, 0);
    let out = fields_resolved(device)->Ok_0;
    assert forall|p: int|
        #![trigger out.peripherals[p]]
        0 <= p < device.peripherals.len() implies {
        let before = device.peripherals[p];
        let after = out.peripherals[p];
        &&& after.derived_from == before.derived_from
        &&& after.registers.len() == before.registers.len()
        &&& forall|r: int|
            #![trigger after.registers[r]]
            0 <= r < after.registers.len() ==> {
                &&& after.registers[r].derived_from == before.registers[r].derived_from
                &&& forall|f: int|
                    0 <= f < after.registers[r].fields.len() ==> (
                    #[trigger] after.registers[r].fields[f]).derived_from is None
            }
    } by {
        let before = device.peripherals[p];
        let after = out.peripherals[p];
        assert(peripheral_with_resolved_fields(device, 0 + p) == Ok::<
            RawPeripheralView,
            ConversionErrorView,
        >(after));
        lemma_field_level_registers_items(device, p, 0);
        assert forall|r: int|
            #![trigger after.registers[r]]
            0 <= r < after.registers.len() implies {
            &&& after.registers[r].derived_from == before.registers[r].derived_from
            &&& forall|f: int|
                0 <= f < after.registers[r].fields.len() ==> (
                #[trigger] after.registers[r].fields[f]).derived_from is None
        } by {
            assert(register_with_resolved_fields(device, p, 0 + r) == Ok::<
                RawRegisterView,
                ConversionErrorView,
            >(after.registers[r]));
            lemma_resolved_fields_items(device, p, r, 0);
        }
    }
}

/// A device that resolves holds no reference afterwards: the derived-from
/// of every peripheral, register and field is consumed.
pub proof fn law_resolution_consumes_references(device: RawDeviceView)
    requires
        resolved_device(device) is Ok,
    ensures
        fully_resolved(resolved_device(device)->Ok_0),
{
    let first = peripherals_resolved(device)->Ok_0;
    let second = registers_resolved(first)->Ok_0;
    let out = fields_resolved(second)->Ok_0;
    lemma_peripheral_level_settles(device);
    lemma_register_level_settles(first);
    lemma_field_level_settles(second);
    assert forall|p: int| 0 <= p < out.peripherals.len() implies peripheral_settled(
        #[trigger] out.peripherals[p],
    ) by {
        let a = first.peripherals[p];
        let b = second.peripherals[p];
        let c = out.peripherals[p];
        assert(a.derived_from is None);
        assert(b.derived_from is None);
        assert forall|r: int| 0 <= r < c.registers.len() implies register_settled(
            #[trigger] c.registers[r],
        ) by {
            assert(b.registers[r].derived_from is None);
        }
    }
}

// ---------------------------------------------------------------------
// A resolved tree is left as it is
// ---------------------------------------------------------------------

proof fn lemma_settled_peripherals_from(device: RawDeviceView, from: int)
    requires
        0 <= from <= device.peripherals.len(),
        forall|p: int|
            0 <= p < device.peripherals.len() ==> (
            #[trigger] device.peripherals[p]).derived_from is None,
    ensures
        resolved_peripherals_from(device, from) == Ok::<
            Seq<RawPeripheralView>,
            ConversionErrorView,
        >(device.peripherals.skip(from)),
    decreases device.peripherals.len() - from,
{
    if from < device.peripherals.len() {
        lemma_settled_peripherals_from(device, from + 1);
        assert(device.peripherals[from].derived_from is None);
        assert(seq![device.peripherals[from]] + device.peripherals.skip(from + 1)
            =~= device.peripherals.skip(from));
    } else {
        assert(device.peripherals.skip(from) =~= Seq::empty());
    }
}

proof fn lemma_settled_registers_from(device: RawDeviceView, p: int, from: int)
    requires
        is_peripheral(device, p),
        0 <= from <= device.peripherals[p].registers.len(),
        forall|r: int|
            0 <= r < device.peripherals[p].registers.len() ==> (
            #[trigger] device.peripherals[p].registers[r]).derived_from is None,
    ensures
        resolved_registers_from(device, p, from) == Ok::<
            Seq<RawRegisterView>,
            ConversionErrorView,
        >(device.peripherals[p].registers.skip(from)),
    decreases device.peripherals[p].registers.len() - from,
{
    let registers = device.peripherals[p].registers;
    if from < registers.len() {
        lemma_settled_registers_from(device, p, from + 1);
        assert(registers[from].derived_from is None);
        assert(seq![registers[from]] + registers.skip(from + 1) =~= registers.skip(from));
    } else {
        assert(registers.skip(from) =~= Seq::empty());
    }
}

proof fn lemma_settled_register_level_from(device: RawDeviceView, from: int)
    requires
        0 <= from <= device.peripherals.len(),
        fully_resolved(device),
    ensures
        register_level_from(device, from) == Ok::<Seq<RawPeripheralView>, ConversionErrorView>(
            device.peripherals.skip(from),
        ),
    decreases device.peripherals.len() - from,
{
    if from < device.peripherals.len() {
        lemma_settled_register_level_from(device, from + 1);
        let own = device.peripherals[from];
        assert(peripheral_settled(own));
        assert forall|r: int| 0 <= r < own.registers.len() implies (
        #[trigger] own.registers[r]).derived_from is None by {
            assert(register_settled(own.registers[r]));
        }
        lemma_settled_registers_from(device, from, 0);
        assert(own.registers.skip(0) =~= own.registers);
        assert(seq![own] + device.peripherals.skip(from + 1) =~= device.peripherals.skip(from));
    } else {
        assert(device.peripherals.skip(from) =~= Seq::empty());
    }
}

proof fn lemma_settled_fields_from(device: RawDeviceView, p: int, r: int, from: int)
    requires
        is_register(device, p, r),
        0 <= from <= device.peripherals[p].registers[r].fields.len(),
        register_settled(device.peripherals[p].registers[r]),
    ensures
        resolved_fields_from(device, p, r, from) == Ok::<Seq<RawFieldView>, ConversionErrorView>(
            device.peripherals[p].registers[r].fields.skip(from),
        ),
    decreases device.peripherals[p].registers[r].fields.len() - from,
{
    let fields = device.peripherals[p].registers[r].fields;
    if from < fields.len() {
        lemma_settled_fields_from(device, p, r, from + 1);
        assert(fields[from].derived_from is None);
        assert(seq![fields[from]] + fields.skip(from + 1) =~= fields.skip(from));
    } else {
        assert(fields.skip(from) =~= Seq::empty());
    }
}

proof fn lemma_settled_field_level_registers_from(device: RawDeviceView, p: int, from: int)
    requires
        is_peripheral(device, p),
        0 <= from <= device.peripherals[p].registers.len(),
        peripheral_settled(device.peripherals[p]),
    ensures
        field_level_registers_from(device, p, from) == Ok::<
            Seq<RawRegisterView>,
            ConversionErrorView,
        >(device.peripherals[p].registers.skip(from)),
    decreases device.peripherals[p].registers.len() - from,
{
    let registers = device.peripherals[p].registers;
    if from < registers.len() {
        lemma_settled_field_level_registers_from(device, p, from + 1);
        let own = registers[from];
        assert(register_settled(own));
        lemma_settled_fields_from(device, p, from, 0);
        assert(own.fields.skip(0) =~= own.fields);
        assert(seq![own] + registers.skip(from + 1) =~= registers.skip(from));
    } else {
        assert(registers.skip(from) =~= Seq::empty());
    }
}

proof fn lemma_settled_field_level_from(device: RawDeviceView, from: int)
    requires
        0 <= from <= device.peripherals.len(),
        fully_resolved(device),
    ensures
        field_level_from(device, from) == Ok::<Seq<RawPeripheralView>, ConversionErrorView>(
            device.peripherals.skip(from),
        ),
    decreases device.peripherals.len() - from,
{
    if from < device.peripherals.len() {
        lemma_settled_field_level_from(device, from + 1);
        let own = device.peripherals[from];
        assert(peripheral_settled(own));
        lemma_settled_field_level_registers_from(device, from, 0);
        assert(own.registers.skip(0) =~= own.registers);
        assert(seq![own] + device.peripherals.skip(from + 1) =~= device.peripherals.skip(from));
    } else {
        assert(device.peripherals.skip(from) =~= Seq::empty());
    }
}

/// Resolution is idempotent: a tree in which no entity holds a reference
/// resolves to itself.
pub proof fn law_resolved_tree_is_unchanged(device: RawDeviceView)
    requires
        fully_resolved(device),
    ensures
        resolved_device(device) == Ok::<RawDeviceView, ConversionErrorView>(device),
{
    assert forall|p: int| 0 <= p < device.peripherals.len() implies (
    #[trigger] device.peripherals[p]).derived_from is None by {
        assert(peripheral_settled(device.peripherals[p]));
    }
    lemma_settled_peripherals_from(device, 0);
    lemma_settled_register_level_from(device, 0);
    lemma_settled_field_level_from(device, 0);
    assert(device.peripherals.skip(0) =~= device.peripherals);
}

/// Resolving twice gives what resolving once gives.
pub proof fn law_resolution_idempotent(device: RawDeviceView)
    requires
        resolved_device(device) is Ok,
    ensures
        resolved_device(resolved_device(device)->Ok_0) == resolved_device(device),
{
    law_resolution_consumes_references(device);
    law_resolved_tree_is_unchanged(resolved_device(device)->Ok_0);
}

// ---------------------------------------------------------------------
// References that name nothing
// ---------------------------------------------------------------------

/// A peripheral whose reference names nothing fails as dangling, with its
/// own path and the reference as written.
pub proof fn law_dangling_peripheral(device: RawDeviceView, p: int)
    requires
        is_peripheral(device, p),
        device.peripherals[p].derived_from is Some,
        locate_peripheral(device, device.peripherals[p].derived_from->0) is None,
    ensures
        resolved_peripheral(device, p, Seq::empty()) == Err::<
            RawPeripheralView,
            ConversionErrorView,
        >(
            ConversionErrorView::DanglingDerivation {
                source: peripheral_path(device, p),
                reference: device.peripherals[p].derived_from->0,
            },
        ),
{
}

/// A register whose reference names nothing fails as dangling, with its
/// own path and the reference as written.
pub proof fn law_dangling_register(device: RawDeviceView, p: int, r: int)
    requires
        is_register(device, p, r),
        device.peripherals[p].registers[r].derived_from is Some,
        locate_register(device, p, device.peripherals[p].registers[r].derived_from->0) is None,
    ensures
        resolved_register(device, p, r, Seq::empty()) == Err::<
            RawRegisterView,
            ConversionErrorView,
        >(
            ConversionErrorView::DanglingDerivation {
                source: register_path(device, p, r),
                reference: device.peripherals[p].registers[r].derived_from->0,
            },
        ),
{
}

/// A field whose reference names nothing fails as dangling, with its own
/// path and the reference as written.
pub proof fn law_dangling_field(device: RawDeviceView, p: int, r: int, f: int)
    requires
        is_field(device, p, r, f),
        device.peripherals[p].registers[r].fields[f].derived_from is Some,
        locate_field(device, p, r, device.peripherals[p].registers[r].fields[f].derived_from->0)
            is None,
    ensures
        resolved_field(device, p, r, f, Seq::empty()) == Err::<RawFieldView, ConversionErrorView>(
            ConversionErrorView::DanglingDerivation {
                source: field_path(device, p, r, f),
                reference: device.peripherals[p].registers[r].fields[f].derived_from->0,
            },
        ),
{
}

// ---------------------------------------------------------------------
// Cycles
// ---------------------------------------------------------------------

/// A cycle of derivations between peripherals is rejected: the first
/// peripheral of the cycle fails as cyclic, with its own path, and so the
/// device does not resolve.
pub proof fn law_cycle_rejected(device: RawDeviceView, cycle: Seq<int>)
    requires
        cycle.len() > 0,
        pending_peripherals(device, cycle),
        is_peripheral_chain(device, cycle, cycle[0]),
    ensures
        resolved_peripheral(device, cycle[0], Seq::empty()) == Err::<
            RawPeripheralView,
            ConversionErrorView,
        >(ConversionErrorView::CyclicDerivation { path: peripheral_path(device, cycle[0]) }),
        resolved_device(device) is Err,
{
    lemma_peripheral_cycle(device, cycle, 0);
    assert(cycle.take(0) =~= Seq::empty());
    if resolved_peripherals_from(device, 0) is Ok {
        lemma_resolved_peripherals_items(device, 0);
        let all = resolved_peripherals_from(device, 0)->Ok_0;
        assert(resolved_peripheral(device, 0 + cycle[0], Seq::empty()) == Ok::<
            RawPeripheralView,
            ConversionErrorView,
        >(all[cycle[0]]));
    }
}

/// A cycle of derivations between registers is rejected: the first
/// register of the cycle fails as cyclic, with its own path.
pub proof fn law_register_cycle_rejected(device: RawDeviceView, cycle: Seq<(int, int)>)
    requires
        cycle.len() > 0,
        pending_registers(device, cycle),
        is_register_chain(device, cycle, cycle[0]),
    ensures
        ({
            let first = cycle[0];
            resolved_register(device, first.0, first.1, Seq::empty()) == Err::<
                RawRegisterView,
                ConversionErrorView,
            >(
                ConversionErrorView::CyclicDerivation { path: register_path(
                    device,
                    first.0,
                    first.1,
                ) }
            )
        }),
{
    lemma_register_cycle(device, cycle, 0);
    assert(cycle.take(0) =~= Seq::empty());
}

/// A cycle of derivations between fields is rejected: the first field of
/// the cycle fails as cyclic, with its own path.
pub proof fn law_field_cycle_rejected(device: RawDeviceView, cycle: Seq<(int, int, int)>)
    requires
        cycle.len() > 0,
        pending_fields(device, cycle),
        is_field_chain(device, cycle, cycle[0]),
    ensures
        ({
            let first = cycle[0];
            resolved_field(device, first.0, first.1, first.2, Seq::empty()) == Err::<
                RawFieldView,
                ConversionErrorView,
            >(
                ConversionErrorView::CyclicDerivation {
                    path: field_path(device, first.0, first.1, first.2),
                },
            )
        }),
{
    lemma_field_cycle(device, cycle, 0);
    assert(cycle.take(0) =~= Seq::empty());
}

/// Two peripherals that derive from each other are rejected as cyclic.
pub proof fn law_mutual_derivation_rejected(device: RawDeviceView, a: int, b: int)
    requires
        is_peripheral(device, a),
        is_peripheral(device, b),
        a != b,
        device.peripherals[a].derived_from is Some,
        device.peripherals[b].derived_from is Some,
        locate_peripheral(device, device.peripherals[a].derived_from->0) == Some(b),
        locate_peripheral(device, device.peripherals[b].derived_from->0) == Some(a),
    ensures
        resolved_peripheral(device, a, Seq::empty()) == Err::<
            RawPeripheralView,
            ConversionErrorView,
        >(ConversionErrorView::CyclicDerivation { path: peripheral_path(device, a) }),
        resolved_device(device) is Err,
{
    let cycle = seq![a, b];
    assert(pending_peripherals(device, cycle));
    assert(is_peripheral_chain(device, cycle, cycle[0])) by {
        assert forall|j: int| 0 <= j < cycle.len() implies #[trigger] peripheral_link(
            device,
            cycle,
            cycle[0],
            j,
        ) by {
            if j == 0 {
                assert(cycle[0] == a && cycle[1] == b);
            } else {
                assert(cycle[1] == b);
            }
        }
    }
    law_cycle_rejected(device, cycle);
}

// ---------------------------------------------------------------------
// What is inherited
// ---------------------------------------------------------------------

/// Each attribute that the field `own` leaves out has in `out` the value
/// it has in `base`.
pub open spec fn field_inherits(own: RawFieldView, base: RawFieldView, out: RawFieldView) -> bool {
    &&& own.description is None ==> out.description == base.description
    &&& own.access is None ==> out.access == base.access
    &&& own.modified_write_values is None ==> out.modified_write_values
        == base.modified_write_values
    &&& own.write_constraint is None ==> out.write_constraint == base.write_constraint
    &&& own.read_action is None ==> out.read_action == base.read_action
    &&& own.enumerated_values.len() == 0 ==> out.enumerated_values == base.enumerated_values
}

/// Each attribute that the register `own` leaves out has in `out` the
/// value it has in `base`, and each field that only `base` has is in
/// `out`.
pub open spec fn register_inherits(
    own: RawRegisterView,
    base: RawRegisterView,
    out: RawRegisterView,
)
    -> bool {
    &&& own.display_name is None ==> out.display_name == base.display_name
    &&& own.description is None ==> out.description == base.description
    &&& own.size is None ==> out.size == base.size
    &&& own.access is None ==> out.access == base.access
    &&& own.reset_value is None ==> out.reset_value == base.reset_value
    &&& own.reset_mask is None ==> out.reset_mask == base.reset_mask
    &&& own.alternate_group is None ==> out.alternate_group == base.alternate_group
    &&& own.alternate_register is None ==> out.alternate_register == base.alternate_register
    &&& out.fields == crate::merge::merged_fields(own.fields, base.fields)
}

/// Each attribute that the peripheral `own` leaves out has in `out` the
/// value it has in `base`, and each register that only `base` has is in
/// `out`.
pub open spec fn peripheral_inherits(
    own: RawPeripheralView,
    base: RawPeripheralView,
    out: RawPeripheralView,
) -> bool {
    &&& own.display_name is None ==> out.display_name == base.display_name
    &&& own.version is None ==> out.version == base.version
    &&& own.description is None ==> out.description == base.description
    &&& own.group_name is None ==> out.group_name == base.group_name
    &&& own.alternate_peripheral is None ==> out.alternate_peripheral == base.alternate_peripheral
    &&& own.prepend_to_name is None ==> out.prepend_to_name == base.prepend_to_name
    &&& out.registers == crate::merge::merged_registers(own.registers, base.registers)
}

/// Inheritance is complete for peripherals: where peripheral `p` derives
/// from another and resolves, the other resolves too, and the resolved `p`
/// is `p` merged with the resolved form of the other, without the
/// reference. So what `p` leaves out has the value of the resolved other.
pub proof fn law_peripheral_inherits(device: RawDeviceView, p: int)
    requires
        is_peripheral(device, p),
        device.peripherals[p].derived_from is Some,
        resolved_peripheral(device, p, Seq::empty()) is Ok,
    ensures
        locate_peripheral(device, device.peripherals[p].derived_from->0) is Some,
        ({
            let own = device.peripherals[p];
            let target = locate_peripheral(device, own.derived_from->0)->0;
            let base = resolved_peripheral(device, target, Seq::empty());
            let out = resolved_peripheral(device, p, Seq::empty())->Ok_0;
            &&& base is Ok
            &&& out == settled_peripheral(merged_peripheral(own, base->Ok_0))
            &&& peripheral_inherits(own, base->Ok_0, out)
        }),
{
    let own = device.peripherals[p];
    let target = locate_peripheral(device, own.derived_from->0)->0;
    let nothing = Seq::<int>::empty();
    let visiting = nothing.push(p);
    assert(pending_peripherals(device, nothing));
    lemma_pending_peripherals_push(device, nothing, p);
    lemma_located_peripheral(device, own.derived_from->0);
    assert(within(nothing, visiting));
    lemma_peripheral_with_fewer_in_progress(device, target, nothing, visiting);
}

/// Inheritance is complete for registers: where a register derives from
/// another and resolves, the other resolves too, and the resolved register
/// is the register merged with the resolved form of the other, without the
/// reference.
pub proof fn law_register_inherits(device: RawDeviceView, p: int, r: int)
    requires
        is_register(device, p, r),
        device.peripherals[p].registers[r].derived_from is Some,
        resolved_register(device, p, r, Seq::empty()) is Ok,
    ensures
        locate_register(device, p, device.peripherals[p].registers[r].derived_from->0) is Some,
        ({
            let own = device.peripherals[p].registers[r];
            let target = locate_register(device, p, own.derived_from->0)->0;
            let base = resolved_register(device, target.0, target.1, Seq::empty());
            let out = resolved_register(device, p, r, Seq::empty())->Ok_0;
            &&& base is Ok
            &&& out == settled_register(merged_register(own, base->Ok_0))
            &&& register_inherits(own, base->Ok_0, out)
        }),
{
    let own = device.peripherals[p].registers[r];
    let target = locate_register(device, p, own.derived_from->0)->0;
    let nothing = Seq::<(int, int)>::empty();
    let visiting = nothing.push((p, r));
    assert(pending_registers(device, nothing));
    lemma_pending_registers_push(device, nothing, p, r);
    lemma_located_register(device, p, own.derived_from->0);
    assert(within(nothing, visiting));
    assert(target == (target.0, target.1));
    lemma_register_with_fewer_in_progress(device, target.0, target.1, nothing, visiting);
}

/// Inheritance is complete for fields: where a field derives from another
/// and resolves, the other resolves too, and the resolved field is the
/// field merged with the resolved form of the other, without the
/// reference.
pub proof fn law_field_inherits(device: RawDeviceView, p: int, r: int, f: int)
    requires
        is_field(device, p, r, f),
        device.peripherals[p].registers[r].fields[f].derived_from is Some,
        resolved_field(device, p, r, f, Seq::empty()) is Ok,
    ensures
        locate_field(device, p, r, device.peripherals[p].registers[r].fields[f].derived_from->0)
            is Some,
        ({
            let own = device.peripherals[p].registers[r].fields[f];
            let target = locate_field(device, p, r, own.derived_from->0)->0;
            let base = resolved_field(device, target.0, target.1, target.2, Seq::empty());
            let out = resolved_field(device, p, r, f, Seq::empty())->Ok_0;
            &&& base is Ok
            &&& out == settled_field(merged_field(own, base->Ok_0))
            &&& field_inherits(own, base->Ok_0, out)
        }),
{
    let own = device.peripherals[p].registers[r].fields[f];
    let target = locate_field(device, p, r, own.derived_from->0)->0;
    let nothing = Seq::<(int, int, int)>::empty();
    let visiting = nothing.push((p, r, f));
    assert(pending_fields(device, nothing));
    lemma_pending_fields_push(device, nothing, p, r, f);
    lemma_located_field(device, p, r, own.derived_from->0);
    assert(within(nothing, visiting));
    assert(target == (target.0, target.1, target.2));
    lemma_field_with_fewer_in_progress(device, target.0, target.1, target.2, nothing, visiting);
}

// ---------------------------------------------------------------------
// What is kept
// ---------------------------------------------------------------------

/// `out` has every attribute that the field `own` sets, with the value
/// that `own` gives it.
pub open spec fn field_kept(own: RawFieldView, out: RawFieldView) -> bool {
    &&& out.name == own.name
    &&& out.bit_offset == own.bit_offset
    &&& out.bit_width == own.bit_width
    &&& own.description is Some ==> out.description == own.description
    &&& own.access is Some ==> out.access == own.access
    &&& own.modified_write_values is Some ==> out.modified_write_values
        == own.modified_write_values
    &&& own.write_constraint is Some ==> out.write_constraint == own.write_constraint
    &&& own.read_action is Some ==> out.read_action == own.read_action
    &&& own.enumerated_values.len() > 0 ==> out.enumerated_values == own.enumerated_values
}

/// `out` has every attribute that the register `own` sets, with the value
/// that `own` gives it, and the fields of `own` come first in `out`, each
/// one kept in the same way.
pub open spec fn register_kept(own: RawRegisterView, out: RawRegisterView) -> bool {
    &&& out.name == own.name
    &&& out.address_offset == own.address_offset
    &&& own.display_name is Some ==> out.display_name == own.display_name
    &&& own.description is Some ==> out.description == own.description
    &&& own.size is Some ==> out.size == own.size
    &&& own.access is Some ==> out.access == own.access
    &&& own.reset_value is Some ==> out.reset_value == own.reset_value
    &&& own.reset_mask is Some ==> out.reset_mask == own.reset_mask
    &&& own.alternate_group is Some ==> out.alternate_group == own.alternate_group
    &&& own.alternate_register is Some ==> out.alternate_register == own.alternate_register
    &&& own.fields.len() <= out.fields.len()
    &&& forall|f: int|
        0 <= f < own.fields.len() ==> field_kept(#[trigger] own.fields[f], out.fields[f])
}

/// `out` has every attribute that the peripheral `own` sets, with the
/// value that `own` gives it, and the registers of `own` come first in
/// `out`, each one kept in the same way.
pub open spec fn peripheral_kept(own: RawPeripheralView, out: RawPeripheralView) -> bool {
    &&& out.name == own.name
    &&& out.base_address == own.base_address
    &&& out.interrupts == own.interrupts
    &&& own.display_name is Some ==> out.display_name == own.display_name
    &&& own.version is Some ==> out.version == own.version
    &&& own.description is Some ==> out.description == own.description
    &&& own.group_name is Some ==> out.group_name == own.group_name
    &&& own.alternate_peripheral is Some ==> out.alternate_peripheral == own.alternate_peripheral
    &&& own.prepend_to_name is Some ==> out.prepend_to_name == own.prepend_to_name
    &&& own.registers.len() <= out.registers.len()
    &&& forall|r: int|
        0 <= r < own.registers.len() ==> register_kept(
            #[trigger] own.registers[r],
            out.registers[r],
        )
}

/// `out` is the device `own` but for its peripherals, of which it has as
/// many, each one kept.
pub open spec fn device_kept(own: RawDeviceView, out: RawDeviceView) -> bool {
    &&& out == (RawDeviceView { peripherals: out.peripherals, ..own })
    &&& out.peripherals.len() == own.peripherals.len()
    &&& forall|p: int|
        0 <= p < own.peripherals.len() ==> peripheral_kept(
            #[trigger] own.peripherals[p],
            out.peripherals[p],
        )
}

proof fn lemma_register_kept_reflexive(register: RawRegisterView)
    ensures
        register_kept(register, register),
{
}

proof fn lemma_peripheral_kept_reflexive(peripheral: RawPeripheralView)
    ensures
        peripheral_kept(peripheral, peripheral),
{
    assert forall|r: int| 0 <= r < peripheral.registers.len() implies register_kept(
        #[trigger] peripheral.registers[r],
        peripheral.registers[r],
    ) by {
        lemma_register_kept_reflexive(peripheral.registers[r]);
    }
}

proof fn lemma_register_kept_transitive(a: RawRegisterView, b: RawRegisterView, c: RawRegisterView)
    requires
        register_kept(a, b),
        register_kept(b, c),
    ensures
        register_kept(a, c),
{
    assert forall|f: int| 0 <= f < a.fields.len() implies field_kept(
        #[trigger] a.fields[f],
        c.fields[f],
    ) by {
        assert(field_kept(a.fields[f], b.fields[f]));
        assert(field_kept(b.fields[f], c.fields[f]));
    }
}

proof fn lemma_peripheral_kept_transitive(
    a: RawPeripheralView,
    b: RawPeripheralView,
    c: RawPeripheralView,
)
    requires
        peripheral_kept(a, b),
        peripheral_kept(b, c),
    ensures
        peripheral_kept(a, c),
{
    assert forall|r: int| 0 <= r < a.registers.len() implies register_kept(
        #[trigger] a.registers[r],
        c.registers[r],
    ) by {
        assert(register_kept(a.registers[r], b.registers[r]));
        assert(register_kept(b.registers[r], c.registers[r]));
        lemma_register_kept_transitive(a.registers[r], b.registers[r], c.registers[r]);
    }
}

proof fn lemma_device_kept_transitive(a: RawDeviceView, b: RawDeviceView, c: RawDeviceView)
    requires
        device_kept(a, b),
        device_kept(b, c),
    ensures
        device_kept(a, c),
{
    assert forall|p: int| 0 <= p < a.peripherals.len() implies peripheral_kept(
        #[trigger] a.peripherals[p],
        c.peripherals[p],
    ) by {
        assert(peripheral_kept(a.peripherals[p], b.peripherals[p]));
        assert(peripheral_kept(b.peripherals[p], c.peripherals[p]));
        lemma_peripheral_kept_transitive(a.peripherals[p], b.peripherals[p], c.peripherals[p]);
    }
}

/// Merging keeps what the deriving register sets.
pub proof fn lemma_merged_register_keeps(own: RawRegisterView, base: RawRegisterView)
    ensures
        register_kept(own, merged_register(own, base)),
        register_kept(own, settled_register(merged_register(own, base))),
{
    let merged = crate::merge::merged_fields(own.fields, base.fields);
    assert forall|f: int| 0 <= f < own.fields.len() implies field_kept(
        #[trigger] own.fields[f],
        merged[f],
    ) by {
        assert(merged[f] == crate::merge::overlaid_field(own.fields, base.fields, f));
    }
}

/// Merging keeps what the deriving peripheral sets.
pub proof fn lemma_merged_peripheral_keeps(own: RawPeripheralView, base: RawPeripheralView)
    ensures
        peripheral_kept(own, merged_peripheral(own, base)),
        peripheral_kept(own, settled_peripheral(merged_peripheral(own, base))),
{
    let merged = crate::merge::merged_registers(own.registers, base.registers);
    assert forall|r: int| 0 <= r < own.registers.len() implies register_kept(
        #[trigger] own.registers[r],
        merged[r],
    ) by {
        assert(merged[r] == crate::merge::overlaid_register(own.registers, base.registers, r));
        match crate::lookup::first_index(
            crate::merge::register_list_names(base.registers),
            own.registers[r].name,
        ) {
            Some(j) => lemma_merged_register_keeps(own.registers[r], base.registers[j]),
            None => lemma_register_kept_reflexive(own.registers[r]),
        }
    }
}

proof fn lemma_peripheral_level_keeps(device: RawDeviceView)
    requires
        peripherals_resolved(device) is Ok,
    ensures
        device_kept(device, peripherals_resolved(device)->Ok_0),
{
    lemma_resolved_peripherals_items(device, 0);
    let out = peripherals_resolved(device)->Ok_0;
    assert forall|p: int| 0 <= p < device.peripherals.len() implies peripheral_kept(
        #[trigger] device.peripherals[p],
        out.peripherals[p],
    ) by {
        let own = device.peripherals[p];
        assert(resolved_peripheral(device, 0 + p, Seq::empty()) == Ok::<
            RawPeripheralView,
            ConversionErrorView,
        >(out.peripherals[p]));
        if own.derived_from is Some {
            let target = locate_peripheral(device, own.derived_from->0)->0;
            let base = resolved_peripheral(device, target, Seq::<int>::empty().push(p))->Ok_0;
            lemma_merged_peripheral_keeps(own, base);
        } else {
            lemma_peripheral_kept_reflexive(own);
        }
    }
}

proof fn lemma_register_level_keeps(device: RawDeviceView)
    requires
        registers_resolved(device) is Ok,
    ensures
        device_kept(device, registers_resolved(device)->Ok_0),
{
    lemma_register_level_items(device, 0);
    let out = registers_resolved(device)->Ok_0;
    assert forall|p: int| 0 <= p < device.peripherals.len() implies peripheral_kept(
        #[trigger] device.peripherals[p],
        out.peripherals[p],
    ) by {
        let before = device.peripherals[p];
        let after = out.peripherals[p];
        assert(peripheral_with_resolved_registers(device, 0 + p) == Ok::<
            RawPeripheralView,
            ConversionErrorView,
        >(after));
        lemma_resolved_registers_items(device, p, 0);
        assert forall|r: int| 0 <= r < before.registers.len() implies register_kept(
            #[trigger] before.registers[r],
            after.registers[r],
        ) by {
            let own = before.registers[r];
            assert(resolved_register(device, p, 0 + r, Seq::empty()) == Ok::<
                RawRegisterView,
                ConversionErrorView,
            >(after.registers[r]));
            if own.derived_from is Some {
                let target = locate_register(device, p, own.derived_from->0)->0;
                let base = resolved_register(
                    device,
                    target.0,
                    target.1,
                    Seq::<(int, int)>::empty().push((p, r)),
                )->Ok_0;
                lemma_merged_register_keeps(own, base);
            } else {
                lemma_register_kept_reflexive(own);
            }
        }
    }
}

proof fn lemma_field_level_keeps(device: RawDeviceView)
    requires
        fields_resolved(device) is Ok,
    ensures
        device_kept(device, fields_resolved(device)->Ok_0),
{
    lemma_field_level_items(device, 0);
    let out = fields_resolved(device)->Ok_0;
    assert forall|p: int| 0 <= p < device.peripherals.len() implies peripheral_kept(
        #[trigger] device.peripherals[p],
        out.peripherals[p],
    ) by {
        let before = device.peripherals[p];
        let after = out.peripherals[p];
        assert(peripheral_with_resolved_fields(device, 0 + p) == Ok::<
            RawPeripheralView,
            ConversionErrorView,
        >(after));
        lemma_field_level_registers_items(device, p, 0);
        assert forall|r: int| 0 <= r < before.registers.len() implies register_kept(
            #[trigger] before.registers[r],
            after.registers[r],
        ) by {
            let register = before.registers[r];
            assert(register_with_resolved_fields(device, p, 0 + r) == Ok::<
                RawRegisterView,
                ConversionErrorView,
            >(after.registers[r]));
            lemma_resolved_fields_items(device, p, r, 0);
            assert forall|f: int| 0 <= f < register.fields.len() implies field_kept(
                #[trigger] register.fields[f],
                after.registers[r].fields[f],
            ) by {
                assert(resolved_field(device, p, r, 0 + f, Seq::empty()) == Ok::<
                    RawFieldView,
                    ConversionErrorView,
                >(after.registers[r].fields[f]));
            }
        }
    }
}

/// Overrides take precedence: in the resolved device every peripheral,
/// register and field of the device stands at its place, with every
/// attribute that it sets itself at the value that it gives it, whatever
/// the entity it derives from holds.
pub proof fn law_override_precedence(device: RawDeviceView)
    requires
        resolved_device(device) is Ok,
    ensures
        device_kept(device, resolved_device(device)->Ok_0),
{
    let first = peripherals_resolved(device)->Ok_0;
    let second = registers_resolved(first)->Ok_0;
    let out = fields_resolved(second)->Ok_0;
    lemma_peripheral_level_keeps(device);
    lemma_register_level_keeps(first);
    lemma_field_level_keeps(second);
    lemma_device_kept_transitive(device, first, second);
    lemma_device_kept_transitive(device, second, out);
}

/// Resolution neither adds nor drops a peripheral: the resolved device
/// has the peripherals of the device, under their names and in their order.
pub proof fn law_peripherals_keep_their_names(device: RawDeviceView)
    requires
        resolved_device(device) is Ok,
    ensures
        crate::lookup::peripheral_names(resolved_device(device)->Ok_0)
            == crate::lookup::peripheral_names(device),
{
    law_override_precedence(device);
    let out = resolved_device(device)->Ok_0;
    assert forall|p: int| 0 <= p < device.peripherals.len() implies out.peripherals[p].name
        == device.peripherals[p].name by {
        assert(peripheral_kept(device.peripherals[p], out.peripherals[p]));
    }
    assert(crate::lookup::peripheral_names(out) =~= crate::lookup::peripheral_names(device));
}

// ---------------------------------------------------------------------
// What the document leaves out
// ---------------------------------------------------------------------

/// No entry of `entries` stands under `key`.
pub open spec fn lacks_key(entries: Seq<(Seq<char>, ValueView)>, key: Seq<char>) -> bool {
    forall|i: int| 0 <= i < entries.len() ==> (#[trigger] entries[i]).0 != key
}

proof fn lemma_lacks_key_joined(
    first: Seq<(Seq<char>, ValueView)>,
    second: Seq<(Seq<char>, ValueView)>,
    key: Seq<char>,
)
    requires
        lacks_key(first, key),
        lacks_key(second, key),
    ensures
        lacks_key(first + second, key),
{
    let joined = first + second;
    assert forall|i: int| 0 <= i < joined.len() implies (#[trigger] joined[i]).0 != key by {
        if i < first.len() {
            assert(joined[i] == first[i]);
        } else {
            assert(joined[i] == second[i - first.len()]);
        }
    }
}

/// A device without a processor has no entry for one in its document: the
/// key is left out, not written with an empty value.
pub proof fn law_absent_cpu_is_left_out(device: SerializableDeviceView)
    requires
        device.cpu is None,
    ensures
        lacks_key(device_entries(device), "cpu"@),
        member_of(encoded_device(device), "cpu"@) is None,
{
    reveal_strlit("cpu");
    reveal_strlit("name");
    reveal_strlit("vendor");
    reveal_strlit("vendor-id");
    reveal_strlit("series");
    reveal_strlit("version");
    reveal_strlit("description");
    reveal_strlit("peripherals");
    reveal_strlit("interrupts");
    reveal_strlit("header-definitions-prefix");
    reveal_strlit("license-text");
    reveal_strlit("tool-version");
    reveal_strlit("generated-date");
    let key = "cpu"@;
    assert(key.len() == 3);
    assert("name"@.len() != key.len());
    assert("vendor"@.len() != key.len());
    assert("vendor-id"@.len() != key.len());
    assert("series"@.len() != key.len());
    assert("version"@.len() != key.len());
    assert("description"@.len() != key.len());
    assert("peripherals"@.len() != key.len());
    assert("interrupts"@.len() != key.len());
    assert("header-definitions-prefix"@.len() != key.len());
    assert("license-text"@.len() != key.len());
    assert("tool-version"@.len() != key.len());
    assert("generated-date"@.len() != key.len());
    let e1 = required("name"@, ValueView::Text(device.name));
    let p2 = optional_text("vendor"@, device.vendor);
    let p3 = optional_text("vendor-id"@, device.vendor_id);
    let p4 = optional_text("series"@, device.series);
    let p5 = optional_text("version"@, device.version);
    let p6 = optional_text("description"@, device.description);
    let p7 = optional("cpu"@, encoded_optional_cpu(device.cpu));
    let p8 = listed(
        "peripherals"@,
        Seq::new(device.peripherals.len(), |i: int| encoded_peripheral(device.peripherals[i])),
    );
    let p9 = listed(
        "interrupts"@,
        Seq::new(device.interrupts.len(), |i: int| encoded_interrupt(device.interrupts[i])),
    );
    let p10 = optional_text("header-definitions-prefix"@, device.header_definitions_prefix);
    let p11 = optional_text("license-text"@, device.license_text);
    let p12 = optional_text("tool-version"@, device.tool_version);
    let p13 = optional_text("generated-date"@, device.generated_date);
    assert(lacks_key(e1, key));
    assert(lacks_key(p2, key));
    assert(lacks_key(p3, key));
    assert(lacks_key(p4, key));
    assert(lacks_key(p5, key));
    assert(lacks_key(p6, key));
    assert(lacks_key(p7, key));
    assert(lacks_key(p8, key));
    assert(lacks_key(p9, key));
    assert(lacks_key(p10, key));
    assert(lacks_key(p11, key));
    assert(lacks_key(p12, key));
    assert(lacks_key(p13, key));
    let e2 = e1 + p2;
    lemma_lacks_key_joined(e1, p2, key);
    let e3 = e2 + p3;
    lemma_lacks_key_joined(e2, p3, key);
    let e4 = e3 + p4;
    lemma_lacks_key_joined(e3, p4, key);
    let e5 = e4 + p5;
    lemma_lacks_key_joined(e4, p5, key);
    let e6 = e5 + p6;
    lemma_lacks_key_joined(e5, p6, key);
    let e7 = e6 + p7;
    lemma_lacks_key_joined(e6, p7, key);
    let e8 = e7 + p8;
    lemma_lacks_key_joined(e7, p8, key);
    let e9 = e8 + p9;
    lemma_lacks_key_joined(e8, p9, key);
    let e10 = e9 + p10;
    lemma_lacks_key_joined(e9, p10, key);
    let e11 = e10 + p11;
    lemma_lacks_key_joined(e10, p11, key);
    let e12 = e11 + p12;
    lemma_lacks_key_joined(e11, p12, key);
    let e13 = e12 + p13;
    lemma_lacks_key_joined(e12, p13, key);
    assert(device_entries(device) == e13);
    let keys = keys_of(e13);
    assert forall|j: int| 0 <= j < keys.len() implies keys[j] != key by {
        assert(e13[j].0 != key);
    }
    crate::lookup::lemma_first_index_absent(keys, key);
}

// ---------------------------------------------------------------------
// The ways in which resolution fails
// ---------------------------------------------------------------------

/// The failure is that of a reference: one that names nothing, or one that
/// closes a cycle.
pub open spec fn is_reference_failure(error: ConversionErrorView) -> bool {
    error is DanglingDerivation || error is CyclicDerivation
}

proof fn lemma_peripheral_fails_on_a_reference(device: RawDeviceView, p: int, visiting: Seq<int>)
    requires
        is_peripheral(device, p),
        pending_peripherals(device, visiting),
        resolved_peripheral(device, p, visiting) is Err,
    ensures
        is_reference_failure(resolved_peripheral(device, p, visiting)->Err_0),
    decreases crate::keys::peripheral_keys(device).to_set().len() - visiting.len(),
{
    let own = device.peripherals[p];
    if own.derived_from is Some && !visiting.contains(p) {
        let reference = own.derived_from->0;
        if locate_peripheral(device, reference) is Some {
            let target = locate_peripheral(device, reference)->0;
            lemma_located_peripheral(device, reference);
            lemma_pending_peripherals_push(device, visiting, p);
            lemma_peripheral_fails_on_a_reference(device, target, visiting.push(p));
        }
    }
}

proof fn lemma_register_fails_on_a_reference(
    device: RawDeviceView,
    p: int,
    r: int,
    visiting: Seq<(int, int)>,
)
    requires
        is_register(device, p, r),
        pending_registers(device, visiting),
        resolved_register(device, p, r, visiting) is Err,
    ensures
        is_reference_failure(resolved_register(device, p, r, visiting)->Err_0),
    decreases crate::keys::register_keys(device).to_set().len() - visiting.len(),
{
    let own = device.peripherals[p].registers[r];
    if own.derived_from is Some && !visiting.contains((p, r)) {
        let reference = own.derived_from->0;
        if locate_register(device, p, reference) is Some {
            let target = locate_register(device, p, reference)->0;
            lemma_located_register(device, p, reference);
            lemma_pending_registers_push(device, visiting, p, r);
            lemma_register_fails_on_a_reference(device, target.0, target.1, visiting.push((p, r)));
        }
    }
}

proof fn lemma_field_fails_on_a_reference(
    device: RawDeviceView,
    p: int,
    r: int,
    f: int,
    visiting: Seq<(int, int, int)>,
)
    requires
        is_field(device, p, r, f),
        pending_fields(device, visiting),
        resolved_field(device, p, r, f, visiting) is Err,
    ensures
        is_reference_failure(resolved_field(device, p, r, f, visiting)->Err_0),
    decreases crate::keys::field_keys(device).to_set().len() - visiting.len(),
{
    let own = device.peripherals[p].registers[r].fields[f];
    if own.derived_from is Some && !visiting.contains((p, r, f)) {
        let reference = own.derived_from->0;
        if locate_field(device, p, r, reference) is Some {
            let target = locate_field(device, p, r, reference)->0;
            lemma_located_field(device, p, r, reference);
            lemma_pending_fields_push(device, visiting, p, r, f);
            lemma_field_fails_on_a_reference(
                device,
                target.0,
                target.1,
                target.2,
                visiting.push((p, r, f)),
            );
        }
    }
}

proof fn lemma_resolved_peripherals_from_fails_on_a_reference(device: RawDeviceView, from: int)
    requires
        0 <= from <= device.peripherals.len(),
        resolved_peripherals_from(device, from) is Err,
    ensures
        is_reference_failure(resolved_peripherals_from(device, from)->Err_0),
    decreases device.peripherals.len() - from,
{
    if resolved_peripheral(device, from, Seq::empty()) is Err {
        lemma_peripheral_fails_on_a_reference(device, from, Seq::empty());
    } else {
        lemma_resolved_peripherals_from_fails_on_a_reference(device, from + 1);
    }
}

proof fn lemma_resolved_registers_from_fails_on_a_reference(
    device: RawDeviceView,
    p: int,
    from: int,
)
    requires
        is_peripheral(device, p),
        0 <= from <= device.peripherals[p].registers.len(),
        resolved_registers_from(device, p, from) is Err,
    ensures
        is_reference_failure(resolved_registers_from(device, p, from)->Err_0),
    decreases device.peripherals[p].registers.len() - from,
{
    if resolved_register(device, p, from, Seq::empty()) is Err {
        lemma_register_fails_on_a_reference(device, p, from, Seq::empty());
    } else {
        lemma_resolved_registers_from_fails_on_a_reference(device, p, from + 1);
    }
}

proof fn lemma_register_level_from_fails_on_a_reference(device: RawDeviceView, from: int)
    requires
        0 <= from <= device.peripherals.len(),
        register_level_from(device, from) is Err,
    ensures
        is_reference_failure(register_level_from(device, from)->Err_0),
    decreases device.peripherals.len() - from,
{
    if peripheral_with_resolved_registers(device, from) is Err {
        lemma_resolved_registers_from_fails_on_a_reference(device, from, 0);
    } else {
        lemma_register_level_from_fails_on_a_reference(device, from + 1);
    }
}

proof fn lemma_resolved_fields_from_fails_on_a_reference(
    device: RawDeviceView,
    p: int,
    r: int,
    from: int,
)
    requires
        is_register(device, p, r),
        0 <= from <= device.peripherals[p].registers[r].fields.len(),
        resolved_fields_from(device, p, r, from) is Err,
    ensures
        is_reference_failure(resolved_fields_from(device, p, r, from)->Err_0),
    decreases device.peripherals[p].registers[r].fields.len() - from,
{
    if resolved_field(device, p, r, from, Seq::empty()) is Err {
        lemma_field_fails_on_a_reference(device, p, r, from, Seq::empty());
    } else {
        lemma_resolved_fields_from_fails_on_a_reference(device, p, r, from + 1);
    }
}

proof fn lemma_field_level_registers_from_fails_on_a_reference(
    device: RawDeviceView,
    p: int,
    from: int,
)
    requires
        is_peripheral(device, p),
        0 <= from <= device.peripherals[p].registers.len(),
        field_level_registers_from(device, p, from) is Err,
    ensures
        is_reference_failure(field_level_registers_from(device, p, from)->Err_0),
    decreases device.peripherals[p].registers.len() - from,
{
    if register_with_resolved_fields(device, p, from) is Err {
        lemma_resolved_fields_from_fails_on_a_reference(device, p, from, 0);
    } else {
        lemma_field_level_registers_from_fails_on_a_reference(device, p, from + 1);
    }
}

proof fn lemma_field_level_from_fails_on_a_reference(device: RawDeviceView, from: int)
    requires
        0 <= from <= device.peripherals.len(),
        field_level_from(device, from) is Err,
    ensures
        is_reference_failure(field_level_from(device, from)->Err_0),
    decreases device.peripherals.len() - from,
{
    if peripheral_with_resolved_fields(device, from) is Err {
        lemma_field_level_registers_from_fails_on_a_reference(device, from, 0);
    } else {
        lemma_field_level_from_fails_on_a_reference(device, from + 1);
    }
}

/// Resolution fails on a reference only: on one that names nothing or on
/// one that closes a cycle, never with an illegal state.
pub proof fn law_resolution_fails_on_references_only(device: RawDeviceView)
    requires
        resolved_device(device) is Err,
    ensures
        is_reference_failure(resolved_device(device)->Err_0),
{
    if peripherals_resolved(device) is Err {
        lemma_resolved_peripherals_from_fails_on_a_reference(device, 0);
    } else {
        let first = peripherals_resolved(device)->Ok_0;
        if registers_resolved(first) is Err {
            lemma_register_level_from_fails_on_a_reference(first, 0);
        } else {
            let second = registers_resolved(first)->Ok_0;
            lemma_field_level_from_fails_on_a_reference(second, 0);
        }
    }
}

} // verus!
