//! What resolution yields.
//!
//! Resolution runs level by level: peripherals, then registers, then
//! fields. At each level every entity is replaced by its resolved form. An
//! entity without a reference is its own resolved form. The resolved form
//! of an entity that derives from another is the entity merged with the
//! resolved form of the other, without the reference. While an entity is
//! being resolved it is in progress; a chain of references that comes back
//! to an entity in progress is a cycle, and a reference that names nothing
//! is dangling. The resolved form of an entity depends on the device alone,
//! not on the order in which the entities are visited.

use vstd::prelude::*;
use crate::error::{dotted, ConversionErrorView};
use crate::keys::{field_keys, is_field, is_peripheral, is_register,
    lemma_pending_fields_push, lemma_pending_peripherals_push, lemma_pending_registers_push,
    pending_fields, pending_peripherals, pending_registers, peripheral_keys, register_keys};
use crate::lookup::{locate_field, locate_peripheral, locate_register};
use crate::merge::{merged_field, merged_peripheral, merged_register};
use crate::raw::{RawDeviceView, RawFieldView, RawPeripheralView, RawRegisterView};

verus! {

/// `done`, followed by the rest where the rest succeeded.
pub open spec fn followed_by<T, E>(done: Seq<T>, rest: Result<Seq<T>, E>) -> Result<Seq<T>, E> {
    match rest {
        Ok(items) => Ok(done + items),
        Err(error) => Err(error),
    }
}

// ---------------------------------------------------------------------
// Peripherals
// ---------------------------------------------------------------------

/// The qualified path of peripheral `p`.
pub open spec fn peripheral_path(device: RawDeviceView, p: int) -> Seq<char> {
    device.peripherals[p].name
}

/// A peripheral without its reference.
pub open spec fn settled_peripheral(peripheral: RawPeripheralView) -> RawPeripheralView {
    RawPeripheralView { derived_from: None, ..peripheral }
}

/// The resolved form of peripheral `p`, while the peripherals in
/// `visiting` are in progress.
pub open spec fn resolved_peripheral(device: RawDeviceView, p: int, visiting: Seq<int>) -> Result<
    RawPeripheralView,
    ConversionErrorView,
>
    decreases peripheral_keys(device).to_set().len() - visiting.len(),
    when is_peripheral(device, p) && pending_peripherals(device, visiting)
    via resolved_peripheral_terminates
{
    let own = device.peripherals[p];
    match own.derived_from {
        None => Ok(own),
        Some(reference) => if visiting.contains(p) {
            Err(ConversionErrorView::CyclicDerivation { path: peripheral_path(device, p) })
        } else {
            match locate_peripheral(device, reference) {
                None => Err(
                    ConversionErrorView::DanglingDerivation {
                        source: peripheral_path(device, p),
                        reference,
                    },
                ),
                Some(target) => match resolved_peripheral(device, target, visiting.push(p)) {
                    Ok(base) => Ok(settled_peripheral(merged_peripheral(own, base))),
                    Err(error) => Err(error),
                },
            }
        },
    }
}

#[via_fn]
proof fn resolved_peripheral_terminates(device: RawDeviceView, p: int, visiting: Seq<int>) {
    if !visiting.contains(p) {
        lemma_pending_peripherals_push(device, visiting, p);
    }
}

/// The resolved forms of the peripherals from `from` on, or the error of
/// the first of them that cannot be resolved.
pub open spec fn resolved_peripherals_from(device: RawDeviceView, from: int) -> Result<
    Seq<RawPeripheralView>,
    ConversionErrorView,
>
    decreases device.peripherals.len() - from,
{
    if from < 0 || from >= device.peripherals.len() {
        Ok(Seq::empty())
    } else {
        match resolved_peripheral(device, from, Seq::empty()) {
            Ok(first) => followed_by(seq![first], resolved_peripherals_from(device, from + 1)),
            Err(error) => Err(error),
        }
    }
}

/// The device with every peripheral in its resolved form.
pub open spec fn peripherals_resolved(device: RawDeviceView) -> Result<
    RawDeviceView,
    ConversionErrorView,
> {
    match resolved_peripherals_from(device, 0) {
        Ok(peripherals) => Ok(RawDeviceView { peripherals, ..device }),
        Err(error) => Err(error),
    }
}

// ---------------------------------------------------------------------
// Registers
// ---------------------------------------------------------------------

/// The qualified path of register `r` of peripheral `p`.
pub open spec fn register_path(device: RawDeviceView, p: int, r: int) -> Seq<char> {
    dotted(device.peripherals[p].name, device.peripherals[p].registers[r].name)
}

/// A register without its reference.
pub open spec fn settled_register(register: RawRegisterView) -> RawRegisterView {
    RawRegisterView { derived_from: None, ..register }
}

/// The resolved form of register `r` of peripheral `p`, while the
/// registers in `visiting` are in progress.
pub open spec fn resolved_register(
    device: RawDeviceView,
    p: int,
    r: int,
    visiting: Seq<(int, int)>,
) -> Result<RawRegisterView, ConversionErrorView>
    decreases register_keys(device).to_set().len() - visiting.len(),
    when is_register(device, p, r) && pending_registers(device, visiting)
    via resolved_register_terminates
{
    let own = device.peripherals[p].registers[r];
    match own.derived_from {
        None => Ok(own),
        Some(reference) => if visiting.contains((p, r)) {
            Err(ConversionErrorView::CyclicDerivation { path: register_path(device, p, r) })
        } else {
            match locate_register(device, p, reference) {
                None => Err(
                    ConversionErrorView::DanglingDerivation {
                        source: register_path(device, p, r),
                        reference,
                    },
                ),
                Some((q, s)) => match resolved_register(device, q, s, visiting.push((p, r))) {
                    Ok(base) => Ok(settled_register(merged_register(own, base))),
                    Err(error) => Err(error),
                },
            }
        },
    }
}

#[via_fn]
proof fn resolved_register_terminates(
    device: RawDeviceView,
    p: int,
    r: int,
    visiting: Seq<(int, int)>,
) {
    if !visiting.contains((p, r)) {
        lemma_pending_registers_push(device, visiting, p, r);
    }
}

/// The resolved forms of the registers of peripheral `p` from `from` on,
/// or the error of the first of them that cannot be resolved.
pub open spec fn resolved_registers_from(device: RawDeviceView, p: int, from: int) -> Result<
    Seq<RawRegisterView>,
    ConversionErrorView,
>
    decreases device.peripherals[p].registers.len() - from,
{
    if from < 0 || from >= device.peripherals[p].registers.len() {
        Ok(Seq::empty())
    } else {
        match resolved_register(device, p, from, Seq::empty()) {
            Ok(first) => followed_by(seq![first], resolved_registers_from(device, p, from + 1)),
            Err(error) => Err(error),
        }
    }
}

/// Peripheral `p` with every register in its resolved form.
pub open spec fn peripheral_with_resolved_registers(device: RawDeviceView, p: int) -> Result<
    RawPeripheralView,
    ConversionErrorView,
> {
    match resolved_registers_from(device, p, 0) {
        Ok(registers) => Ok(RawPeripheralView { registers, ..device.peripherals[p] }),
        Err(error) => Err(error),
    }
}

/// The peripherals from `from` on, each with its registers resolved, or
/// the first error met.
pub open spec fn register_level_from(device: RawDeviceView, from: int) -> Result<
    Seq<RawPeripheralView>,
    ConversionErrorView,
>
    decreases device.peripherals.len() - from,
{
    if from < 0 || from >= device.peripherals.len() {
        Ok(Seq::empty())
    } else {
        match peripheral_with_resolved_registers(device, from) {
            Ok(first) => followed_by(seq![first], register_level_from(device, from + 1)),
            Err(error) => Err(error),
        }
    }
}

/// The device with every register in its resolved form.
pub open spec fn registers_resolved(device: RawDeviceView) -> Result<
    RawDeviceView,
    ConversionErrorView,
> {
    match register_level_from(device, 0) {
        Ok(peripherals) => Ok(RawDeviceView { peripherals, ..device }),
        Err(error) => Err(error),
    }
}

// ---------------------------------------------------------------------
// Fields
// ---------------------------------------------------------------------

/// The qualified path of field `f` of register `r` of peripheral `p`.
pub open spec fn field_path(device: RawDeviceView, p: int, r: int, f: int) -> Seq<char> {
    dotted(register_path(device, p, r), device.peripherals[p].registers[r].fields[f].name)
}

/// A field without its reference.
pub open spec fn settled_field(field: RawFieldView) -> RawFieldView {
    RawFieldView { derived_from: None, ..field }
}

/// The resolved form of field `f` of register `r` of peripheral `p`,
/// while the fields in `visiting` are in progress.
pub open spec fn resolved_field(
    device: RawDeviceView,
    p: int,
    r: int,
    f: int,
    visiting: Seq<(int, int, int)>,
) -> Result<RawFieldView, ConversionErrorView>
    decreases field_keys(device).to_set().len() - visiting.len(),
    when is_field(device, p, r, f) && pending_fields(device, visiting)
    via resolved_field_terminates
{
    let own = device.peripherals[p].registers[r].fields[f];
    match own.derived_from {
        None => Ok(own),
        Some(reference) => if visiting.contains((p, r, f)) {
            Err(ConversionErrorView::CyclicDerivation { path: field_path(device, p, r, f) })
        } else {
            match locate_field(device, p, r, reference) {
                None => Err(
                    ConversionErrorView::DanglingDerivation {
                        source: field_path(device, p, r, f),
                        reference,
                    },
                ),
                Some((q, s, g)) => match resolved_field(
                    device,
                    q,
                    s,
                    g,
                    visiting.push((p, r, f)),
                ) {
                    Ok(base) => Ok(settled_field(merged_field(own, base))),
                    Err(error) => Err(error),
                },
            }
        },
    }
}

#[via_fn]
proof fn resolved_field_terminates(
    device: RawDeviceView,
    p: int,
    r: int,
    f: int,
    visiting: Seq<(int, int, int)>,
) {
    if !visiting.contains((p, r, f)) {
        lemma_pending_fields_push(device, visiting, p, r, f);
    }
}

/// The resolved forms of the fields of register `r` of peripheral `p`
/// from `from` on, or the error of the first of them that cannot be
/// resolved.
pub open spec fn resolved_fields_from(device: RawDeviceView, p: int, r: int, from: int) -> Result<
    Seq<RawFieldView>,
    ConversionErrorView,
>
    decreases device.peripherals[p].registers[r].fields.len() - from,
{
    if from < 0 || from >= device.peripherals[p].registers[r].fields.len() {
        Ok(Seq::empty())
    } else {
        match resolved_field(device, p, r, from, Seq::empty()) {
            Ok(first) => followed_by(seq![first], resolved_fields_from(device, p, r, from + 1)),
            Err(error) => Err(error),
        }
    }
}

/// Register `r` of peripheral `p` with every field in its resolved form.
pub open spec fn register_with_resolved_fields(device: RawDeviceView, p: int, r: int) -> Result<
    RawRegisterView,
    ConversionErrorView,
> {
    match resolved_fields_from(device, p, r, 0) {
        Ok(fields) => Ok(RawRegisterView { fields, ..device.peripherals[p].registers[r] }),
        Err(error) => Err(error),
    }
}

/// The registers of peripheral `p` from `from` on, each with its fields
/// resolved, or the first error met.
pub open spec fn field_level_registers_from(device: RawDeviceView, p: int, from: int) -> Result<
    Seq<RawRegisterView>,
    ConversionErrorView,
>
    decreases device.peripherals[p].registers.len() - from,
{
    if from < 0 || from >= device.peripherals[p].registers.len() {
        Ok(Seq::empty())
    } else {
        match register_with_resolved_fields(device, p, from) {
            Ok(first) => followed_by(
                seq![first],
                field_level_registers_from(device, p, from + 1),
            ),
            Err(error) => Err(error),
        }
    }
}

/// Peripheral `p` with every field of every register in its resolved
/// form.
pub open spec fn peripheral_with_resolved_fields(device: RawDeviceView, p: int) -> Result<
    RawPeripheralView,
    ConversionErrorView,
> {
    match field_level_registers_from(device, p, 0) {
        Ok(registers) => Ok(RawPeripheralView { registers, ..device.peripherals[p] }),
        Err(error) => Err(error),
    }
}

/// The peripherals from `from` on, each with its fields resolved, or the
/// first error met.
pub open spec fn field_level_from(device: RawDeviceView, from: int) -> Result<
    Seq<RawPeripheralView>,
    ConversionErrorView,
>
    decreases device.peripherals.len() - from,
{
    if from < 0 || from >= device.peripherals.len() {
        Ok(Seq::empty())
    } else {
        match peripheral_with_resolved_fields(device, from) {
            Ok(first) => followed_by(seq![first], field_level_from(device, from + 1)),
            Err(error) => Err(error),
        }
    }
}

/// The device with every field in its resolved form.
pub open spec fn fields_resolved(device: RawDeviceView) -> Result<
    RawDeviceView,
    ConversionErrorView,
> {
    match field_level_from(device, 0) {
        Ok(peripherals) => Ok(RawDeviceView { peripherals, ..device }),
        Err(error) => Err(error),
    }
}

// ---------------------------------------------------------------------
// The whole device
// ---------------------------------------------------------------------

/// The device with every reference resolved: peripherals first, then
/// registers, then fields.
pub open spec fn resolved_device(device: RawDeviceView) -> Result<
    RawDeviceView,
    ConversionErrorView,
> {
    match peripherals_resolved(device) {
        Err(error) => Err(error),
        Ok(first) => match registers_resolved(first) {
            Err(error) => Err(error),
            Ok(second) => fields_resolved(second),
        },
    }
}

} // verus!
