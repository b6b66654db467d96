//! The model builder: turns a resolved raw tree into the serializable
//! model.
//!
//! Every attribute is carried over as it is: one that is absent stays
//! absent, an enumeration is mapped variant by variant, a write constraint
//! keeps its shape. Each interrupt that a peripheral declares is marked
//! with that peripheral's name; the interrupts of the peripherals come
//! first, peripheral by peripheral, and those declared at device level
//! follow without a mark.

use vstd::prelude::*;
use crate::copy::{copy_numbers, copy_text};
use crate::error::{outcome_view, ConversionError, ConversionErrorView};
use crate::model::{ModifiedWriteValues, ReadAction, SerializableAccess, SerializableCpu,
    SerializableCpuView, SerializableDevice, SerializableDeviceView, SerializableEndian,
    SerializableEnumValue, SerializableEnumValueView, SerializableEnumeratedValues,
    SerializableEnumeratedValuesView, SerializableField, SerializableFieldView,
    SerializableInterrupt, SerializableInterruptView, SerializablePeripheral,
    SerializablePeripheralView, SerializableRegister, SerializableRegisterView,
    SerializableUsage, SerializableWriteConstraint, SerializableWriteConstraintView};
use crate::raw::{RawAccess, RawCpu, RawCpuView, RawDevice, RawDeviceView, RawEndian,
    RawEnumValue, RawEnumValueView, RawEnumeratedValues, RawEnumeratedValuesView, RawField,
    RawFieldView, RawInterrupt, RawInterruptView, RawModifiedWriteValues, RawPeripheral,
    RawPeripheralView, RawReadAction, RawRegister, RawRegisterView, RawUsage,
    RawWriteConstraint, RawWriteConstraintView};

verus! {

// ---------------------------------------------------------------------
// Enumerations
// ---------------------------------------------------------------------

pub open spec fn built_access(access: RawAccess) -> SerializableAccess {
    match access {
        RawAccess::ReadOnly => SerializableAccess::ReadOnly,
        RawAccess::ReadWrite => SerializableAccess::ReadWrite,
        RawAccess::ReadWriteOnce => SerializableAccess::ReadWriteOnce,
        RawAccess::WriteOnce => SerializableAccess::WriteOnce,
        RawAccess::WriteOnly => SerializableAccess::WriteOnly,
    }
}

pub open spec fn built_endian(endian: RawEndian) -> SerializableEndian {
    match endian {
        RawEndian::Little => SerializableEndian::Little,
        RawEndian::Big => SerializableEndian::Big,
        RawEndian::Selectable => SerializableEndian::Selectable,
        RawEndian::Other => SerializableEndian::Other,
    }
}

pub open spec fn built_read_action(action: RawReadAction) -> ReadAction {
    match action {
        RawReadAction::Clear => ReadAction::Clear,
        RawReadAction::SetBits => ReadAction::SetBits,
        RawReadAction::Modify => ReadAction::Modify,
    }
}

pub open spec fn built_modified_write_values(values: RawModifiedWriteValues)
    -> ModifiedWriteValues {
    match values {
        RawModifiedWriteValues::OneToClear => ModifiedWriteValues::OneToClear,
        RawModifiedWriteValues::OneToSet => ModifiedWriteValues::OneToSet,
        RawModifiedWriteValues::OneToToggle => ModifiedWriteValues::OneToToggle,
        RawModifiedWriteValues::ZeroToClear => ModifiedWriteValues::ZeroToClear,
        RawModifiedWriteValues::ZeroToSet => ModifiedWriteValues::ZeroToSet,
        RawModifiedWriteValues::ZeroToToggle => ModifiedWriteValues::ZeroToToggle,
        RawModifiedWriteValues::Modify => ModifiedWriteValues::Modify,
    }
}

pub open spec fn built_usage(usage: RawUsage) -> SerializableUsage {
    match usage {
        RawUsage::Read => SerializableUsage::Read,
        RawUsage::Write => SerializableUsage::Write,
        RawUsage::ReadWrite => SerializableUsage::ReadWrite,
    }
}

/// Maps an access right onto the model's.
pub fn build_access(access: RawAccess) -> (built: SerializableAccess)
    ensures
        built == built_access(access),
{
    match access {
        RawAccess::ReadOnly => SerializableAccess::ReadOnly,
        RawAccess::ReadWrite => SerializableAccess::ReadWrite,
        RawAccess::ReadWriteOnce => SerializableAccess::ReadWriteOnce,
        RawAccess::WriteOnce => SerializableAccess::WriteOnce,
        RawAccess::WriteOnly => SerializableAccess::WriteOnly,
    }
}

/// Maps a byte order onto the model's.
pub fn build_endian(endian: RawEndian) -> (built: SerializableEndian)
    ensures
        built == built_endian(endian),
{
    match endian {
        RawEndian::Little => SerializableEndian::Little,
        RawEndian::Big => SerializableEndian::Big,
        RawEndian::Selectable => SerializableEndian::Selectable,
        RawEndian::Other => SerializableEndian::Other,
    }
}

/// Maps a read action onto the model's.
pub fn build_read_action(action: RawReadAction) -> (built: ReadAction)
    ensures
        built == built_read_action(action),
{
    match action {
        RawReadAction::Clear => ReadAction::Clear,
        RawReadAction::SetBits => ReadAction::SetBits,
        RawReadAction::Modify => ReadAction::Modify,
    }
}

/// Maps a write effect onto the model's.
pub fn build_modified_write_values(values: RawModifiedWriteValues) -> (built: ModifiedWriteValues)
    ensures
        built == built_modified_write_values(values),
{
    match values {
        RawModifiedWriteValues::OneToClear => ModifiedWriteValues::OneToClear,
        RawModifiedWriteValues::OneToSet => ModifiedWriteValues::OneToSet,
        RawModifiedWriteValues::OneToToggle => ModifiedWriteValues::OneToToggle,
        RawModifiedWriteValues::ZeroToClear => ModifiedWriteValues::ZeroToClear,
        RawModifiedWriteValues::ZeroToSet => ModifiedWriteValues::ZeroToSet,
        RawModifiedWriteValues::ZeroToToggle => ModifiedWriteValues::ZeroToToggle,
        RawModifiedWriteValues::Modify => ModifiedWriteValues::Modify,
    }
}

/// Maps a usage onto the model's.
pub fn build_usage(usage: RawUsage) -> (built: SerializableUsage)
    ensures
        built == built_usage(usage),
{
    match usage {
        RawUsage::Read => SerializableUsage::Read,
        RawUsage::Write => SerializableUsage::Write,
        RawUsage::ReadWrite => SerializableUsage::ReadWrite,
    }
}

// ---------------------------------------------------------------------
// What the model holds for a resolved tree
// ---------------------------------------------------------------------

/// An optional value carried over through `f`.
pub open spec fn carried<A, B>(value: Option<A>, f: spec_fn(A) -> B) -> Option<B> {
    match value {
        Some(v) => Some(f(v)),
        None => None,
    }
}

pub open spec fn built_enum_value(value: RawEnumValueView) -> SerializableEnumValueView {
    SerializableEnumValueView {
        name: value.name,
        description: value.description,
        value: value.value,
    }
}

pub open spec fn built_enumerated_values(set: RawEnumeratedValuesView)
    -> SerializableEnumeratedValuesView {
    SerializableEnumeratedValuesView {
        name: set.name,
        usage: carried(set.usage, |u: RawUsage| built_usage(u)),
        values: Seq::new(set.values.len(), |i: int| built_enum_value(set.values[i])),
    }
}

pub open spec fn built_write_constraint(constraint: RawWriteConstraintView)
    -> SerializableWriteConstraintView {
    SerializableWriteConstraintView {
        minimum: constraint.minimum,
        maximum: constraint.maximum,
        enumerated: constraint.enumerated,
    }
}

pub open spec fn built_field(field: RawFieldView) -> SerializableFieldView {
    SerializableFieldView {
        name: field.name,
        description: field.description,
        bit_offset: field.bit_offset,
        bit_width: field.bit_width,
        access: carried(field.access, |a: RawAccess| built_access(a)),
        modified_write_values: carried(
            field.modified_write_values,
            |m: RawModifiedWriteValues| built_modified_write_values(m),
        ),
        write_constraint: carried(
            field.write_constraint,
            |w: RawWriteConstraintView| built_write_constraint(w),
        ),
        read_action: carried(field.read_action, |a: RawReadAction| built_read_action(a)),
        enumerated_values: Seq::new(
            field.enumerated_values.len(),
            |i: int| built_enumerated_values(field.enumerated_values[i]),
        ),
    }
}

pub open spec fn built_register(register: RawRegisterView) -> SerializableRegisterView {
    SerializableRegisterView {
        name: register.name,
        display_name: register.display_name,
        description: register.description,
        address_offset: register.address_offset,
        size: register.size,
        access: carried(register.access, |a: RawAccess| built_access(a)),
        reset_value: register.reset_value,
        reset_mask: register.reset_mask,
        alternate_group: register.alternate_group,
        alternate_register: register.alternate_register,
        fields: Seq::new(register.fields.len(), |i: int| built_field(register.fields[i])),
    }
}

pub open spec fn built_peripheral(peripheral: RawPeripheralView) -> SerializablePeripheralView {
    SerializablePeripheralView {
        name: peripheral.name,
        display_name: peripheral.display_name,
        version: peripheral.version,
        description: peripheral.description,
        group_name: peripheral.group_name,
        alternate_peripheral: peripheral.alternate_peripheral,
        base_address: peripheral.base_address,
        registers: Seq::new(
            peripheral.registers.len(),
            |i: int| built_register(peripheral.registers[i]),
        ),
        prepend_to_name: peripheral.prepend_to_name,
    }
}

pub open spec fn built_cpu(cpu: RawCpuView) -> SerializableCpuView {
    SerializableCpuView {
        name: cpu.name,
        revision: cpu.revision,
        endian: carried(cpu.endian, |e: RawEndian| built_endian(e)),
        mpu_present: cpu.mpu_present,
        fpu_present: cpu.fpu_present,
        nvic_priority_bits: cpu.nvic_priority_bits,
        vendor_systick_config: cpu.vendor_systick_config,
    }
}

/// An interrupt, marked with the name of the peripheral that declared it.
pub open spec fn built_interrupt(interrupt: RawInterruptView, declared_by: Option<Seq<char>>)
    -> SerializableInterruptView {
    SerializableInterruptView {
        name: interrupt.name,
        description: interrupt.description,
        value: interrupt.value,
        peripheral: declared_by,
    }
}

/// The interrupts of a list, each marked as declared by `declared_by`.
pub open spec fn marked_interrupts(list: Seq<RawInterruptView>, declared_by: Option<Seq<char>>)
    -> Seq<SerializableInterruptView> {
    Seq::new(list.len(), |i: int| built_interrupt(list[i], declared_by))
}

/// The interrupts that the first `n` peripherals declare, each marked with
/// its peripheral's name.
pub open spec fn peripheral_interrupts(device: RawDeviceView, n: int) -> Seq<
    SerializableInterruptView,
>
    decreases n,
{
    if n <= 0 {
        Seq::empty()
    } else {
        peripheral_interrupts(device, n - 1) + marked_interrupts(
            device.peripherals[n - 1].interrupts,
            Some(device.peripherals[n - 1].name),
        )
    }
}

/// All the interrupts of the device.
pub open spec fn built_interrupts(device: RawDeviceView) -> Seq<SerializableInterruptView> {
    peripheral_interrupts(device, device.peripherals.len() as int) + marked_interrupts(
        device.interrupts,
        None,
    )
}

/// The register and its fields hold no reference.
pub open spec fn register_settled(register: RawRegisterView) -> bool {
    &&& register.derived_from is None
    &&& forall|f: int|
        0 <= f < register.fields.len() ==> (#[trigger] register.fields[f]).derived_from is None
}

/// The peripheral, its registers and their fields hold no reference.
pub open spec fn peripheral_settled(peripheral: RawPeripheralView) -> bool {
    &&& peripheral.derived_from is None
    &&& forall|r: int|
        0 <= r < peripheral.registers.len() ==> register_settled(#[trigger] peripheral.registers[r])
}

/// No entity of the device holds a reference.
pub open spec fn fully_resolved(device: RawDeviceView) -> bool {
    forall|p: int|
        0 <= p < device.peripherals.len() ==> peripheral_settled(#[trigger] device.peripherals[p])
}

/// The model of a device that holds no reference.
pub open spec fn built_model(device: RawDeviceView) -> SerializableDeviceView {
    SerializableDeviceView {
        name: device.name,
        vendor: device.vendor,
        vendor_id: device.vendor_id,
        series: device.series,
        version: device.version,
        description: device.description,
        cpu: carried(device.cpu, |c: RawCpuView| built_cpu(c)),
        peripherals: Seq::new(
            device.peripherals.len(),
            |i: int| built_peripheral(device.peripherals[i]),
        ),
        interrupts: built_interrupts(device),
        header_definitions_prefix: device.header_definitions_prefix,
        license_text: device.license_text,
        tool_version: device.tool_version,
        generated_date: device.generated_date,
    }
}

/// What the builder returns: the model where the device is fully
/// resolved, `IllegalState` where a reference is left.
pub open spec fn built_device(device: RawDeviceView) -> Result<
    SerializableDeviceView,
    ConversionErrorView,
> {
    if fully_resolved(device) {
        Ok(built_model(device))
    } else {
        Err(ConversionErrorView::IllegalState)
    }
}

// ---------------------------------------------------------------------
// Building
// ---------------------------------------------------------------------

/// Builds one enumerated value.
pub fn build_enum_value(value: &RawEnumValue) -> (built: SerializableEnumValue)
    ensures
        built.deep_view() == built_enum_value(value.deep_view()),
{
    SerializableEnumValue {
        name: value.name.clone(),
        description: copy_text(&value.description),
        value: value.value,
    }
}

/// Builds a set of enumerated values.
pub fn build_enumerated_values(set: &RawEnumeratedValues) -> (built: SerializableEnumeratedValues)
    ensures
        built.deep_view() == built_enumerated_values(set.deep_view()),
{
    let mut values: Vec<SerializableEnumValue> = Vec::new();
    let mut i: usize = 0;
    while i < set.values.len()
        invariant
            i <= set.values.len(),
            values.len() == i,
            forall|j: int|
                0 <= j < i ==> values[j].deep_view() == built_enum_value(set.values[j].deep_view()),
        decreases set.values.len() - i,
    {
        values.push(build_enum_value(&set.values[i]));
        i += 1;
    }
    assert(values.deep_view() =~= built_enumerated_values(set.deep_view()).values);
    let usage = match set.usage {
        Some(u) => Some(build_usage(u)),
        None => None,
    };
    SerializableEnumeratedValues { name: copy_text(&set.name), usage, values }
}

/// Builds a write constraint.
pub fn build_write_constraint(constraint: &RawWriteConstraint) -> (built:
    SerializableWriteConstraint)
    ensures
        built.deep_view() == built_write_constraint(constraint.deep_view()),
{
    let enumerated = match &constraint.enumerated {
        Some(list) => Some(copy_numbers(list)),
        None => None,
    };
    SerializableWriteConstraint {
        minimum: constraint.minimum,
        maximum: constraint.maximum,
        enumerated,
    }
}

/// Builds a field. A reference that the field may hold is not carried
/// over.
pub fn build_field(field: &RawField) -> (built: SerializableField)
    ensures
        built.deep_view() == built_field(field.deep_view()),
{
    let mut sets: Vec<SerializableEnumeratedValues> = Vec::new();
    let mut i: usize = 0;
    while i < field.enumerated_values.len()
        invariant
            i <= field.enumerated_values.len(),
            sets.len() == i,
            forall|j: int|
                0 <= j < i ==> sets[j].deep_view() == built_enumerated_values(
                    field.enumerated_values[j].deep_view(),
                ),
        decreases field.enumerated_values.len() - i,
    {
        sets.push(build_enumerated_values(&field.enumerated_values[i]));
        i += 1;
    }
    assert(sets.deep_view() =~= built_field(field.deep_view()).enumerated_values);
    let access = match field.access {
        Some(a) => Some(build_access(a)),
        None => None,
    };
    let modified_write_values = match field.modified_write_values {
        Some(m) => Some(build_modified_write_values(m)),
        None => None,
    };
    let write_constraint = match &field.write_constraint {
        Some(w) => Some(build_write_constraint(w)),
        None => None,
    };
    let read_action = match field.read_action {
        Some(a) => Some(build_read_action(a)),
        None => None,
    };
    SerializableField {
        name: field.name.clone(),
        description: copy_text(&field.description),
        bit_offset: field.bit_offset,
        bit_width: field.bit_width,
        access,
        modified_write_values,
        write_constraint,
        read_action,
        enumerated_values: sets,
    }
}

/// Builds a register. A reference that the register may hold is not
/// carried over.
pub fn build_register(register: &RawRegister) -> (built: SerializableRegister)
    ensures
        built.deep_view() == built_register(register.deep_view()),
{
    let mut fields: Vec<SerializableField> = Vec::new();
    let mut i: usize = 0;
    while i < register.fields.len()
        invariant
            i <= register.fields.len(),
            fields.len() == i,
            forall|j: int|
                0 <= j < i ==> fields[j].deep_view() == built_field(register.fields[j].deep_view()),
        decreases register.fields.len() - i,
    {
        fields.push(build_field(&register.fields[i]));
        i += 1;
    }
    assert(fields.deep_view() =~= built_register(register.deep_view()).fields);
    let access = match register.access {
        Some(a) => Some(build_access(a)),
        None => None,
    };
    SerializableRegister {
        name: register.name.clone(),
        display_name: copy_text(&register.display_name),
        description: copy_text(&register.description),
        address_offset: register.address_offset,
        size: register.size,
        access,
        reset_value: register.reset_value,
        reset_mask: register.reset_mask,
        alternate_group: copy_text(&register.alternate_group),
        alternate_register: copy_text(&register.alternate_register),
        fields,
    }
}

/// Builds a peripheral. A reference that the peripheral may hold is not
/// carried over, and its interrupts are left to `build_interrupts`.
pub fn build_peripheral(peripheral: &RawPeripheral) -> (built: SerializablePeripheral)
    ensures
        built.deep_view() == built_peripheral(peripheral.deep_view()),
{
    let mut registers: Vec<SerializableRegister> = Vec::new();
    let mut i: usize = 0;
    while i < peripheral.registers.len()
        invariant
            i <= peripheral.registers.len(),
            registers.len() == i,
            forall|j: int|
                0 <= j < i ==> registers[j].deep_view() == built_register(
                    peripheral.registers[j].deep_view(),
                ),
        decreases peripheral.registers.len() - i,
    {
        registers.push(build_register(&peripheral.registers[i]));
        i += 1;
    }
    assert(registers.deep_view() =~= built_peripheral(peripheral.deep_view()).registers);
    SerializablePeripheral {
        name: peripheral.name.clone(),
        display_name: copy_text(&peripheral.display_name),
        version: copy_text(&peripheral.version),
        description: copy_text(&peripheral.description),
        group_name: copy_text(&peripheral.group_name),
        alternate_peripheral: copy_text(&peripheral.alternate_peripheral),
        base_address: peripheral.base_address,
        registers,
        prepend_to_name: copy_text(&peripheral.prepend_to_name),
    }
}

/// Builds the processor.
pub fn build_cpu(cpu: &RawCpu) -> (built: SerializableCpu)
    ensures
        built.deep_view() == built_cpu(cpu.deep_view()),
{
    let endian = match cpu.endian {
        Some(e) => Some(build_endian(e)),
        None => None,
    };
    SerializableCpu {
        name: cpu.name.clone(),
        revision: copy_text(&cpu.revision),
        endian,
        mpu_present: cpu.mpu_present,
        fpu_present: cpu.fpu_present,
        nvic_priority_bits: cpu.nvic_priority_bits,
        vendor_systick_config: cpu.vendor_systick_config,
    }
}

/// Appends the interrupts of `list` to `out`, each marked as declared by
/// `declared_by`.
pub fn append_interrupts(
    out: &mut Vec<SerializableInterrupt>,
    list: &Vec<RawInterrupt>,
    declared_by: &Option<String>,
)
    ensures
        final(out).deep_view() == old(out).deep_view() + marked_interrupts(
            list.deep_view(),
            declared_by.deep_view(),
        ),
{
    let ghost start = out.deep_view();
    let ghost marked = marked_interrupts(list.deep_view(), declared_by.deep_view());
    let mut i: usize = 0;
    assert(out.deep_view() =~= start + marked.take(0));
    while i < list.len()
        invariant
            i <= list.len(),
            marked == marked_interrupts(list.deep_view(), declared_by.deep_view()),
            out.deep_view() == start + marked.take(i as int),
        decreases list.len() - i,
    {
        let interrupt = &list[i];
        let built = SerializableInterrupt {
            name: interrupt.name.clone(),
            description: copy_text(&interrupt.description),
            value: interrupt.value,
            peripheral: copy_text(declared_by),
        };
        let ghost before = out.deep_view();
        out.push(built);
        proof {
            assert(built.deep_view() == marked[i as int]);
            assert(out.deep_view() =~= before.push(built.deep_view()));
            assert(before.push(marked[i as int]) =~= start + marked.take(i + 1));
        }
        i += 1;
    }
    assert(marked.take(list.len() as int) =~= marked);
}

/// Collects the interrupts of the device: those of each peripheral, marked
/// with its name, then those declared at device level.
pub fn build_interrupts(device: &RawDevice) -> (built: Vec<SerializableInterrupt>)
    ensures
        built.deep_view() == built_interrupts(device.deep_view()),
{
    let ghost view = device.deep_view();
    let mut built: Vec<SerializableInterrupt> = Vec::new();
    let mut p: usize = 0;
    assert(built.deep_view() =~= peripheral_interrupts(view, 0));
    while p < device.peripherals.len()
        invariant
            p <= device.peripherals.len(),
            view == device.deep_view(),
            built.deep_view() == peripheral_interrupts(view, p as int),
        decreases device.peripherals.len() - p,
    {
        let peripheral = &device.peripherals[p];
        assert(view.peripherals[p as int] == peripheral.deep_view());
        let owner = Some(peripheral.name.clone());
        append_interrupts(&mut built, &peripheral.interrupts, &owner);
        p += 1;
    }
    let nobody: Option<String> = None;
    append_interrupts(&mut built, &device.interrupts, &nobody);
    built
}

/// Tells whether the register and its fields hold no reference.
pub fn is_register_settled(register: &RawRegister) -> (settled: bool)
    ensures
        settled == register_settled(register.deep_view()),
{
    if register.derived_from.is_some() {
        return false;
    }
    let mut f: usize = 0;
    while f < register.fields.len()
        invariant
            f <= register.fields.len(),
            forall|j: int| 0 <= j < f ==> register.deep_view().fields[j].derived_from is None,
        decreases register.fields.len() - f,
    {
        if register.fields[f].derived_from.is_some() {
            assert(register.deep_view().fields[f as int].derived_from is Some);
            return false;
        }
        assert(register.deep_view().fields[f as int] == register.fields[f as int].deep_view());
        f += 1;
    }
    true
}

/// Tells whether the peripheral, its registers and their fields hold no
/// reference.
pub fn is_peripheral_settled(peripheral: &RawPeripheral) -> (settled: bool)
    ensures
        settled == peripheral_settled(peripheral.deep_view()),
{
    if peripheral.derived_from.is_some() {
        return false;
    }
    let mut r: usize = 0;
    while r < peripheral.registers.len()
        invariant
            r <= peripheral.registers.len(),
            forall|j: int| 0 <= j < r ==> register_settled(peripheral.deep_view().registers[j]),
        decreases peripheral.registers.len() - r,
    {
        assert(peripheral.deep_view().registers[r as int]
            == peripheral.registers[r as int].deep_view());
        if !is_register_settled(&peripheral.registers[r]) {
            return false;
        }
        r += 1;
    }
    true
}

/// Tells whether no entity of the device holds a reference.
pub fn is_fully_resolved(device: &RawDevice) -> (resolved: bool)
    ensures
        resolved == fully_resolved(device.deep_view()),
{
    let mut p: usize = 0;
    while p < device.peripherals.len()
        invariant
            p <= device.peripherals.len(),
            forall|j: int| 0 <= j < p ==> peripheral_settled(device.deep_view().peripherals[j]),
        decreases device.peripherals.len() - p,
    {
        assert(
            device.deep_view().peripherals[p as int] == device.peripherals[p as int].deep_view()
        );
        if !is_peripheral_settled(&device.peripherals[p]) {
            return false;
        }
        p += 1;
    }
    true
}

/// Builds the model of a resolved device. A device that still holds a
/// reference is refused with `IllegalState`.
pub fn build_device(device: &RawDevice) -> (outcome: Result<SerializableDevice, ConversionError>)
    ensures
        outcome_view(outcome) == built_device(device.deep_view()),
{
    if !is_fully_resolved(device) {
        return Err(ConversionError::IllegalState);
    }
    let mut peripherals: Vec<SerializablePeripheral> = Vec::new();
    let mut i: usize = 0;
    while i < device.peripherals.len()
        invariant
            i <= device.peripherals.len(),
            peripherals.len() == i,
            forall|j: int|
                0 <= j < i ==> peripherals[j].deep_view() == built_peripheral(
                    device.peripherals[j].deep_view(),
                ),
        decreases device.peripherals.len() - i,
    {
        peripherals.push(build_peripheral(&device.peripherals[i]));
        i += 1;
    }
    assert(peripherals.deep_view() =~= built_model(device.deep_view()).peripherals);
    let cpu = match &device.cpu {
        Some(c) => Some(build_cpu(c)),
        None => None,
    };
    Ok(
        SerializableDevice {
            name: device.name.clone(),
            vendor: copy_text(&device.vendor),
            vendor_id: copy_text(&device.vendor_id),
            series: copy_text(&device.series),
            version: copy_text(&device.version),
            description: copy_text(&device.description),
            cpu,
            peripherals,
            interrupts: build_interrupts(device),
            header_definitions_prefix: copy_text(&device.header_definitions_prefix),
            license_text: copy_text(&device.license_text),
            tool_version: copy_text(&device.tool_version),
            generated_date: copy_text(&device.generated_date),
        },
    )
}

} // verus!
