//! The serializable model: the resolved, self-contained description of a
//! device. No record of it holds a reference to another entity.

use vstd::prelude::*;

verus! {

/// Access rights of a register or field.
#[derive(Clone, Copy, Debug, PartialEq, Eq)]
pub enum SerializableAccess {
    /// Read access is permitted. Write operations have an undefined effect.
    ReadOnly,
    /// Read and write accesses are permitted.
    ReadWrite,
    /// Read access is always permitted. Only the first write after a reset
    /// affects the content.
    ReadWriteOnce,
    /// Read operations have undefined results. Only the first write after a
    /// reset affects the content.
    WriteOnce,
    /// Read operations have an undefined result. Write access is permitted.
    WriteOnly,
}

/// Side effect of reading a field.
#[derive(Clone, Copy, Debug, PartialEq, Eq)]
pub enum ReadAction {
    Clear,
    /// The field is set to ones by a read.
    SetBits,
    Modify,
}

/// How a written value changes a field.
#[derive(Clone, Copy, Debug, PartialEq, Eq)]
pub enum ModifiedWriteValues {
    OneToClear,
    OneToSet,
    OneToToggle,
    ZeroToClear,
    ZeroToSet,
    ZeroToToggle,
    Modify,
}

/// Whether a set of enumerated values applies to reads, writes or both.
#[derive(Clone, Copy, Debug, PartialEq, Eq)]
pub enum SerializableUsage {
    Read,
    Write,
    ReadWrite,
}

/// Byte order of the processor.
#[derive(Clone, Copy, Debug, PartialEq, Eq)]
pub enum SerializableEndian {
    Little,
    Big,
    /// Mixed endian.
    Selectable,
    Other,
}

/// One named value of an enumerated-value set.
#[derive(Clone, Debug, PartialEq, Eq)]
pub struct SerializableEnumValue {
    pub name: String,
    pub description: Option<String>,
    pub value: u64,
}

pub struct SerializableEnumValueView {
    pub name: Seq<char>,
    pub description: Option<Seq<char>>,
    pub value: u64,
}

impl DeepView for SerializableEnumValue {
    type V = SerializableEnumValueView;

    open spec fn deep_view(&self) -> SerializableEnumValueView {
        SerializableEnumValueView {
            name: self.name@,
            description: self.description.deep_view(),
            value: self.value,
        }
    }
}

/// A named set of enumerated values of a field.
#[derive(Clone, Debug, PartialEq, Eq)]
pub struct SerializableEnumeratedValues {
    pub name: Option<String>,
    pub usage: Option<SerializableUsage>,
    pub values: Vec<SerializableEnumValue>,
}

pub struct SerializableEnumeratedValuesView {
    pub name: Option<Seq<char>>,
    pub usage: Option<SerializableUsage>,
    pub values: Seq<SerializableEnumValueView>,
}

impl DeepView for SerializableEnumeratedValues {
    type V = SerializableEnumeratedValuesView;

    open spec fn deep_view(&self) -> SerializableEnumeratedValuesView {
        SerializableEnumeratedValuesView {
            name: self.name.deep_view(),
            usage: self.usage,
            values: self.values.deep_view(),
        }
    }
}

/// Limits on the values that may be written to a field. A range and a list
/// of permitted values exclude each other by convention; nothing enforces
/// it.
#[derive(Clone, Debug, PartialEq, Eq)]
pub struct SerializableWriteConstraint {
    pub minimum: Option<u64>,
    pub maximum: Option<u64>,
    pub enumerated: Option<Vec<u64>>,
}

pub struct SerializableWriteConstraintView {
    pub minimum: Option<u64>,
    pub maximum: Option<u64>,
    pub enumerated: Option<Seq<u64>>,
}

impl DeepView for SerializableWriteConstraint {
    type V = SerializableWriteConstraintView;

    open spec fn deep_view(&self) -> SerializableWriteConstraintView {
        SerializableWriteConstraintView {
            minimum: self.minimum,
            maximum: self.maximum,
            enumerated: match self.enumerated {
                Some(list) => Some(list@),
                None => None,
            },
        }
    }
}

/// A bit field of a register.
#[derive(Clone, Debug, PartialEq, Eq)]
pub struct SerializableField {
    pub name: String,
    pub description: Option<String>,
    pub bit_offset: u32,
    pub bit_width: u32,
    pub access: Option<SerializableAccess>,
    pub modified_write_values: Option<ModifiedWriteValues>,
    pub write_constraint: Option<SerializableWriteConstraint>,
    pub read_action: Option<ReadAction>,
    pub enumerated_values: Vec<SerializableEnumeratedValues>,
}

pub struct SerializableFieldView {
    pub name: Seq<char>,
    pub description: Option<Seq<char>>,
    pub bit_offset: u32,
    pub bit_width: u32,
    pub access: Option<SerializableAccess>,
    pub modified_write_values: Option<ModifiedWriteValues>,
    pub write_constraint: Option<SerializableWriteConstraintView>,
    pub read_action: Option<ReadAction>,
    pub enumerated_values: Seq<SerializableEnumeratedValuesView>,
}

impl DeepView for SerializableField {
    type V = SerializableFieldView;

    open spec fn deep_view(&self) -> SerializableFieldView {
        SerializableFieldView {
            name: self.name@,
            description: self.description.deep_view(),
            bit_offset: self.bit_offset,
            bit_width: self.bit_width,
            access: self.access,
            modified_write_values: self.modified_write_values,
            write_constraint: self.write_constraint.deep_view(),
            read_action: self.read_action,
            enumerated_values: self.enumerated_values.deep_view(),
        }
    }
}

/// A register of a peripheral.
#[derive(Clone, Debug, PartialEq, Eq)]
pub struct SerializableRegister {
    pub name: String,
    pub display_name: Option<String>,
    pub description: Option<String>,
    pub address_offset: u32,
    pub size: Option<u32>,
    pub access: Option<SerializableAccess>,
    pub reset_value: Option<u64>,
    pub reset_mask: Option<u64>,
    pub alternate_group: Option<String>,
    pub alternate_register: Option<String>,
    pub fields: Vec<SerializableField>,
}

pub struct SerializableRegisterView {
    pub name: Seq<char>,
    pub display_name: Option<Seq<char>>,
    pub description: Option<Seq<char>>,
    pub address_offset: u32,
    pub size: Option<u32>,
    pub access: Option<SerializableAccess>,
    pub reset_value: Option<u64>,
    pub reset_mask: Option<u64>,
    pub alternate_group: Option<Seq<char>>,
    pub alternate_register: Option<Seq<char>>,
    pub fields: Seq<SerializableFieldView>,
}

impl DeepView for SerializableRegister {
    type V = SerializableRegisterView;

    open spec fn deep_view(&self) -> SerializableRegisterView {
        SerializableRegisterView {
            name: self.name@,
            display_name: self.display_name.deep_view(),
            description: self.description.deep_view(),
            address_offset: self.address_offset,
            size: self.size,
            access: self.access,
            reset_value: self.reset_value,
            reset_mask: self.reset_mask,
            alternate_group: self.alternate_group.deep_view(),
            alternate_register: self.alternate_register.deep_view(),
            fields: self.fields.deep_view(),
        }
    }
}

/// A peripheral of the device.
#[derive(Clone, Debug, PartialEq, Eq)]
pub struct SerializablePeripheral {
    pub name: String,
    pub display_name: Option<String>,
    pub version: Option<String>,
    pub description: Option<String>,
    pub group_name: Option<String>,
    pub alternate_peripheral: Option<String>,
    pub base_address: u64,
    pub registers: Vec<SerializableRegister>,
    pub prepend_to_name: Option<String>,
}

pub struct SerializablePeripheralView {
    pub name: Seq<char>,
    pub display_name: Option<Seq<char>>,
    pub version: Option<Seq<char>>,
    pub description: Option<Seq<char>>,
    pub group_name: Option<Seq<char>>,
    pub alternate_peripheral: Option<Seq<char>>,
    pub base_address: u64,
    pub registers: Seq<SerializableRegisterView>,
    pub prepend_to_name: Option<Seq<char>>,
}

impl DeepView for SerializablePeripheral {
    type V = SerializablePeripheralView;

    open spec fn deep_view(&self) -> SerializablePeripheralView {
        SerializablePeripheralView {
            name: self.name@,
            display_name: self.display_name.deep_view(),
            version: self.version.deep_view(),
            description: self.description.deep_view(),
            group_name: self.group_name.deep_view(),
            alternate_peripheral: self.alternate_peripheral.deep_view(),
            base_address: self.base_address,
            registers: self.registers.deep_view(),
            prepend_to_name: self.prepend_to_name.deep_view(),
        }
    }
}

/// An interrupt line. `peripheral` names the peripheral that declared it;
/// it is absent for an interrupt declared at device level.
#[derive(Clone, Debug, PartialEq, Eq)]
pub struct SerializableInterrupt {
    pub name: String,
    pub description: Option<String>,
    pub value: u64,
    pub peripheral: Option<String>,
}

pub struct SerializableInterruptView {
    pub name: Seq<char>,
    pub description: Option<Seq<char>>,
    pub value: u64,
    pub peripheral: Option<Seq<char>>,
}

impl DeepView for SerializableInterrupt {
    type V = SerializableInterruptView;

    open spec fn deep_view(&self) -> SerializableInterruptView {
        SerializableInterruptView {
            name: self.name@,
            description: self.description.deep_view(),
            value: self.value,
            peripheral: self.peripheral.deep_view(),
        }
    }
}

/// The processor of the device.
#[derive(Clone, Debug, PartialEq, Eq)]
pub struct SerializableCpu {
    pub name: String,
    pub revision: Option<String>,
    pub endian: Option<SerializableEndian>,
    pub mpu_present: Option<bool>,
    pub fpu_present: Option<bool>,
    pub nvic_priority_bits: Option<u32>,
    pub vendor_systick_config: Option<bool>,
}

pub struct SerializableCpuView {
    pub name: Seq<char>,
    pub revision: Option<Seq<char>>,
    pub endian: Option<SerializableEndian>,
    pub mpu_present: Option<bool>,
    pub fpu_present: Option<bool>,
    pub nvic_priority_bits: Option<u32>,
    pub vendor_systick_config: Option<bool>,
}

impl DeepView for SerializableCpu {
    type V = SerializableCpuView;

    open spec fn deep_view(&self) -> SerializableCpuView {
        SerializableCpuView {
            name: self.name@,
            revision: self.revision.deep_view(),
            endian: self.endian,
            mpu_present: self.mpu_present,
            fpu_present: self.fpu_present,
            nvic_priority_bits: self.nvic_priority_bits,
            vendor_systick_config: self.vendor_systick_config,
        }
    }
}

/// The resolved device.
#[derive(Clone, Debug, PartialEq, Eq)]
pub struct SerializableDevice {
    pub name: String,
    pub vendor: Option<String>,
    pub vendor_id: Option<String>,
    pub series: Option<String>,
    pub version: Option<String>,
    pub description: Option<String>,
    pub cpu: Option<SerializableCpu>,
    pub peripherals: Vec<SerializablePeripheral>,
    pub interrupts: Vec<SerializableInterrupt>,
    pub header_definitions_prefix: Option<String>,
    pub license_text: Option<String>,
    pub tool_version: Option<String>,
    pub generated_date: Option<String>,
}

pub struct SerializableDeviceView {
    pub name: Seq<char>,
    pub vendor: Option<Seq<char>>,
    pub vendor_id: Option<Seq<char>>,
    pub series: Option<Seq<char>>,
    pub version: Option<Seq<char>>,
    pub description: Option<Seq<char>>,
    pub cpu: Option<SerializableCpuView>,
    pub peripherals: Seq<SerializablePeripheralView>,
    pub interrupts: Seq<SerializableInterruptView>,
    pub header_definitions_prefix: Option<Seq<char>>,
    pub license_text: Option<Seq<char>>,
    pub tool_version: Option<Seq<char>>,
    pub generated_date: Option<Seq<char>>,
}

impl DeepView for SerializableDevice {
    type V = SerializableDeviceView;

    open spec fn deep_view(&self) -> SerializableDeviceView {
        SerializableDeviceView {
            name: self.name@,
            vendor: self.vendor.deep_view(),
            vendor_id: self.vendor_id.deep_view(),
            series: self.series.deep_view(),
            version: self.version.deep_view(),
            description: self.description.deep_view(),
            cpu: self.cpu.deep_view(),
            peripherals: self.peripherals.deep_view(),
            interrupts: self.interrupts.deep_view(),
            header_definitions_prefix: self.header_definitions_prefix.deep_view(),
            license_text: self.license_text.deep_view(),
            tool_version: self.tool_version.deep_view(),
            generated_date: self.generated_date.deep_view(),
        }
    }
}

} // verus!
