//! The raw device tree: the unresolved description of a device, with every
//! `derived_from` reference still held as a name or dotted path.
//!
//! Each record has a mathematical view in which text is a sequence of
//! characters and a list is a sequence; the contracts of the crate speak of
//! these views.

use vstd::prelude::*;

verus! {

/// Access rights of a register or field, as the raw tree holds them.
#[derive(Clone, Copy, Debug, PartialEq, Eq)]
pub enum RawAccess {
    ReadOnly,
    ReadWrite,
    ReadWriteOnce,
    WriteOnce,
    WriteOnly,
}

/// Byte order of the processor, as the raw tree holds it.
#[derive(Clone, Copy, Debug, PartialEq, Eq)]
pub enum RawEndian {
    Little,
    Big,
    Selectable,
    Other,
}

/// Side effect of reading a field.
#[derive(Clone, Copy, Debug, PartialEq, Eq)]
pub enum RawReadAction {
    Clear,
    /// The field is set to ones by a read.
    SetBits,
    Modify,
}

/// How a written value changes a field.
#[derive(Clone, Copy, Debug, PartialEq, Eq)]
pub enum RawModifiedWriteValues {
    OneToClear,
    OneToSet,
    OneToToggle,
    ZeroToClear,
    ZeroToSet,
    ZeroToToggle,
    Modify,
}

/// Whether a set of enumerated values applies to reads, writes or both.
#[derive(Clone, Copy, Debug, PartialEq, Eq)]
pub enum RawUsage {
    Read,
    Write,
    ReadWrite,
}

/// One named value of an enumerated-value set.
#[derive(Clone, Debug, PartialEq, Eq)]
pub struct RawEnumValue {
    pub name: String,
    pub description: Option<String>,
    pub value: u64,
}

pub struct RawEnumValueView {
    pub name: Seq<char>,
    pub description: Option<Seq<char>>,
    pub value: u64,
}

impl DeepView for RawEnumValue {
    type V = RawEnumValueView;

    open spec fn deep_view(&self) -> RawEnumValueView {
        RawEnumValueView {
            name: self.name@,
            description: self.description.deep_view(),
            value: self.value,
        }
    }
}

/// A named set of enumerated values of a field.
#[derive(Clone, Debug, PartialEq, Eq)]
pub struct RawEnumeratedValues {
    pub name: Option<String>,
    pub usage: Option<RawUsage>,
    pub values: Vec<RawEnumValue>,
}

pub struct RawEnumeratedValuesView {
    pub name: Option<Seq<char>>,
    pub usage: Option<RawUsage>,
    pub values: Seq<RawEnumValueView>,
}

impl DeepView for RawEnumeratedValues {
    type V = RawEnumeratedValuesView;

    open spec fn deep_view(&self) -> RawEnumeratedValuesView {
        RawEnumeratedValuesView {
            name: self.name.deep_view(),
            usage: self.usage,
            values: self.values.deep_view(),
        }
    }
}

/// Limits on the values that may be written to a field.
#[derive(Clone, Debug, PartialEq, Eq)]
pub struct RawWriteConstraint {
    pub minimum: Option<u64>,
    pub maximum: Option<u64>,
    pub enumerated: Option<Vec<u64>>,
}

pub struct RawWriteConstraintView {
    pub minimum: Option<u64>,
    pub maximum: Option<u64>,
    pub enumerated: Option<Seq<u64>>,
}

impl DeepView for RawWriteConstraint {
    type V = RawWriteConstraintView;

    open spec fn deep_view(&self) -> RawWriteConstraintView {
        RawWriteConstraintView {
            minimum: self.minimum,
            maximum: self.maximum,
            enumerated: match self.enumerated {
                Some(list) => Some(list@),
                None => None,
            },
        }
    }
}

/// A bit field of a register.
#[derive(Clone, Debug, PartialEq, Eq)]
pub struct RawField {
    pub name: String,
    pub derived_from: Option<String>,
    pub description: Option<String>,
    pub bit_offset: u32,
    pub bit_width: u32,
    pub access: Option<RawAccess>,
    pub modified_write_values: Option<RawModifiedWriteValues>,
    pub write_constraint: Option<RawWriteConstraint>,
    pub read_action: Option<RawReadAction>,
    pub enumerated_values: Vec<RawEnumeratedValues>,
}

pub struct RawFieldView {
    pub name: Seq<char>,
    pub derived_from: Option<Seq<char>>,
    pub description: Option<Seq<char>>,
    pub bit_offset: u32,
    pub bit_width: u32,
    pub access: Option<RawAccess>,
    pub modified_write_values: Option<RawModifiedWriteValues>,
    pub write_constraint: Option<RawWriteConstraintView>,
    pub read_action: Option<RawReadAction>,
    pub enumerated_values: Seq<RawEnumeratedValuesView>,
}

impl DeepView for RawField {
    type V = RawFieldView;

    open spec fn deep_view(&self) -> RawFieldView {
        RawFieldView {
            name: self.name@,
            derived_from: self.derived_from.deep_view(),
            description: self.description.deep_view(),
            bit_offset: self.bit_offset,
            bit_width: self.bit_width,
            access: self.access,
            modified_write_values: self.modified_write_values,
            write_constraint: self.write_constraint.deep_view(),
            read_action: self.read_action,
            enumerated_values: self.enumerated_values.deep_view(),
        }
    }
}

/// A register of a peripheral.
#[derive(Clone, Debug, PartialEq, Eq)]
pub struct RawRegister {
    pub name: String,
    pub derived_from: Option<String>,
    pub display_name: Option<String>,
    pub description: Option<String>,
    pub address_offset: u32,
    pub size: Option<u32>,
    pub access: Option<RawAccess>,
    pub reset_value: Option<u64>,
    pub reset_mask: Option<u64>,
    pub alternate_group: Option<String>,
    pub alternate_register: Option<String>,
    pub fields: Vec<RawField>,
}

pub struct RawRegisterView {
    pub name: Seq<char>,
    pub derived_from: Option<Seq<char>>,
    pub display_name: Option<Seq<char>>,
    pub description: Option<Seq<char>>,
    pub address_offset: u32,
    pub size: Option<u32>,
    pub access: Option<RawAccess>,
    pub reset_value: Option<u64>,
    pub reset_mask: Option<u64>,
    pub alternate_group: Option<Seq<char>>,
    pub alternate_register: Option<Seq<char>>,
    pub fields: Seq<RawFieldView>,
}

impl DeepView for RawRegister {
    type V = RawRegisterView;

    open spec fn deep_view(&self) -> RawRegisterView {
        RawRegisterView {
            name: self.name@,
            derived_from: self.derived_from.deep_view(),
            display_name: self.display_name.deep_view(),
            description: self.description.deep_view(),
            address_offset: self.address_offset,
            size: self.size,
            access: self.access,
            reset_value: self.reset_value,
            reset_mask: self.reset_mask,
            alternate_group: self.alternate_group.deep_view(),
            alternate_register: self.alternate_register.deep_view(),
            fields: self.fields.deep_view(),
        }
    }
}

/// An interrupt line, as a peripheral or the device declares it.
#[derive(Clone, Debug, PartialEq, Eq)]
pub struct RawInterrupt {
    pub name: String,
    pub description: Option<String>,
    pub value: u64,
}

pub struct RawInterruptView {
    pub name: Seq<char>,
    pub description: Option<Seq<char>>,
    pub value: u64,
}

impl DeepView for RawInterrupt {
    type V = RawInterruptView;

    open spec fn deep_view(&self) -> RawInterruptView {
        RawInterruptView {
            name: self.name@,
            description: self.description.deep_view(),
            value: self.value,
        }
    }
}

/// A peripheral of the device.
///
/// The interrupts a peripheral declares belong to it alone: derivation
/// neither inherits nor overrides them.
#[derive(Clone, Debug, PartialEq, Eq)]
pub struct RawPeripheral {
    pub name: String,
    pub derived_from: Option<String>,
    pub display_name: Option<String>,
    pub version: Option<String>,
    pub description: Option<String>,
    pub group_name: Option<String>,
    pub alternate_peripheral: Option<String>,
    pub base_address: u64,
    pub prepend_to_name: Option<String>,
    pub registers: Vec<RawRegister>,
    pub interrupts: Vec<RawInterrupt>,
}

pub struct RawPeripheralView {
    pub name: Seq<char>,
    pub derived_from: Option<Seq<char>>,
    pub display_name: Option<Seq<char>>,
    pub version: Option<Seq<char>>,
    pub description: Option<Seq<char>>,
    pub group_name: Option<Seq<char>>,
    pub alternate_peripheral: Option<Seq<char>>,
    pub base_address: u64,
    pub prepend_to_name: Option<Seq<char>>,
    pub registers: Seq<RawRegisterView>,
    pub interrupts: Seq<RawInterruptView>,
}

impl DeepView for RawPeripheral {
    type V = RawPeripheralView;

    open spec fn deep_view(&self) -> RawPeripheralView {
        RawPeripheralView {
            name: self.name@,
            derived_from: self.derived_from.deep_view(),
            display_name: self.display_name.deep_view(),
            version: self.version.deep_view(),
            description: self.description.deep_view(),
            group_name: self.group_name.deep_view(),
            alternate_peripheral: self.alternate_peripheral.deep_view(),
            base_address: self.base_address,
            prepend_to_name: self.prepend_to_name.deep_view(),
            registers: self.registers.deep_view(),
            interrupts: self.interrupts.deep_view(),
        }
    }
}

/// The processor of the device.
#[derive(Clone, Debug, PartialEq, Eq)]
pub struct RawCpu {
    pub name: String,
    pub revision: Option<String>,
    pub endian: Option<RawEndian>,
    pub mpu_present: Option<bool>,
    pub fpu_present: Option<bool>,
    pub nvic_priority_bits: Option<u32>,
    pub vendor_systick_config: Option<bool>,
}

pub struct RawCpuView {
    pub name: Seq<char>,
    pub revision: Option<Seq<char>>,
    pub endian: Option<RawEndian>,
    pub mpu_present: Option<bool>,
    pub fpu_present: Option<bool>,
    pub nvic_priority_bits: Option<u32>,
    pub vendor_systick_config: Option<bool>,
}

impl DeepView for RawCpu {
    type V = RawCpuView;

    open spec fn deep_view(&self) -> RawCpuView {
        RawCpuView {
            name: self.name@,
            revision: self.revision.deep_view(),
            endian: self.endian,
            mpu_present: self.mpu_present,
            fpu_present: self.fpu_present,
            nvic_priority_bits: self.nvic_priority_bits,
            vendor_systick_config: self.vendor_systick_config,
        }
    }
}

/// The root of the raw tree.
///
/// `interrupts` holds the interrupts declared at device level, outside any
/// peripheral.
#[derive(Clone, Debug, PartialEq, Eq)]
pub struct RawDevice {
    pub name: String,
    pub vendor: Option<String>,
    pub vendor_id: Option<String>,
    pub series: Option<String>,
    pub version: Option<String>,
    pub description: Option<String>,
    pub cpu: Option<RawCpu>,
    pub peripherals: Vec<RawPeripheral>,
    pub interrupts: Vec<RawInterrupt>,
    pub header_definitions_prefix: Option<String>,
    pub license_text: Option<String>,
    pub tool_version: Option<String>,
    pub generated_date: Option<String>,
}

pub struct RawDeviceView {
    pub name: Seq<char>,
    pub vendor: Option<Seq<char>>,
    pub vendor_id: Option<Seq<char>>,
    pub series: Option<Seq<char>>,
    pub version: Option<Seq<char>>,
    pub description: Option<Seq<char>>,
    pub cpu: Option<RawCpuView>,
    pub peripherals: Seq<RawPeripheralView>,
    pub interrupts: Seq<RawInterruptView>,
    pub header_definitions_prefix: Option<Seq<char>>,
    pub license_text: Option<Seq<char>>,
    pub tool_version: Option<Seq<char>>,
    pub generated_date: Option<Seq<char>>,
}

impl DeepView for RawDevice {
    type V = RawDeviceView;

    open spec fn deep_view(&self) -> RawDeviceView {
        RawDeviceView {
            name: self.name@,
            vendor: self.vendor.deep_view(),
            vendor_id: self.vendor_id.deep_view(),
            series: self.series.deep_view(),
            version: self.version.deep_view(),
            description: self.description.deep_view(),
            cpu: self.cpu.deep_view(),
            peripherals: self.peripherals.deep_view(),
            interrupts: self.interrupts.deep_view(),
            header_definitions_prefix: self.header_definitions_prefix.deep_view(),
            license_text: self.license_text.deep_view(),
            tool_version: self.tool_version.deep_view(),
            generated_date: self.generated_date.deep_view(),
        }
    }
}

} // verus!
