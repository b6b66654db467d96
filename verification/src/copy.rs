//! Deep copies of the raw records. Each copy has the view of its source.

use vstd::prelude::*;
use crate::raw::{RawCpu, RawEnumValue, RawEnumeratedValues, RawField, RawInterrupt,
    RawPeripheral, RawRegister, RawWriteConstraint};

verus! {

/// A record that can be copied in depth.
pub trait DeepCopy: DeepView + Sized {
    fn deep_copy(&self) -> (copy: Self)
        ensures
            copy.deep_view() == self.deep_view(),
    ;
}

/// Copies an optional text.
pub fn copy_text(text: &Option<String>) -> (copy: Option<String>)
    ensures
        copy.deep_view() == text.deep_view(),
{
    match text {
        Some(t) => Some(t.clone()),
        None => None,
    }
}

/// Copies a list of numbers.
pub fn copy_numbers(list: &Vec<u64>) -> (copy: Vec<u64>)
    ensures
        copy@ == list@,
{
    let mut copy: Vec<u64> = Vec::new();
    let mut i: usize = 0;
    while i < list.len()
        invariant
            i <= list.len(),
            copy@ == list@.take(i as int),
        decreases list.len() - i,
    {
        copy.push(list[i]);
        i += 1;
    }
    copy
}

/// Copies a list of records, one by one and in order.
pub fn copy_all<T: DeepCopy>(list: &Vec<T>) -> (copy: Vec<T>)
    ensures
        copy.deep_view() == list.deep_view(),
{
    let mut copy: Vec<T> = Vec::new();
    let mut i: usize = 0;
    while i < list.len()
        invariant
            i <= list.len(),
            copy.len() == i,
            forall|j: int| 0 <= j < i ==> copy[j].deep_view() == list[j].deep_view(),
        decreases list.len() - i,
    {
        copy.push(list[i].deep_copy());
        i += 1;
    }
    assert(copy.deep_view() =~= list.deep_view());
    copy
}

/// Copies an optional record.
pub fn copy_optional<T: DeepCopy>(value: &Option<T>) -> (copy: Option<T>)
    ensures
        copy.deep_view() == value.deep_view(),
{
    match value {
        Some(v) => Some(v.deep_copy()),
        None => None,
    }
}

impl DeepCopy for RawEnumValue {
    fn deep_copy(&self) -> (copy: Self) {
        RawEnumValue {
            name: self.name.clone(),
            description: copy_text(&self.description),
            value: self.value,
        }
    }
}

impl DeepCopy for RawEnumeratedValues {
    fn deep_copy(&self) -> (copy: Self) {
        RawEnumeratedValues {
            name: copy_text(&self.name),
            usage: self.usage,
            values: copy_all(&self.values),
        }
    }
}

impl DeepCopy for RawWriteConstraint {
    fn deep_copy(&self) -> (copy: Self) {
        let enumerated = match &self.enumerated {
            Some(list) => Some(copy_numbers(list)),
            None => None,
        };
        RawWriteConstraint { minimum: self.minimum, maximum: self.maximum, enumerated }
    }
}

impl DeepCopy for RawField {
    fn deep_copy(&self) -> (copy: Self) {
        RawField {
            name: self.name.clone(),
            derived_from: copy_text(&self.derived_from),
            description: copy_text(&self.description),
            bit_offset: self.bit_offset,
            bit_width: self.bit_width,
            access: self.access,
            modified_write_values: self.modified_write_values,
            write_constraint: copy_optional(&self.write_constraint),
            read_action: self.read_action,
            enumerated_values: copy_all(&self.enumerated_values),
        }
    }
}

impl DeepCopy for RawRegister {
    fn deep_copy(&self) -> (copy: Self) {
        RawRegister {
            name: self.name.clone(),
            derived_from: copy_text(&self.derived_from),
            display_name: copy_text(&self.display_name),
            description: copy_text(&self.description),
            address_offset: self.address_offset,
            size: self.size,
            access: self.access,
            reset_value: self.reset_value,
            reset_mask: self.reset_mask,
            alternate_group: copy_text(&self.alternate_group),
            alternate_register: copy_text(&self.alternate_register),
            fields: copy_all(&self.fields),
        }
    }
}

impl DeepCopy for RawInterrupt {
    fn deep_copy(&self) -> (copy: Self) {
        RawInterrupt {
            name: self.name.clone(),
            description: copy_text(&self.description),
            value: self.value,
        }
    }
}

impl DeepCopy for RawPeripheral {
    fn deep_copy(&self) -> (copy: Self) {
        RawPeripheral {
            name: self.name.clone(),
            derived_from: copy_text(&self.derived_from),
            display_name: copy_text(&self.display_name),
            version: copy_text(&self.version),
            description: copy_text(&self.description),
            group_name: copy_text(&self.group_name),
            alternate_peripheral: copy_text(&self.alternate_peripheral),
            base_address: self.base_address,
            prepend_to_name: copy_text(&self.prepend_to_name),
            registers: copy_all(&self.registers),
            interrupts: copy_all(&self.interrupts),
        }
    }
}

impl DeepCopy for RawCpu {
    fn deep_copy(&self) -> (copy: Self) {
        RawCpu {
            name: self.name.clone(),
            revision: copy_text(&self.revision),
            endian: self.endian,
            mpu_present: self.mpu_present,
            fpu_present: self.fpu_present,
            nvic_priority_bits: self.nvic_priority_bits,
            vendor_systick_config: self.vendor_systick_config,
        }
    }
}

} // verus!
