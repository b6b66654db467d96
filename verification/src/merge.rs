//! The override rules of derivation: how an entity that derives from
//! another is merged with it.
//!
//! The attributes that the deriving entity sets are kept; those it leaves
//! out are taken from the entity it derives from. The name, an address, an
//! offset and a bit range are always set. A list of enumerated-value sets
//! counts as set when it is not empty. Registers and fields are merged by
//! name: an entry of the deriving entity is merged with the entry of the
//! same name where there is one, and the entries that only the other
//! entity has follow, in their order.

use vstd::prelude::*;
use crate::copy::{copy_all, copy_optional, copy_text, DeepCopy};
use crate::lookup::{find_named, first_index, names_of};
use crate::raw::{RawField, RawFieldView, RawPeripheral, RawPeripheralView, RawRegister,
    RawRegisterView};

verus! {

/// The deriving entity's own value where it has one, else the inherited one.
pub open spec fn pick<T>(own: Option<T>, inherited: Option<T>) -> Option<T> {
    if own is Some {
        own
    } else {
        inherited
    }
}

/// The field `own` with what it leaves out taken from `base`.
pub open spec fn merged_field(own: RawFieldView, base: RawFieldView) -> RawFieldView {
    RawFieldView {
        name: own.name,
        derived_from: pick(own.derived_from, base.derived_from),
        description: pick(own.description, base.description),
        bit_offset: own.bit_offset,
        bit_width: own.bit_width,
        access: pick(own.access, base.access),
        modified_write_values: pick(own.modified_write_values, base.modified_write_values),
        write_constraint: pick(own.write_constraint, base.write_constraint),
        read_action: pick(own.read_action, base.read_action),
        enumerated_values: if own.enumerated_values.len() > 0 {
            own.enumerated_values
        } else {
            base.enumerated_values
        },
    }
}

/// The names of a list of fields.
pub open spec fn field_list_names(fields: Seq<RawFieldView>) -> Seq<Seq<char>> {
    Seq::new(fields.len(), |i: int| fields[i].name)
}

/// The names of a list of registers.
pub open spec fn register_list_names(registers: Seq<RawRegisterView>) -> Seq<Seq<char>> {
    Seq::new(registers.len(), |i: int| registers[i].name)
}

/// Field `i` of `own`, merged with the field of the same name in `base`
/// where there is one.
pub open spec fn overlaid_field(own: Seq<RawFieldView>, base: Seq<RawFieldView>, i: int)
    -> RawFieldView {
    match first_index(field_list_names(base), own[i].name) {
        Some(j) => merged_field(own[i], base[j]),
        None => own[i],
    }
}

/// The fields of `base` whose name no field of `own` carries, in order.
pub open spec fn inherited_fields(own: Seq<RawFieldView>, base: Seq<RawFieldView>) -> Seq<
    RawFieldView,
>
    decreases base.len(),
{
    if base.len() == 0 {
        Seq::empty()
    } else {
        let before = inherited_fields(own, base.drop_last());
        if first_index(field_list_names(own), base.last().name) is None {
            before.push(base.last())
        } else {
            before
        }
    }
}

/// The fields of a deriving register merged by name with those of the
/// register it derives from.
pub open spec fn merged_fields(own: Seq<RawFieldView>, base: Seq<RawFieldView>) -> Seq<
    RawFieldView,
> {
    Seq::new(own.len(), |i: int| overlaid_field(own, base, i)) + inherited_fields(own, base)
}

/// The register `own` with what it leaves out taken from `base`.
pub open spec fn merged_register(own: RawRegisterView, base: RawRegisterView) -> RawRegisterView {
    RawRegisterView {
        name: own.name,
        derived_from: pick(own.derived_from, base.derived_from),
        display_name: pick(own.display_name, base.display_name),
        description: pick(own.description, base.description),
        address_offset: own.address_offset,
        size: pick(own.size, base.size),
        access: pick(own.access, base.access),
        reset_value: pick(own.reset_value, base.reset_value),
        reset_mask: pick(own.reset_mask, base.reset_mask),
        alternate_group: pick(own.alternate_group, base.alternate_group),
        alternate_register: pick(own.alternate_register, base.alternate_register),
        fields: merged_fields(own.fields, base.fields),
    }
}

/// Register `i` of `own`, merged with the register of the same name in
/// `base` where there is one.
pub open spec fn overlaid_register(
    own: Seq<RawRegisterView>,
    base: Seq<RawRegisterView>,
    i: int,
) -> RawRegisterView {
    match first_index(register_list_names(base), own[i].name) {
        Some(j) => merged_register(own[i], base[j]),
        None => own[i],
    }
}

/// The registers of `base` whose name no register of `own` carries, in
/// order.
pub open spec fn inherited_registers(own: Seq<RawRegisterView>, base: Seq<RawRegisterView>)
    -> Seq<RawRegisterView>
    decreases base.len(),
{
    if base.len() == 0 {
        Seq::empty()
    } else {
        let before = inherited_registers(own, base.drop_last());
        if first_index(register_list_names(own), base.last().name) is None {
            before.push(base.last())
        } else {
            before
        }
    }
}

/// The registers of a deriving peripheral merged by name with those of the
/// peripheral it derives from.
pub open spec fn merged_registers(own: Seq<RawRegisterView>, base: Seq<RawRegisterView>) -> Seq<
    RawRegisterView,
> {
    Seq::new(own.len(), |i: int| overlaid_register(own, base, i)) + inherited_registers(
        own,
        base,
    )
}

/// The peripheral `own` with what it leaves out taken from `base`.
pub open spec fn merged_peripheral(own: RawPeripheralView, base: RawPeripheralView)
    -> RawPeripheralView {
    RawPeripheralView {
        name: own.name,
        derived_from: pick(own.derived_from, base.derived_from),
        display_name: pick(own.display_name, base.display_name),
        version: pick(own.version, base.version),
        description: pick(own.description, base.description),
        group_name: pick(own.group_name, base.group_name),
        alternate_peripheral: pick(own.alternate_peripheral, base.alternate_peripheral),
        base_address: own.base_address,
        prepend_to_name: pick(own.prepend_to_name, base.prepend_to_name),
        registers: merged_registers(own.registers, base.registers),
        interrupts: own.interrupts,
    }
}

/// Picks between two optional texts.
pub fn pick_text(own: &Option<String>, inherited: &Option<String>) -> (picked: Option<String>)
    ensures
        picked.deep_view() == pick(own.deep_view(), inherited.deep_view()),
{
    match own {
        Some(text) => Some(text.clone()),
        None => copy_text(inherited),
    }
}

/// Picks between two optional plain values.
pub fn pick_value<T: Copy>(own: Option<T>, inherited: Option<T>) -> (picked: Option<T>)
    ensures
        picked == pick(own, inherited),
{
    match own {
        Some(_) => own,
        None => inherited,
    }
}

/// Picks between two optional records.
pub fn pick_record<T: DeepCopy>(own: &Option<T>, inherited: &Option<T>) -> (picked: Option<T>)
    ensures
        picked.deep_view() == pick(own.deep_view(), inherited.deep_view()),
{
    match own {
        Some(record) => Some(record.deep_copy()),
        None => copy_optional(inherited),
    }
}

/// Merges a deriving field with the field it derives from.
pub fn merge_field(own: &RawField, base: &RawField) -> (merged: RawField)
    ensures
        merged.deep_view() == merged_field(own.deep_view(), base.deep_view()),
{
    let enumerated_values = if own.enumerated_values.len() > 0 {
        copy_all(&own.enumerated_values)
    } else {
        copy_all(&base.enumerated_values)
    };
    RawField {
        name: own.name.clone(),
        derived_from: pick_text(&own.derived_from, &base.derived_from),
        description: pick_text(&own.description, &base.description),
        bit_offset: own.bit_offset,
        bit_width: own.bit_width,
        access: pick_value(own.access, base.access),
        modified_write_values: pick_value(own.modified_write_values, base.modified_write_values),
        write_constraint: pick_record(&own.write_constraint, &base.write_constraint),
        read_action: pick_value(own.read_action, base.read_action),
        enumerated_values,
    }
}

proof fn lemma_field_names(fields: &Vec<RawField>)
    ensures
        names_of(fields@) == field_list_names(fields.deep_view()),
{
    assert(names_of(fields@) =~= field_list_names(fields.deep_view()));
}

proof fn lemma_register_names(registers: &Vec<RawRegister>)
    ensures
        names_of(registers@) == register_list_names(registers.deep_view()),
{
    assert(names_of(registers@) =~= register_list_names(registers.deep_view()));
}

/// Merges the fields of a deriving register with those of the register it
/// derives from.
pub fn merge_fields(own: &Vec<RawField>, base: &Vec<RawField>) -> (merged: Vec<RawField>)
    ensures
        merged.deep_view() == merged_fields(own.deep_view(), base.deep_view()),
{
    let ghost own_view = own.deep_view();
    let ghost base_view = base.deep_view();
    proof {
        lemma_field_names(own);
        lemma_field_names(base);
    }
    let mut merged: Vec<RawField> = Vec::new();
    let mut i: usize = 0;
    while i < own.len()
        invariant
            i <= own.len(),
            merged.len() == i,
            own_view == own.deep_view(),
            base_view == base.deep_view(),
            names_of(base@) == field_list_names(base_view),
            forall|k: int| 0 <= k < i ==> merged[k].deep_view() == overlaid_field(
                own_view,
                base_view,
                k,
            ),
        decreases own.len() - i,
    {
        let entry = match find_named(base, &own[i].name) {
            Some(j) => merge_field(&own[i], &base[j]),
            None => own[i].deep_copy(),
        };
        merged.push(entry);
        i += 1;
    }
    let ghost overlaid = Seq::new(own_view.len(), |k: int| overlaid_field(own_view, base_view, k));
    assert(merged.deep_view() =~= overlaid);
    let mut j: usize = 0;
    assert(base_view.take(0) =~= Seq::empty());
    assert(overlaid + inherited_fields(own_view, base_view.take(0)) =~= overlaid);
    while j < base.len()
        invariant
            j <= base.len(),
            own_view == own.deep_view(),
            base_view == base.deep_view(),
            names_of(own@) == field_list_names(own_view),
            merged.deep_view() == overlaid + inherited_fields(own_view, base_view.take(j as int)),
        decreases base.len() - j,
    {
        let ghost before = merged.deep_view();
        let ghost seen = base_view.take(j as int);
        proof {
            assert(base_view.take(j + 1).drop_last() =~= seen);
            assert(base_view.take(j + 1).last() == base_view[j as int]);
        }
        if find_named(own, &base[j].name).is_none() {
            merged.push(base[j].deep_copy());
            assert(merged.deep_view() =~= before.push(base_view[j as int]));
            assert(before.push(base_view[j as int]) =~= overlaid + inherited_fields(
                own_view,
                seen,
            ).push(base_view[j as int]));
        }
        j += 1;
    }
    assert(base_view.take(base.len() as int) =~= base_view);
    merged
}

/// Merges a deriving register with the register it derives from.
pub fn merge_register(own: &RawRegister, base: &RawRegister) -> (merged: RawRegister)
    ensures
        merged.deep_view() == merged_register(own.deep_view(), base.deep_view()),
{
    RawRegister {
        name: own.name.clone(),
        derived_from: pick_text(&own.derived_from, &base.derived_from),
        display_name: pick_text(&own.display_name, &base.display_name),
        description: pick_text(&own.description, &base.description),
        address_offset: own.address_offset,
        size: pick_value(own.size, base.size),
        access: pick_value(own.access, base.access),
        reset_value: pick_value(own.reset_value, base.reset_value),
        reset_mask: pick_value(own.reset_mask, base.reset_mask),
        alternate_group: pick_text(&own.alternate_group, &base.alternate_group),
        alternate_register: pick_text(&own.alternate_register, &base.alternate_register),
        fields: merge_fields(&own.fields, &base.fields),
    }
}

/// Merges the registers of a deriving peripheral with those of the
/// peripheral it derives from.
pub fn merge_registers(own: &Vec<RawRegister>, base: &Vec<RawRegister>) -> (merged: Vec<
    RawRegister,
>)
    ensures
        merged.deep_view() == merged_registers(own.deep_view(), base.deep_view()),
{
    let ghost own_view = own.deep_view();
    let ghost base_view = base.deep_view();
    proof {
        lemma_register_names(own);
        lemma_register_names(base);
    }
    let mut merged: Vec<RawRegister> = Vec::new();
    let mut i: usize = 0;
    while i < own.len()
        invariant
            i <= own.len(),
            merged.len() == i,
            own_view == own.deep_view(),
            base_view == base.deep_view(),
            names_of(base@) == register_list_names(base_view),
            forall|k: int| 0 <= k < i ==> merged[k].deep_view() == overlaid_register(
                own_view,
                base_view,
                k,
            ),
        decreases own.len() - i,
    {
        let entry = match find_named(base, &own[i].name) {
            Some(j) => merge_register(&own[i], &base[j]),
            None => own[i].deep_copy(),
        };
        merged.push(entry);
        i += 1;
    }
    let ghost overlaid = Seq::new(
        own_view.len(),
        |k: int| overlaid_register(own_view, base_view, k),
    );
    assert(merged.deep_view() =~= overlaid);
    let mut j: usize = 0;
    assert(base_view.take(0) =~= Seq::empty());
    assert(overlaid + inherited_registers(own_view, base_view.take(0)) =~= overlaid);
    while j < base.len()
        invariant
            j <= base.len(),
            own_view == own.deep_view(),
            base_view == base.deep_view(),
            names_of(own@) == register_list_names(own_view),
            merged.deep_view() == overlaid + inherited_registers(
                own_view,
                base_view.take(j as int),
            ),
        decreases base.len() - j,
    {
        let ghost before = merged.deep_view();
        let ghost seen = base_view.take(j as int);
        proof {
            assert(base_view.take(j + 1).drop_last() =~= seen);
            assert(base_view.take(j + 1).last() == base_view[j as int]);
        }
        if find_named(own, &base[j].name).is_none() {
            merged.push(base[j].deep_copy());
            assert(merged.deep_view() =~= before.push(base_view[j as int]));
            assert(before.push(base_view[j as int]) =~= overlaid + inherited_registers(
                own_view,
                seen,
            ).push(base_view[j as int]));
        }
        j += 1;
    }
    assert(base_view.take(base.len() as int) =~= base_view);
    merged
}

/// Merges a deriving peripheral with the peripheral it derives from.
pub fn merge_peripheral(own: &RawPeripheral, base: &RawPeripheral) -> (merged: RawPeripheral)
    ensures
        merged.deep_view() == merged_peripheral(own.deep_view(), base.deep_view()),
{
    RawPeripheral {
        name: own.name.clone(),
        derived_from: pick_text(&own.derived_from, &base.derived_from),
        display_name: pick_text(&own.display_name, &base.display_name),
        version: pick_text(&own.version, &base.version),
        description: pick_text(&own.description, &base.description),
        group_name: pick_text(&own.group_name, &base.group_name),
        alternate_peripheral: pick_text(&own.alternate_peripheral, &base.alternate_peripheral),
        base_address: own.base_address,
        prepend_to_name: pick_text(&own.prepend_to_name, &base.prepend_to_name),
        registers: merge_registers(&own.registers, &base.registers),
        interrupts: copy_all(&own.interrupts),
    }
}

} // verus!
