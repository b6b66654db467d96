//! The encoding of the model as a document.
//!
//! Each record of the model becomes a record of the document, with one
//! entry for each attribute under a lower-case key whose words are joined
//! by hyphens, in the order in which the model declares them. An attribute
//! that is absent has no entry, and neither has a list that is empty. An
//! enumeration is written as the name of its variant, in lower case with
//! hyphens.

use vstd::prelude::*;
use crate::document::{entries_view, flag, list, number, put, record, text, values_view, Value,
    ValueView};
use crate::model::{ModifiedWriteValues, ReadAction, SerializableAccess, SerializableCpu,
    SerializableCpuView, SerializableDevice, SerializableDeviceView, SerializableEndian,
    SerializableEnumValue, SerializableEnumValueView, SerializableEnumeratedValues,
    SerializableEnumeratedValuesView, SerializableField, SerializableFieldView,
    SerializableInterrupt, SerializableInterruptView, SerializablePeripheral,
    SerializablePeripheralView, SerializableRegister, SerializableRegisterView,
    SerializableUsage, SerializableWriteConstraint, SerializableWriteConstraintView};

verus! {

// ---------------------------------------------------------------------
// Names of variants
// ---------------------------------------------------------------------

pub open spec fn access_name(access: SerializableAccess) -> Seq<char> {
    match access {
        SerializableAccess::ReadOnly => "read-only"@,
        SerializableAccess::ReadWrite => "read-write"@,
        SerializableAccess::ReadWriteOnce => "read-write-once"@,
        SerializableAccess::WriteOnce => "write-once"@,
        SerializableAccess::WriteOnly => "write-only"@,
    }
}

pub open spec fn endian_name(endian: SerializableEndian) -> Seq<char> {
    match endian {
        SerializableEndian::Little => "little"@,
        SerializableEndian::Big => "big"@,
        SerializableEndian::Selectable => "selectable"@,
        SerializableEndian::Other => "other"@,
    }
}

pub open spec fn read_action_name(action: ReadAction) -> Seq<char> {
    match action {
        ReadAction::Clear => "clear"@,
        ReadAction::SetBits => "set"@,
        ReadAction::Modify => "modify"@,
    }
}

pub open spec fn modified_write_values_name(values: ModifiedWriteValues) -> Seq<char> {
    match values {
        ModifiedWriteValues::OneToClear => "one-to-clear"@,
        ModifiedWriteValues::OneToSet => "one-to-set"@,
        ModifiedWriteValues::OneToToggle => "one-to-toggle"@,
        ModifiedWriteValues::ZeroToClear => "zero-to-clear"@,
        ModifiedWriteValues::ZeroToSet => "zero-to-set"@,
        ModifiedWriteValues::ZeroToToggle => "zero-to-toggle"@,
        ModifiedWriteValues::Modify => "modify"@,
    }
}

pub open spec fn usage_name(usage: SerializableUsage) -> Seq<char> {
    match usage {
        SerializableUsage::Read => "read"@,
        SerializableUsage::Write => "write"@,
        SerializableUsage::ReadWrite => "read-write"@,
    }
}

/// Writes an access right as the name of its variant.
pub fn encode_access(access: SerializableAccess) -> (v: Value)
    ensures
        v.deep_view() == ValueView::Text(access_name(access)),
{
    match access {
        SerializableAccess::ReadOnly => text("read-only"),
        SerializableAccess::ReadWrite => text("read-write"),
        SerializableAccess::ReadWriteOnce => text("read-write-once"),
        SerializableAccess::WriteOnce => text("write-once"),
        SerializableAccess::WriteOnly => text("write-only"),
    }
}

/// Writes a byte order as the name of its variant.
pub fn encode_endian(endian: SerializableEndian) -> (v: Value)
    ensures
        v.deep_view() == ValueView::Text(endian_name(endian)),
{
    match endian {
        SerializableEndian::Little => text("little"),
        SerializableEndian::Big => text("big"),
        SerializableEndian::Selectable => text("selectable"),
        SerializableEndian::Other => text("other"),
    }
}

/// Writes a read action as the name of its variant.
pub fn encode_read_action(action: ReadAction) -> (v: Value)
    ensures
        v.deep_view() == ValueView::Text(read_action_name(action)),
{
    match action {
        ReadAction::Clear => text("clear"),
        ReadAction::SetBits => text("set"),
        ReadAction::Modify => text("modify"),
    }
}

/// Writes a write effect as the name of its variant.
pub fn encode_modified_write_values(values: ModifiedWriteValues) -> (v: Value)
    ensures
        v.deep_view() == ValueView::Text(modified_write_values_name(values)),
{
    match values {
        ModifiedWriteValues::OneToClear => text("one-to-clear"),
        ModifiedWriteValues::OneToSet => text("one-to-set"),
        ModifiedWriteValues::OneToToggle => text("one-to-toggle"),
        ModifiedWriteValues::ZeroToClear => text("zero-to-clear"),
        ModifiedWriteValues::ZeroToSet => text("zero-to-set"),
        ModifiedWriteValues::ZeroToToggle => text("zero-to-toggle"),
        ModifiedWriteValues::Modify => text("modify"),
    }
}

/// Writes a usage as the name of its variant.
pub fn encode_usage(usage: SerializableUsage) -> (v: Value)
    ensures
        v.deep_view() == ValueView::Text(usage_name(usage)),
{
    match usage {
        SerializableUsage::Read => text("read"),
        SerializableUsage::Write => text("write"),
        SerializableUsage::ReadWrite => text("read-write"),
    }
}

// ---------------------------------------------------------------------
// Entries
// ---------------------------------------------------------------------

/// The entry of an attribute that is always there.
pub open spec fn required(key: Seq<char>, value: ValueView) -> Seq<(Seq<char>, ValueView)> {
    seq![(key, value)]
}

/// The entry of an attribute that may be absent: none where it is.
pub open spec fn optional(key: Seq<char>, value: Option<ValueView>) -> Seq<
    (Seq<char>, ValueView),
> {
    match value {
        Some(v) => seq![(key, v)],
        None => Seq::empty(),
    }
}

/// The entry of an optional text.
pub open spec fn optional_text(key: Seq<char>, value: Option<Seq<char>>) -> Seq<
    (Seq<char>, ValueView),
> {
    match value {
        Some(t) => seq![(key, ValueView::Text(t))],
        None => Seq::empty(),
    }
}

/// The entry of an optional number.
pub open spec fn optional_number(key: Seq<char>, value: Option<u64>) -> Seq<
    (Seq<char>, ValueView),
> {
    match value {
        Some(n) => seq![(key, ValueView::Number(n))],
        None => Seq::empty(),
    }
}

/// The entry of an optional flag.
pub open spec fn optional_flag(key: Seq<char>, value: Option<bool>) -> Seq<
    (Seq<char>, ValueView),
> {
    match value {
        Some(b) => seq![(key, ValueView::Flag(b))],
        None => Seq::empty(),
    }
}

/// The entry of a list: none where the list is empty.
pub open spec fn listed(key: Seq<char>, items: Seq<ValueView>) -> Seq<(Seq<char>, ValueView)> {
    if items.len() > 0 {
        seq![(key, ValueView::List(items))]
    } else {
        Seq::empty()
    }
}

/// Starts a record with an attribute that is always there.
pub fn start(key: &str, value: Value) -> (entries: Vec<(String, Value)>)
    ensures
        entries_view(entries@) == required(key@, value.deep_view()),
{
    let mut entries: Vec<(String, Value)> = Vec::new();
    put(&mut entries, key, value);
    assert(entries_view(entries@) =~= required(key@, value.deep_view()));
    entries
}

/// Adds an attribute that is always there.
pub fn put_required(entries: &mut Vec<(String, Value)>, key: &str, value: Value)
    ensures
        entries_view(final(entries)@) == entries_view(old(entries)@) + required(
            key@,
            value.deep_view(),
        ),
{
    let ghost before = entries_view(entries@);
    put(entries, key, value);
    assert(before.push((key@, value.deep_view())) =~= before + required(key@, value.deep_view()));
}

/// Adds an attribute where it is present.
pub fn put_optional(entries: &mut Vec<(String, Value)>, key: &str, value: Option<Value>)
    ensures
        entries_view(final(entries)@) == entries_view(old(entries)@) + optional(
            key@,
            value.deep_view(),
        ),
{
    let ghost before = entries_view(entries@);
    match value {
        Some(v) => {
            put(entries, key, v);
            assert(before.push((key@, v.deep_view())) =~= before + optional(
                key@,
                value.deep_view(),
            ));
        },
        None => {
            assert(before =~= before + optional(key@, value.deep_view()));
        },
    }
}

/// Adds a text where it is present.
pub fn put_text(entries: &mut Vec<(String, Value)>, key: &str, value: &Option<String>)
    ensures
        entries_view(final(entries)@) == entries_view(old(entries)@) + optional_text(
            key@,
            value.deep_view(),
        ),
{
    let ghost before = entries_view(entries@);
    match value {
        Some(t) => {
            put(entries, key, text(t.as_str()));
            assert(before.push((key@, ValueView::Text(t@))) =~= before + optional_text(
                key@,
                value.deep_view(),
            ));
        },
        None => {
            assert(before =~= before + optional_text(key@, value.deep_view()));
        },
    }
}

/// Adds a number where it is present.
pub fn put_number(entries: &mut Vec<(String, Value)>, key: &str, value: Option<u64>)
    ensures
        entries_view(final(entries)@) == entries_view(old(entries)@) + optional_number(
            key@,
            value,
        ),
{
    let ghost before = entries_view(entries@);
    match value {
        Some(n) => {
            put(entries, key, number(n));
            assert(before.push((key@, ValueView::Number(n))) =~= before + optional_number(
                key@,
                value,
            ));
        },
        None => {
            assert(before =~= before + optional_number(key@, value));
        },
    }
}

/// Adds a flag where it is present.
pub fn put_flag(entries: &mut Vec<(String, Value)>, key: &str, value: Option<bool>)
    ensures
        entries_view(final(entries)@) == entries_view(old(entries)@) + optional_flag(key@, value),
{
    let ghost before = entries_view(entries@);
    match value {
        Some(b) => {
            put(entries, key, flag(b));
            assert(before.push((key@, ValueView::Flag(b))) =~= before + optional_flag(
                key@,
                value,
            ));
        },
        None => {
            assert(before =~= before + optional_flag(key@, value));
        },
    }
}

/// Adds a list where it is not empty.
pub fn put_list(entries: &mut Vec<(String, Value)>, key: &str, items: Vec<Value>)
    ensures
        entries_view(final(entries)@) == entries_view(old(entries)@) + listed(
            key@,
            values_view(items@),
        ),
{
    let ghost before = entries_view(entries@);
    let ghost views = values_view(items@);
    if items.len() > 0 {
        put(entries, key, list(items));
        assert(before.push((key@, ValueView::List(views))) =~= before + listed(key@, views));
    } else {
        assert(before =~= before + listed(key@, views));
    }
}

/// The width of a number does not matter to the document.
pub open spec fn widened(value: Option<u32>) -> Option<u64> {
    match value {
        Some(n) => Some(n as u64),
        None => None,
    }
}

/// Widens an optional number.
pub fn widen(value: Option<u32>) -> (wide: Option<u64>)
    ensures
        wide == widened(value),
{
    match value {
        Some(n) => Some(n as u64),
        None => None,
    }
}

// ---------------------------------------------------------------------
// What the document holds for a model
// ---------------------------------------------------------------------

pub open spec fn encoded_enum_value(value: SerializableEnumValueView) -> ValueView {
    ValueView::Record(
        required("name"@, ValueView::Text(value.name)) + optional_text(
            "description"@,
            value.description,
        ) + required("value"@, ValueView::Number(value.value)),
    )
}

pub open spec fn encoded_usage(usage: Option<SerializableUsage>) -> Option<ValueView> {
    match usage {
        Some(u) => Some(ValueView::Text(usage_name(u))),
        None => None,
    }
}

pub open spec fn encoded_enumerated_values(set: SerializableEnumeratedValuesView) -> ValueView {
    ValueView::Record(
        optional_text("name"@, set.name) + optional("usage"@, encoded_usage(set.usage)) + listed(
            "values"@,
            Seq::new(set.values.len(), |i: int| encoded_enum_value(set.values[i])),
        ),
    )
}

pub open spec fn encoded_numbers(numbers: Option<Seq<u64>>) -> Seq<ValueView> {
    match numbers {
        Some(list) => Seq::new(list.len(), |i: int| ValueView::Number(list[i])),
        None => Seq::empty(),
    }
}

pub open spec fn encoded_write_constraint(constraint: SerializableWriteConstraintView)
    -> ValueView {
    ValueView::Record(
        optional_number("minimum"@, constraint.minimum) + optional_number(
            "maximum"@,
            constraint.maximum,
        ) + listed("enumerated"@, encoded_numbers(constraint.enumerated)),
    )
}

pub open spec fn encoded_access(access: Option<SerializableAccess>) -> Option<ValueView> {
    match access {
        Some(a) => Some(ValueView::Text(access_name(a))),
        None => None,
    }
}

pub open spec fn encoded_modified_write_values(values: Option<ModifiedWriteValues>) -> Option<
    ValueView,
> {
    match values {
        Some(m) => Some(ValueView::Text(modified_write_values_name(m))),
        None => None,
    }
}

pub open spec fn encoded_read_action(action: Option<ReadAction>) -> Option<ValueView> {
    match action {
        Some(a) => Some(ValueView::Text(read_action_name(a))),
        None => None,
    }
}

pub open spec fn encoded_optional_constraint(constraint: Option<SerializableWriteConstraintView>)
    -> Option<ValueView> {
    match constraint {
        Some(c) => Some(encoded_write_constraint(c)),
        None => None,
    }
}

pub open spec fn encoded_field(field: SerializableFieldView) -> ValueView {
    ValueView::Record(
        required("name"@, ValueView::Text(field.name)) + optional_text(
            "description"@,
            field.description,
        ) + required("bit-offset"@, ValueView::Number(field.bit_offset as u64)) + required(
            "bit-width"@,
            ValueView::Number(field.bit_width as u64),
        ) + optional("access"@, encoded_access(field.access)) + optional(
            "modified-write-values"@,
            encoded_modified_write_values(field.modified_write_values),
        ) + optional("write-constraint"@, encoded_optional_constraint(field.write_constraint))
            + optional("read-action"@, encoded_read_action(field.read_action)) + listed(
            "enumerated-values"@,
            Seq::new(
                field.enumerated_values.len(),
                |i: int| encoded_enumerated_values(field.enumerated_values[i]),
            ),
        ),
    )
}

pub open spec fn encoded_register(register: SerializableRegisterView) -> ValueView {
    ValueView::Record(
        required("name"@, ValueView::Text(register.name)) + optional_text(
            "display-name"@,
            register.display_name,
        ) + optional_text("description"@, register.description) + required(
            "address-offset"@,
            ValueView::Number(register.address_offset as u64),
        ) + optional_number("size"@, widened(register.size)) + optional(
            "access"@,
            encoded_access(register.access),
        ) + optional_number("reset-value"@, register.reset_value) + optional_number(
            "reset-mask"@,
            register.reset_mask,
        ) + optional_text("alternate-group"@, register.alternate_group) + optional_text(
            "alternate-register"@,
            register.alternate_register,
        ) + listed(
            "fields"@,
            Seq::new(register.fields.len(), |i: int| encoded_field(register.fields[i])),
        ),
    )
}

pub open spec fn encoded_peripheral(peripheral: SerializablePeripheralView) -> ValueView {
    ValueView::Record(
        required("name"@, ValueView::Text(peripheral.name)) + optional_text(
            "display-name"@,
            peripheral.display_name,
        ) + optional_text("version"@, peripheral.version) + optional_text(
            "description"@,
            peripheral.description,
        ) + optional_text("group-name"@, peripheral.group_name) + optional_text(
            "alternate-peripheral"@,
            peripheral.alternate_peripheral,
        ) + required("base-address"@, ValueView::Number(peripheral.base_address)) + listed(
            "registers"@,
            Seq::new(
                peripheral.registers.len(),
                |i: int| encoded_register(peripheral.registers[i]),
            ),
        ) + optional_text("prepend-to-name"@, peripheral.prepend_to_name),
    )
}

pub open spec fn encoded_interrupt(interrupt: SerializableInterruptView) -> ValueView {
    ValueView::Record(
        required("name"@, ValueView::Text(interrupt.name)) + optional_text(
            "description"@,
            interrupt.description,
        ) + required("value"@, ValueView::Number(interrupt.value)) + optional_text(
            "peripheral"@,
            interrupt.peripheral,
        ),
    )
}

pub open spec fn encoded_endian(endian: Option<SerializableEndian>) -> Option<ValueView> {
    match endian {
        Some(e) => Some(ValueView::Text(endian_name(e))),
        None => None,
    }
}

pub open spec fn encoded_cpu(cpu: SerializableCpuView) -> ValueView {
    ValueView::Record(
        required("name"@, ValueView::Text(cpu.name)) + optional_text("revision"@, cpu.revision)
            + optional("endian"@, encoded_endian(cpu.endian)) + optional_flag(
            "mpu-present"@,
            cpu.mpu_present,
        ) + optional_flag("fpu-present"@, cpu.fpu_present) + optional_number(
            "nvic-priority-bits"@,
            widened(cpu.nvic_priority_bits),
        ) + optional_flag("vendor-systick-config"@, cpu.vendor_systick_config),
    )
}

pub open spec fn encoded_optional_cpu(cpu: Option<SerializableCpuView>) -> Option<ValueView> {
    match cpu {
        Some(c) => Some(encoded_cpu(c)),
        None => None,
    }
}

/// The entries of the document of a device.
pub open spec fn device_entries(device: SerializableDeviceView) -> Seq<(Seq<char>, ValueView)> {
    required("name"@, ValueView::Text(device.name)) + optional_text("vendor"@, device.vendor)
        + optional_text("vendor-id"@, device.vendor_id) + optional_text("series"@, device.series)
        + optional_text("version"@, device.version) + optional_text(
        "description"@,
        device.description,
    ) + optional("cpu"@, encoded_optional_cpu(device.cpu)) + listed(
        "peripherals"@,
        Seq::new(device.peripherals.len(), |i: int| encoded_peripheral(device.peripherals[i])),
    ) + listed(
        "interrupts"@,
        Seq::new(device.interrupts.len(), |i: int| encoded_interrupt(device.interrupts[i])),
    ) + optional_text("header-definitions-prefix"@, device.header_definitions_prefix)
        + optional_text("license-text"@, device.license_text) + optional_text(
        "tool-version"@,
        device.tool_version,
    ) + optional_text("generated-date"@, device.generated_date)
}

/// The document of a device.
pub open spec fn encoded_device(device: SerializableDeviceView) -> ValueView {
    ValueView::Record(device_entries(device))
}

// ---------------------------------------------------------------------
// Encoding
// ---------------------------------------------------------------------

/// A record of the model that has a document.
pub trait Encode: DeepView + Sized {
    /// The document of a record, given by its view.
    spec fn encoded(view: Self::V) -> ValueView;

    /// Writes the record as a document.
    fn encode(&self) -> (v: Value)
        ensures
            v.deep_view() == Self::encoded(self.deep_view()),
    ;
}

/// Writes each record of a list as a document, in order.
pub fn encode_all<T: Encode>(records: &Vec<T>) -> (items: Vec<Value>)
    ensures
        values_view(items@) == Seq::new(
            records.len() as nat,
            |i: int| T::encoded(records.deep_view()[i]),
        ),
{
    let mut items: Vec<Value> = Vec::new();
    let mut i: usize = 0;
    while i < records.len()
        invariant
            i <= records.len(),
            items.len() == i,
            forall|j: int|
                0 <= j < i ==> items[j].deep_view() == T::encoded(records[j].deep_view()),
        decreases records.len() - i,
    {
        items.push(records[i].encode());
        i += 1;
    }
    assert(values_view(items@) =~= Seq::new(
        records.len() as nat,
        |i: int| T::encoded(records.deep_view()[i]),
    ));
    items
}

/// Writes a list of numbers.
pub fn encode_numbers(numbers: &Option<Vec<u64>>) -> (items: Vec<Value>)
    ensures
        values_view(items@) == encoded_numbers(
            match numbers {
                Some(list) => Some(list@),
                None => None,
            },
        ),
{
    let mut items: Vec<Value> = Vec::new();
    match numbers {
        Some(list) => {
            let mut i: usize = 0;
            while i < list.len()
                invariant
                    i <= list.len(),
                    items.len() == i,
                    forall|j: int| 0 <= j < i ==> items[j].deep_view() == ValueView::Number(
                        list[j]
                    ),
                decreases list.len() - i,
            {
                items.push(number(list[i]));
                i += 1;
            }
            assert(values_view(items@) =~= encoded_numbers(Some(list@)));
        },
        None => {
            assert(values_view(items@) =~= encoded_numbers(None));
        },
    }
    items
}

impl Encode for SerializableEnumValue {
    open spec fn encoded(view: SerializableEnumValueView) -> ValueView {
        encoded_enum_value(view)
    }

    fn encode(&self) -> (v: Value) {
        let mut entries = start("name", text(self.name.as_str()));
        put_text(&mut entries, "description", &self.description);
        put_required(&mut entries, "value", number(self.value));
        record(entries)
    }
}

impl Encode for SerializableEnumeratedValues {
    open spec fn encoded(view: SerializableEnumeratedValuesView) -> ValueView {
        encoded_enumerated_values(view)
    }

    fn encode(&self) -> (v: Value) {
        let mut entries: Vec<(String, Value)> = Vec::new();
        assert(entries_view(entries@) =~= Seq::empty());
        put_text(&mut entries, "name", &self.name);
        assert(entries_view(entries@) =~= optional_text("name"@, self.name.deep_view()));
        let usage = match self.usage {
            Some(u) => Some(encode_usage(u)),
            None => None,
        };
        put_optional(&mut entries, "usage", usage);
        let values = encode_all(&self.values);
        assert(values_view(values@) =~= Seq::new(
            self.deep_view().values.len(),
            |i: int| encoded_enum_value(self.deep_view().values[i]),
        ));
        put_list(&mut entries, "values", values);
        record(entries)
    }
}

impl Encode for SerializableWriteConstraint {
    open spec fn encoded(view: SerializableWriteConstraintView) -> ValueView {
        encoded_write_constraint(view)
    }

    fn encode(&self) -> (v: Value) {
        let mut entries: Vec<(String, Value)> = Vec::new();
        assert(entries_view(entries@) =~= Seq::empty());
        put_number(&mut entries, "minimum", self.minimum);
        assert(entries_view(entries@) =~= optional_number("minimum"@, self.minimum));
        put_number(&mut entries, "maximum", self.maximum);
        put_list(&mut entries, "enumerated", encode_numbers(&self.enumerated));
        record(entries)
    }
}

impl Encode for SerializableField {
    open spec fn encoded(view: SerializableFieldView) -> ValueView {
        encoded_field(view)
    }

    fn encode(&self) -> (v: Value) {
        let mut entries = start("name", text(self.name.as_str()));
        put_text(&mut entries, "description", &self.description);
        put_required(&mut entries, "bit-offset", number(self.bit_offset as u64));
        put_required(&mut entries, "bit-width", number(self.bit_width as u64));
        let access = match self.access {
            Some(a) => Some(encode_access(a)),
            None => None,
        };
        put_optional(&mut entries, "access", access);
        let modified = match self.modified_write_values {
            Some(m) => Some(encode_modified_write_values(m)),
            None => None,
        };
        put_optional(&mut entries, "modified-write-values", modified);
        let constraint = match &self.write_constraint {
            Some(c) => Some(c.encode()),
            None => None,
        };
        put_optional(&mut entries, "write-constraint", constraint);
        let action = match self.read_action {
            Some(a) => Some(encode_read_action(a)),
            None => None,
        };
        put_optional(&mut entries, "read-action", action);
        let sets = encode_all(&self.enumerated_values);
        assert(values_view(sets@) =~= Seq::new(
            self.deep_view().enumerated_values.len(),
            |i: int| encoded_enumerated_values(self.deep_view().enumerated_values[i]),
        ));
        put_list(&mut entries, "enumerated-values", sets);
        record(entries)
    }
}

impl Encode for SerializableRegister {
    open spec fn encoded(view: SerializableRegisterView) -> ValueView {
        encoded_register(view)
    }

    fn encode(&self) -> (v: Value) {
        let mut entries = start("name", text(self.name.as_str()));
        put_text(&mut entries, "display-name", &self.display_name);
        put_text(&mut entries, "description", &self.description);
        put_required(&mut entries, "address-offset", number(self.address_offset as u64));
        put_number(&mut entries, "size", widen(self.size));
        let access = match self.access {
            Some(a) => Some(encode_access(a)),
            None => None,
        };
        put_optional(&mut entries, "access", access);
        put_number(&mut entries, "reset-value", self.reset_value);
        put_number(&mut entries, "reset-mask", self.reset_mask);
        put_text(&mut entries, "alternate-group", &self.alternate_group);
        put_text(&mut entries, "alternate-register", &self.alternate_register);
        let fields = encode_all(&self.fields);
        assert(values_view(fields@) =~= Seq::new(
            self.deep_view().fields.len(),
            |i: int| encoded_field(self.deep_view().fields[i]),
        ));
        put_list(&mut entries, "fields", fields);
        record(entries)
    }
}

impl Encode for SerializablePeripheral {
    open spec fn encoded(view: SerializablePeripheralView) -> ValueView {
        encoded_peripheral(view)
    }

    fn encode(&self) -> (v: Value) {
        let mut entries = start("name", text(self.name.as_str()));
        put_text(&mut entries, "display-name", &self.display_name);
        put_text(&mut entries, "version", &self.version);
        put_text(&mut entries, "description", &self.description);
        put_text(&mut entries, "group-name", &self.group_name);
        put_text(&mut entries, "alternate-peripheral", &self.alternate_peripheral);
        put_required(&mut entries, "base-address", number(self.base_address));
        let registers = encode_all(&self.registers);
        assert(values_view(registers@) =~= Seq::new(
            self.deep_view().registers.len(),
            |i: int| encoded_register(self.deep_view().registers[i]),
        ));
        put_list(&mut entries, "registers", registers);
        put_text(&mut entries, "prepend-to-name", &self.prepend_to_name);
        record(entries)
    }
}

impl Encode for SerializableInterrupt {
    open spec fn encoded(view: SerializableInterruptView) -> ValueView {
        encoded_interrupt(view)
    }

    fn encode(&self) -> (v: Value) {
        let mut entries = start("name", text(self.name.as_str()));
        put_text(&mut entries, "description", &self.description);
        put_required(&mut entries, "value", number(self.value));
        put_text(&mut entries, "peripheral", &self.peripheral);
        record(entries)
    }
}

impl Encode for SerializableCpu {
    open spec fn encoded(view: SerializableCpuView) -> ValueView {
        encoded_cpu(view)
    }

    fn encode(&self) -> (v: Value) {
        let mut entries = start("name", text(self.name.as_str()));
        put_text(&mut entries, "revision", &self.revision);
        let endian = match self.endian {
            Some(e) => Some(encode_endian(e)),
            None => None,
        };
        put_optional(&mut entries, "endian", endian);
        put_flag(&mut entries, "mpu-present", self.mpu_present);
        put_flag(&mut entries, "fpu-present", self.fpu_present);
        put_number(&mut entries, "nvic-priority-bits", widen(self.nvic_priority_bits));
        put_flag(&mut entries, "vendor-systick-config", self.vendor_systick_config);
        record(entries)
    }
}

impl Encode for SerializableDevice {
    open spec fn encoded(view: SerializableDeviceView) -> ValueView {
        encoded_device(view)
    }

    fn encode(&self) -> (v: Value) {
        let mut entries = start("name", text(self.name.as_str()));
        put_text(&mut entries, "vendor", &self.vendor);
        put_text(&mut entries, "vendor-id", &self.vendor_id);
        put_text(&mut entries, "series", &self.series);
        put_text(&mut entries, "version", &self.version);
        put_text(&mut entries, "description", &self.description);
        let cpu = match &self.cpu {
            Some(c) => Some(c.encode()),
            None => None,
        };
        put_optional(&mut entries, "cpu", cpu);
        let peripherals = encode_all(&self.peripherals);
        assert(values_view(peripherals@) =~= Seq::new(
            self.deep_view().peripherals.len(),
            |i: int| encoded_peripheral(self.deep_view().peripherals[i]),
        ));
        put_list(&mut entries, "peripherals", peripherals);
        let interrupts = encode_all(&self.interrupts);
        assert(values_view(interrupts@) =~= Seq::new(
            self.deep_view().interrupts.len(),
            |i: int| encoded_interrupt(self.deep_view().interrupts[i]),
        ));
        put_list(&mut entries, "interrupts", interrupts);
        put_text(&mut entries, "header-definitions-prefix", &self.header_definitions_prefix);
        put_text(&mut entries, "license-text", &self.license_text);
        put_text(&mut entries, "tool-version", &self.tool_version);
        put_text(&mut entries, "generated-date", &self.generated_date);
        record(entries)
    }
}

/// Writes the model of a device as a document.
pub fn encode_device(device: &SerializableDevice) -> (document: Value)
    ensures
        document.deep_view() == encoded_device(device.deep_view()),
{
    device.encode()
}

} // verus!
