use svd_resolve::builder::{build_access, build_cpu, build_device, build_endian, build_field,
    build_interrupts, build_modified_write_values, build_read_action, build_usage,
    is_fully_resolved, is_peripheral_settled, is_register_settled};
use svd_resolve::convert::convert;
use svd_resolve::copy::{copy_all, copy_numbers, copy_optional, copy_text, DeepCopy};
use svd_resolve::document::{flag, list, number, put, record, text, Value};
use svd_resolve::encode::{encode_access, encode_device, encode_endian,
    encode_modified_write_values, encode_read_action, encode_usage, widen, Encode};
use svd_resolve::error::join_path;
use svd_resolve::lookup::{find_field, find_named, find_peripheral, find_register,
    resolve_field_reference, resolve_peripheral_reference, resolve_register_reference,
    split_reference};
use svd_resolve::merge::{merge_field, merge_fields, merge_peripheral, merge_register,
    merge_registers, pick_record, pick_text, pick_value};
use svd_resolve::model::{ModifiedWriteValues, ReadAction, SerializableAccess,
    SerializableEndian, SerializableUsage};
use svd_resolve::raw::{RawAccess, RawCpu, RawDevice, RawEndian, RawEnumValue,
    RawEnumeratedValues, RawField, RawInterrupt, RawModifiedWriteValues, RawPeripheral,
    RawReadAction, RawRegister, RawUsage, RawWriteConstraint};

fn bare_field(name: &str, bit_offset: u32, bit_width: u32) -> RawField {
    RawField {
        name: name.to_string(),
        derived_from: None,
        description: None,
        bit_offset,
        bit_width,
        access: None,
        modified_write_values: None,
        write_constraint: None,
        read_action: None,
        enumerated_values: Vec::new(),
    }
}

fn bare_register(name: &str, address_offset: u32, fields: Vec<RawField>) -> RawRegister {
    RawRegister {
        name: name.to_string(),
        derived_from: None,
        display_name: None,
        description: None,
        address_offset,
        size: None,
        access: None,
        reset_value: None,
        reset_mask: None,
        alternate_group: None,
        alternate_register: None,
        fields,
    }
}

fn bare_peripheral(name: &str, base_address: u64, registers: Vec<RawRegister>) -> RawPeripheral {
    RawPeripheral {
        name: name.to_string(),
        derived_from: None,
        display_name: None,
        version: None,
        description: None,
        group_name: None,
        alternate_peripheral: None,
        base_address,
        prepend_to_name: None,
        registers,
        interrupts: Vec::new(),
    }
}

fn bare_device(peripherals: Vec<RawPeripheral>) -> RawDevice {
    RawDevice {
        name: "MCU".to_string(),
        vendor: None,
        vendor_id: None,
        series: None,
        version: None,
        description: None,
        cpu: None,
        peripherals,
        interrupts: Vec::new(),
        header_definitions_prefix: None,
        license_text: None,
        tool_version: None,
        generated_date: None,
    }
}

fn two_peripherals() -> RawDevice {
    let a = bare_peripheral(
        "A",
        0x1000,
        vec![
            bare_register("R0", 0, vec![bare_field("F0", 0, 1), bare_field("F1", 1, 1)]),
            bare_register("R1", 4, vec![bare_field("G0", 0, 8)]),
        ],
    );
    let b = bare_peripheral("B", 0x2000, vec![bare_register("S0", 0, vec![bare_field("H0", 2, 2)])]);
    bare_device(vec![a, b])
}

fn keys(document: &Value) -> Vec<String> {
    match document {
        Value::Record(entries) => entries.iter().map(|entry| entry.0.clone()).collect(),
        _ => panic!("not a record"),
    }
}

fn owned(parts: &[&str]) -> Vec<String> {
    parts.iter().map(|part| part.to_string()).collect()
}

#[test]
fn path_without_dot_has_one_part() {
    assert_eq!(split_reference("UART0"), owned(&["UART0"]));
}

#[test]
fn path_is_split_at_every_dot() {
    assert_eq!(split_reference("PeriphB.RegZ.FieldW"), owned(&["PeriphB", "RegZ", "FieldW"]));
    assert_eq!(split_reference("A.B"), owned(&["A", "B"]));
}

#[test]
fn empty_parts_of_a_path_are_kept() {
    assert_eq!(split_reference(""), owned(&[""]));
    assert_eq!(split_reference("."), owned(&["", ""]));
    assert_eq!(split_reference("A..B"), owned(&["A", "", "B"]));
    assert_eq!(split_reference(".A"), owned(&["", "A"]));
    assert_eq!(split_reference("A."), owned(&["A", ""]));
}

#[test]
fn path_with_characters_of_several_bytes_is_split_by_characters() {
    assert_eq!(split_reference("Zähler.Größe"), owned(&["Zähler", "Größe"]));
}

#[test]
fn named_entity_is_found_at_its_first_place() {
    let list = vec![bare_field("A", 0, 1), bare_field("B", 1, 1), bare_field("A", 2, 1)];
    assert_eq!(find_named(&list, &"A".to_string()), Some(0));
    assert_eq!(find_named(&list, &"B".to_string()), Some(1));
    assert_eq!(find_named(&list, &"C".to_string()), None);
    assert_eq!(find_named(&list, &"a".to_string()), None);
}

#[test]
fn entities_are_found_in_their_scope() {
    let device = two_peripherals();
    assert_eq!(find_peripheral(&device, &"B".to_string()), Some(1));
    assert_eq!(find_peripheral(&device, &"R0".to_string()), None);
    assert_eq!(find_register(&device, 0, &"R1".to_string()), Some((0, 1)));
    assert_eq!(find_register(&device, 1, &"R1".to_string()), None);
    assert_eq!(find_field(&device, 0, 0, &"F1".to_string()), Some((0, 0, 1)));
    assert_eq!(find_field(&device, 0, 1, &"F1".to_string()), None);
}

#[test]
fn references_are_resolved_from_the_scope_of_their_holder() {
    let device = two_peripherals();
    assert_eq!(resolve_peripheral_reference(&device, &"A".to_string()), Some(0));
    assert_eq!(resolve_peripheral_reference(&device, &"A.R0".to_string()), None);
    assert_eq!(resolve_register_reference(&device, 0, &"R1".to_string()), Some((0, 1)));
    assert_eq!(resolve_register_reference(&device, 1, &"R1".to_string()), None);
    assert_eq!(resolve_register_reference(&device, 1, &"A.R1".to_string()), Some((0, 1)));
    assert_eq!(resolve_register_reference(&device, 1, &"C.R1".to_string()), None);
    assert_eq!(resolve_register_reference(&device, 1, &"A.R1.G0".to_string()), None);
    assert_eq!(resolve_field_reference(&device, 0, 0, &"F1".to_string()), Some((0, 0, 1)));
    assert_eq!(resolve_field_reference(&device, 0, 0, &"G0".to_string()), None);
    assert_eq!(resolve_field_reference(&device, 0, 0, &"R1.G0".to_string()), Some((0, 1, 0)));
    assert_eq!(resolve_field_reference(&device, 0, 0, &"S0.H0".to_string()), None);
    assert_eq!(resolve_field_reference(&device, 0, 0, &"B.S0.H0".to_string()), Some((1, 0, 0)));
    assert_eq!(resolve_field_reference(&device, 0, 0, &"B.S0.H1".to_string()), None);
    assert_eq!(resolve_field_reference(&device, 0, 0, &"X.B.S0.H0".to_string()), None);
}

#[test]
fn qualified_path_joins_scope_and_name_with_a_dot() {
    assert_eq!(join_path(&"UART0".to_string(), &"CTRL".to_string()), "UART0.CTRL");
    assert_eq!(join_path(&"A.B".to_string(), &"C".to_string()), "A.B.C");
    assert_eq!(join_path(&"".to_string(), &"".to_string()), ".");
}

#[test]
fn picking_prefers_the_own_value() {
    assert_eq!(pick_value(Some(1u32), Some(2u32)), Some(1));
    assert_eq!(pick_value(None, Some(2u32)), Some(2));
    assert_eq!(pick_value::<u32>(None, None), None);
    assert_eq!(pick_value(Some(1u32), None), Some(1));
    assert_eq!(pick_text(&Some("own".to_string()), &Some("base".to_string())), Some("own".to_string()));
    assert_eq!(pick_text(&None, &Some("base".to_string())), Some("base".to_string()));
    assert_eq!(pick_text(&None, &None), None);
    let own = RawWriteConstraint { minimum: Some(1), maximum: None, enumerated: None };
    let base = RawWriteConstraint { minimum: None, maximum: Some(9), enumerated: Some(vec![3]) };
    assert_eq!(pick_record(&Some(own.clone()), &Some(base.clone())), Some(own));
    assert_eq!(pick_record(&None, &Some(base.clone())), Some(base));
}

#[test]
fn merged_field_takes_what_is_left_out_from_the_base() {
    let mut own = bare_field("OWN", 4, 2);
    own.derived_from = Some("BASE".to_string());
    own.read_action = Some(RawReadAction::Clear);
    let mut base = bare_field("BASE", 0, 1);
    base.description = Some("base".to_string());
    base.access = Some(RawAccess::ReadWriteOnce);
    base.modified_write_values = Some(RawModifiedWriteValues::OneToClear);
    base.read_action = Some(RawReadAction::SetBits);
    base.enumerated_values.push(RawEnumeratedValues {
        name: None,
        usage: Some(RawUsage::Read),
        values: vec![RawEnumValue { name: "ON".to_string(), description: None, value: 1 }],
    });
    let merged = merge_field(&own, &base);
    assert_eq!(merged.name, "OWN");
    assert_eq!(merged.derived_from, Some("BASE".to_string()));
    assert_eq!(merged.bit_offset, 4);
    assert_eq!(merged.bit_width, 2);
    assert_eq!(merged.description, Some("base".to_string()));
    assert_eq!(merged.access, Some(RawAccess::ReadWriteOnce));
    assert_eq!(merged.modified_write_values, Some(RawModifiedWriteValues::OneToClear));
    assert_eq!(merged.read_action, Some(RawReadAction::Clear));
    assert_eq!(merged.enumerated_values, base.enumerated_values);
}

#[test]
fn merged_lists_hold_own_entries_first_and_then_the_inherited_ones() {
    let own = vec![bare_field("B", 10, 1), bare_field("X", 11, 1)];
    let mut base_b = bare_field("B", 1, 1);
    base_b.description = Some("b".to_string());
    let base = vec![bare_field("A", 0, 1), base_b, bare_field("C", 2, 1)];
    let merged = merge_fields(&own, &base);
    let names: Vec<&str> = merged.iter().map(|f| f.name.as_str()).collect();
    assert_eq!(names, vec!["B", "X", "A", "C"]);
    assert_eq!(merged[0].bit_offset, 10);
    assert_eq!(merged[0].description, Some("b".to_string()));
    assert_eq!(merge_fields(&Vec::new(), &base), base);
    assert_eq!(merge_fields(&own, &Vec::new()), own);
    let own_registers = vec![bare_register("R", 0x40, Vec::new())];
    let base_registers = vec![
        bare_register("Q", 0, Vec::new()),
        bare_register("R", 4, vec![bare_field("F", 0, 1)]),
    ];
    let merged = merge_registers(&own_registers, &base_registers);
    assert_eq!(merged.len(), 2);
    assert_eq!(merged[0].name, "R");
    assert_eq!(merged[0].address_offset, 0x40);
    assert_eq!(merged[0].fields.len(), 1);
    assert_eq!(merged[1].name, "Q");
}

#[test]
fn merged_register_and_peripheral_keep_their_place_in_memory() {
    let mut own = bare_register("OWN", 0x20, Vec::new());
    own.size = Some(8);
    let mut base = bare_register("BASE", 0x10, vec![bare_field("F", 0, 1)]);
    base.size = Some(32);
    base.access = Some(RawAccess::ReadOnly);
    base.reset_value = Some(7);
    base.reset_mask = Some(0xff);
    base.display_name = Some("Base".to_string());
    base.alternate_group = Some("grp".to_string());
    base.alternate_register = Some("alt".to_string());
    let merged = merge_register(&own, &base);
    assert_eq!(merged.name, "OWN");
    assert_eq!(merged.address_offset, 0x20);
    assert_eq!(merged.size, Some(8));
    assert_eq!(merged.access, Some(RawAccess::ReadOnly));
    assert_eq!(merged.reset_value, Some(7));
    assert_eq!(merged.reset_mask, Some(0xff));
    assert_eq!(merged.display_name, Some("Base".to_string()));
    assert_eq!(merged.alternate_group, Some("grp".to_string()));
    assert_eq!(merged.alternate_register, Some("alt".to_string()));
    assert_eq!(merged.fields.len(), 1);
    let mut own_p = bare_peripheral("OWN", 0x5000, Vec::new());
    own_p.version = Some("2".to_string());
    let mut base_p = bare_peripheral("BASE", 0x4000, vec![base.clone()]);
    base_p.version = Some("1".to_string());
    base_p.display_name = Some("Base".to_string());
    base_p.alternate_peripheral = Some("alt".to_string());
    base_p.prepend_to_name = Some("pre_".to_string());
    base_p.interrupts.push(RawInterrupt { name: "IRQ".to_string(), description: None, value: 3 });
    let merged = merge_peripheral(&own_p, &base_p);
    assert_eq!(merged.name, "OWN");
    assert_eq!(merged.base_address, 0x5000);
    assert_eq!(merged.version, Some("2".to_string()));
    assert_eq!(merged.display_name, Some("Base".to_string()));
    assert_eq!(merged.alternate_peripheral, Some("alt".to_string()));
    assert_eq!(merged.prepend_to_name, Some("pre_".to_string()));
    assert_eq!(merged.registers, vec![base]);
    assert!(merged.interrupts.is_empty());
}

#[test]
fn deep_copies_equal_their_source() {
    let device = two_peripherals();
    assert_eq!(copy_all(&device.peripherals), device.peripherals);
    assert_eq!(device.peripherals[0].deep_copy(), device.peripherals[0]);
    assert_eq!(copy_text(&Some("t".to_string())), Some("t".to_string()));
    assert_eq!(copy_text(&None), None);
    assert_eq!(copy_numbers(&vec![3, 1, 2]), vec![3, 1, 2]);
    let cpu = RawCpu {
        name: "CM4".to_string(),
        revision: Some("r0p1".to_string()),
        endian: Some(RawEndian::Little),
        mpu_present: Some(true),
        fpu_present: None,
        nvic_priority_bits: Some(4),
        vendor_systick_config: Some(false),
    };
    assert_eq!(copy_optional(&Some(cpu.clone())), Some(cpu));
}

#[test]
fn enumerations_are_mapped_variant_by_variant() {
    assert_eq!(build_access(RawAccess::ReadOnly), SerializableAccess::ReadOnly);
    assert_eq!(build_access(RawAccess::ReadWrite), SerializableAccess::ReadWrite);
    assert_eq!(build_access(RawAccess::ReadWriteOnce), SerializableAccess::ReadWriteOnce);
    assert_eq!(build_access(RawAccess::WriteOnce), SerializableAccess::WriteOnce);
    assert_eq!(build_access(RawAccess::WriteOnly), SerializableAccess::WriteOnly);
    assert_eq!(build_endian(RawEndian::Little), SerializableEndian::Little);
    assert_eq!(build_endian(RawEndian::Big), SerializableEndian::Big);
    assert_eq!(build_endian(RawEndian::Selectable), SerializableEndian::Selectable);
    assert_eq!(build_endian(RawEndian::Other), SerializableEndian::Other);
    assert_eq!(build_read_action(RawReadAction::Clear), ReadAction::Clear);
    assert_eq!(build_read_action(RawReadAction::SetBits), ReadAction::SetBits);
    assert_eq!(build_read_action(RawReadAction::Modify), ReadAction::Modify);
    assert_eq!(build_usage(RawUsage::Read), SerializableUsage::Read);
    assert_eq!(build_usage(RawUsage::Write), SerializableUsage::Write);
    assert_eq!(build_usage(RawUsage::ReadWrite), SerializableUsage::ReadWrite);
    assert_eq!(
        build_modified_write_values(RawModifiedWriteValues::OneToClear),
        ModifiedWriteValues::OneToClear
    );
    assert_eq!(
        build_modified_write_values(RawModifiedWriteValues::ZeroToToggle),
        ModifiedWriteValues::ZeroToToggle
    );
    assert_eq!(
        build_modified_write_values(RawModifiedWriteValues::Modify),
        ModifiedWriteValues::Modify
    );
}

#[test]
fn built_field_carries_every_attribute_over() {
    let mut field = bare_field("MODE", 3, 2);
    field.description = Some("mode".to_string());
    field.access = Some(RawAccess::WriteOnly);
    field.modified_write_values = Some(RawModifiedWriteValues::OneToSet);
    field.read_action = Some(RawReadAction::Modify);
    field.write_constraint = Some(RawWriteConstraint {
        minimum: Some(1),
        maximum: Some(2),
        enumerated: Some(vec![1, 2]),
    });
    field.enumerated_values.push(RawEnumeratedValues {
        name: Some("modes".to_string()),
        usage: Some(RawUsage::Write),
        values: vec![RawEnumValue {
            name: "FAST".to_string(),
            description: Some("fast".to_string()),
            value: 2,
        }],
    });
    let built = build_field(&field);
    assert_eq!(built.name, "MODE");
    assert_eq!(built.description, Some("mode".to_string()));
    assert_eq!(built.bit_offset, 3);
    assert_eq!(built.bit_width, 2);
    assert_eq!(built.access, Some(SerializableAccess::WriteOnly));
    assert_eq!(built.modified_write_values, Some(ModifiedWriteValues::OneToSet));
    assert_eq!(built.read_action, Some(ReadAction::Modify));
    let constraint = built.write_constraint.unwrap();
    assert_eq!(constraint.minimum, Some(1));
    assert_eq!(constraint.maximum, Some(2));
    assert_eq!(constraint.enumerated, Some(vec![1, 2]));
    assert_eq!(built.enumerated_values.len(), 1);
    assert_eq!(built.enumerated_values[0].name, Some("modes".to_string()));
    assert_eq!(built.enumerated_values[0].usage, Some(SerializableUsage::Write));
    assert_eq!(built.enumerated_values[0].values[0].name, "FAST");
    assert_eq!(built.enumerated_values[0].values[0].description, Some("fast".to_string()));
    assert_eq!(built.enumerated_values[0].values[0].value, 2);
}

#[test]
fn absent_attributes_stay_absent_in_the_model() {
    let model = build_device(&two_peripherals()).unwrap();
    assert_eq!(model.vendor, None);
    assert_eq!(model.cpu, None);
    assert_eq!(model.peripherals[0].description, None);
    assert_eq!(model.peripherals[0].registers[0].size, None);
    assert_eq!(model.peripherals[0].registers[0].access, None);
    assert_eq!(model.peripherals[0].registers[0].reset_value, None);
    assert_eq!(model.peripherals[0].registers[0].fields[0].access, None);
    assert_eq!(model.peripherals[0].registers[0].fields[0].write_constraint, None);
    assert!(model.interrupts.is_empty());
}

#[test]
fn built_cpu_keeps_what_is_set() {
    let cpu = RawCpu {
        name: "CM4".to_string(),
        revision: Some("r0p1".to_string()),
        endian: Some(RawEndian::Selectable),
        mpu_present: Some(true),
        fpu_present: None,
        nvic_priority_bits: Some(4),
        vendor_systick_config: Some(false),
    };
    let built = build_cpu(&cpu);
    assert_eq!(built.name, "CM4");
    assert_eq!(built.revision, Some("r0p1".to_string()));
    assert_eq!(built.endian, Some(SerializableEndian::Selectable));
    assert_eq!(built.mpu_present, Some(true));
    assert_eq!(built.fpu_present, None);
    assert_eq!(built.nvic_priority_bits, Some(4));
    assert_eq!(built.vendor_systick_config, Some(false));
}

#[test]
fn interrupts_are_marked_with_the_peripheral_that_declares_them() {
    let mut device = two_peripherals();
    device.peripherals[0].interrupts.push(RawInterrupt {
        name: "A_RX".to_string(),
        description: Some("receive".to_string()),
        value: 7,
    });
    device.peripherals[0].interrupts.push(RawInterrupt {
        name: "A_TX".to_string(),
        description: None,
        value: 8,
    });
    device.peripherals[1].interrupts.push(RawInterrupt {
        name: "B_IRQ".to_string(),
        description: None,
        value: 9,
    });
    device.interrupts.push(RawInterrupt { name: "NMI".to_string(), description: None, value: 2 });
    let built = build_interrupts(&device);
    let summary: Vec<(&str, u64, Option<&str>)> = built
        .iter()
        .map(|i| (i.name.as_str(), i.value, i.peripheral.as_deref()))
        .collect();
    assert_eq!(
        summary,
        vec![
            ("A_RX", 7, Some("A")),
            ("A_TX", 8, Some("A")),
            ("B_IRQ", 9, Some("B")),
            ("NMI", 2, None),
        ]
    );
    assert_eq!(built[0].description, Some("receive".to_string()));
    let model = convert(&device).unwrap();
    assert_eq!(model.interrupts, built);
}

#[test]
fn settled_checks_look_at_every_level() {
    let mut device = two_peripherals();
    assert!(is_fully_resolved(&device));
    assert!(is_peripheral_settled(&device.peripherals[0]));
    assert!(is_register_settled(&device.peripherals[0].registers[0]));
    device.peripherals[0].registers[1].fields[0].derived_from = Some("F0".to_string());
    assert!(!is_fully_resolved(&device));
    assert!(!is_peripheral_settled(&device.peripherals[0]));
    assert!(is_peripheral_settled(&device.peripherals[1]));
    assert!(is_register_settled(&device.peripherals[0].registers[0]));
    assert!(!is_register_settled(&device.peripherals[0].registers[1]));
    let mut other = two_peripherals();
    other.peripherals[1].registers[0].derived_from = Some("A.R0".to_string());
    assert!(!is_fully_resolved(&other));
    let mut third = two_peripherals();
    third.peripherals[1].derived_from = Some("A".to_string());
    assert!(!is_fully_resolved(&third));
    assert!(is_fully_resolved(&bare_device(Vec::new())));
}

#[test]
fn document_without_cpu_has_no_cpu_key() {
    let model = convert(&two_peripherals()).unwrap();
    let document = encode_device(&model);
    assert_eq!(document.member("cpu"), None);
    assert!(!keys(&document).contains(&"cpu".to_string()));
    assert_eq!(keys(&document), owned(&["name", "peripherals"]));
}

#[test]
fn document_with_cpu_has_the_cpu_record() {
    let mut device = two_peripherals();
    device.cpu = Some(RawCpu {
        name: "CM4".to_string(),
        revision: None,
        endian: Some(RawEndian::Little),
        mpu_present: Some(true),
        fpu_present: Some(false),
        nvic_priority_bits: Some(4),
        vendor_systick_config: None,
    });
    let document = encode_device(&convert(&device).unwrap());
    let cpu = document.member("cpu").unwrap();
    assert_eq!(keys(cpu), owned(&["name", "endian", "mpu-present", "fpu-present", "nvic-priority-bits"]));
    assert_eq!(cpu.member("name"), Some(&Value::Text("CM4".to_string())));
    assert_eq!(cpu.member("endian"), Some(&Value::Text("little".to_string())));
    assert_eq!(cpu.member("mpu-present"), Some(&Value::Flag(true)));
    assert_eq!(cpu.member("fpu-present"), Some(&Value::Flag(false)));
    assert_eq!(cpu.member("nvic-priority-bits"), Some(&Value::Number(4)));
    assert_eq!(cpu.member("revision"), None);
}

#[test]
fn document_of_a_device_uses_hyphenated_keys_in_order() {
    let mut device = two_peripherals();
    device.vendor = Some("ACME".to_string());
    device.vendor_id = Some("AC".to_string());
    device.series = Some("S1".to_string());
    device.version = Some("1.0".to_string());
    device.description = Some("a device".to_string());
    device.header_definitions_prefix = Some("MCU_".to_string());
    device.license_text = Some("free".to_string());
    device.tool_version = Some("0.1".to_string());
    device.generated_date = Some("today".to_string());
    device.interrupts.push(RawInterrupt { name: "NMI".to_string(), description: None, value: 2 });
    let document = encode_device(&convert(&device).unwrap());
    assert_eq!(
        keys(&document),
        owned(&[
            "name",
            "vendor",
            "vendor-id",
            "series",
            "version",
            "description",
            "peripherals",
            "interrupts",
            "header-definitions-prefix",
            "license-text",
            "tool-version",
            "generated-date",
        ])
    );
    assert_eq!(document.member("vendor-id"), Some(&Value::Text("AC".to_string())));
    let interrupts = document.member("interrupts").unwrap();
    match interrupts {
        Value::List(items) => {
            assert_eq!(items.len(), 1);
            assert_eq!(keys(&items[0]), owned(&["name", "value"]));
            assert_eq!(items[0].member("value"), Some(&Value::Number(2)));
        }
        _ => panic!("interrupts are a list"),
    }
}

#[test]
fn document_of_a_register_and_field_omits_what_is_absent_or_empty() {
    let mut field = bare_field("EN", 0, 1);
    field.access = Some(RawAccess::ReadWrite);
    field.modified_write_values = Some(RawModifiedWriteValues::OneToClear);
    field.read_action = Some(RawReadAction::SetBits);
    field.write_constraint = Some(RawWriteConstraint {
        minimum: Some(0),
        maximum: None,
        enumerated: Some(Vec::new()),
    });
    let mut ctrl = bare_register("CTRL", 8, vec![field]);
    ctrl.size = Some(32);
    ctrl.reset_value = Some(0x10);
    let empty = bare_register("EMPTY", 12, Vec::new());
    let mut uart = bare_peripheral("UART0", 0x4000, vec![ctrl, empty]);
    uart.group_name = Some("UART".to_string());
    let bare = bare_peripheral("BARE", 0x5000, Vec::new());
    let document = encode_device(&convert(&bare_device(vec![uart, bare])).unwrap());
    let peripherals = match document.member("peripherals").unwrap() {
        Value::List(items) => items,
        _ => panic!("peripherals are a list"),
    };
    assert_eq!(keys(&peripherals[0]), owned(&["name", "group-name", "base-address", "registers"]));
    assert_eq!(peripherals[0].member("base-address"), Some(&Value::Number(0x4000)));
    assert_eq!(keys(&peripherals[1]), owned(&["name", "base-address"]));
    let registers = match peripherals[0].member("registers").unwrap() {
        Value::List(items) => items,
        _ => panic!("registers are a list"),
    };
    assert_eq!(
        keys(&registers[0]),
        owned(&["name", "address-offset", "size", "reset-value", "fields"])
    );
    assert_eq!(registers[0].member("address-offset"), Some(&Value::Number(8)));
    assert_eq!(registers[0].member("size"), Some(&Value::Number(32)));
    assert_eq!(registers[0].member("reset-value"), Some(&Value::Number(0x10)));
    assert_eq!(keys(&registers[1]), owned(&["name", "address-offset"]));
    let fields = match registers[0].member("fields").unwrap() {
        Value::List(items) => items,
        _ => panic!("fields are a list"),
    };
    assert_eq!(
        keys(&fields[0]),
        owned(&[
            "name",
            "bit-offset",
            "bit-width",
            "access",
            "modified-write-values",
            "write-constraint",
            "read-action",
        ])
    );
    assert_eq!(fields[0].member("bit-offset"), Some(&Value::Number(0)));
    assert_eq!(fields[0].member("bit-width"), Some(&Value::Number(1)));
    assert_eq!(fields[0].member("access"), Some(&Value::Text("read-write".to_string())));
    assert_eq!(
        fields[0].member("modified-write-values"),
        Some(&Value::Text("one-to-clear".to_string()))
    );
    assert_eq!(fields[0].member("read-action"), Some(&Value::Text("set".to_string())));
    let constraint = fields[0].member("write-constraint").unwrap();
    assert_eq!(keys(constraint), owned(&["minimum"]));
    assert_eq!(fields[0].member("derived-from"), None);
}

#[test]
fn enumerations_are_written_in_lower_case_with_hyphens() {
    let name = |value: Value| match value {
        Value::Text(text) => text,
        _ => panic!("not a text"),
    };
    assert_eq!(name(encode_access(SerializableAccess::ReadOnly)), "read-only");
    assert_eq!(name(encode_access(SerializableAccess::ReadWrite)), "read-write");
    assert_eq!(name(encode_access(SerializableAccess::ReadWriteOnce)), "read-write-once");
    assert_eq!(name(encode_access(SerializableAccess::WriteOnce)), "write-once");
    assert_eq!(name(encode_access(SerializableAccess::WriteOnly)), "write-only");
    assert_eq!(name(encode_endian(SerializableEndian::Little)), "little");
    assert_eq!(name(encode_endian(SerializableEndian::Big)), "big");
    assert_eq!(name(encode_endian(SerializableEndian::Selectable)), "selectable");
    assert_eq!(name(encode_endian(SerializableEndian::Other)), "other");
    assert_eq!(name(encode_read_action(ReadAction::Clear)), "clear");
    assert_eq!(name(encode_read_action(ReadAction::SetBits)), "set");
    assert_eq!(name(encode_read_action(ReadAction::Modify)), "modify");
    assert_eq!(name(encode_usage(SerializableUsage::Read)), "read");
    assert_eq!(name(encode_usage(SerializableUsage::Write)), "write");
    assert_eq!(name(encode_usage(SerializableUsage::ReadWrite)), "read-write");
    assert_eq!(name(encode_modified_write_values(ModifiedWriteValues::OneToClear)), "one-to-clear");
    assert_eq!(name(encode_modified_write_values(ModifiedWriteValues::OneToSet)), "one-to-set");
    assert_eq!(name(encode_modified_write_values(ModifiedWriteValues::OneToToggle)), "one-to-toggle");
    assert_eq!(name(encode_modified_write_values(ModifiedWriteValues::ZeroToClear)), "zero-to-clear");
    assert_eq!(name(encode_modified_write_values(ModifiedWriteValues::ZeroToSet)), "zero-to-set");
    assert_eq!(
        name(encode_modified_write_values(ModifiedWriteValues::ZeroToToggle)),
        "zero-to-toggle"
    );
    assert_eq!(name(encode_modified_write_values(ModifiedWriteValues::Modify)), "modify");
}

#[test]
fn enumerated_values_are_written_with_their_usage_and_values() {
    let mut field = bare_field("MODE", 0, 2);
    field.enumerated_values.push(RawEnumeratedValues {
        name: None,
        usage: Some(RawUsage::ReadWrite),
        values: vec![
            RawEnumValue { name: "OFF".to_string(), description: None, value: 0 },
            RawEnumValue { name: "ON".to_string(), description: Some("on".to_string()), value: 1 },
        ],
    });
    field.write_constraint = Some(RawWriteConstraint {
        minimum: None,
        maximum: Some(3),
        enumerated: Some(vec![0, 1]),
    });
    let document = build_field(&field).encode();
    let sets = match document.member("enumerated-values").unwrap() {
        Value::List(items) => items,
        _ => panic!("enumerated values are a list"),
    };
    assert_eq!(keys(&sets[0]), owned(&["usage", "values"]));
    assert_eq!(sets[0].member("usage"), Some(&Value::Text("read-write".to_string())));
    let values = match sets[0].member("values").unwrap() {
        Value::List(items) => items,
        _ => panic!("values are a list"),
    };
    assert_eq!(keys(&values[0]), owned(&["name", "value"]));
    assert_eq!(keys(&values[1]), owned(&["name", "description", "value"]));
    assert_eq!(values[1].member("value"), Some(&Value::Number(1)));
    let constraint = document.member("write-constraint").unwrap();
    assert_eq!(keys(constraint), owned(&["maximum", "enumerated"]));
    assert_eq!(
        constraint.member("enumerated"),
        Some(&Value::List(vec![Value::Number(0), Value::Number(1)]))
    );
}

#[test]
fn document_values_are_built_from_their_parts() {
    assert_eq!(flag(true), Value::Flag(true));
    assert_eq!(number(42), Value::Number(42));
    assert_eq!(text("abc"), Value::Text("abc".to_string()));
    assert_eq!(list(vec![number(1), flag(false)]), Value::List(vec![Value::Number(1), Value::Flag(false)]));
    let mut entries: Vec<(String, Value)> = Vec::new();
    put(&mut entries, "first", number(1));
    put(&mut entries, "second", text("two"));
    put(&mut entries, "first", number(3));
    let built = record(entries);
    assert_eq!(keys(&built), owned(&["first", "second", "first"]));
    assert_eq!(built.member("first"), Some(&Value::Number(1)));
    assert_eq!(built.member("second"), Some(&Value::Text("two".to_string())));
    assert_eq!(built.member("third"), None);
    assert_eq!(number(1).member("first"), None);
    assert_eq!(widen(Some(7)), Some(7u64));
    assert_eq!(widen(None), None);
}
