use svd_resolve::builder::{build_device, is_fully_resolved};
use svd_resolve::convert::convert;
use svd_resolve::error::ConversionError;
use svd_resolve::raw::{RawAccess, RawDevice, RawEnumValue, RawEnumeratedValues, RawField,
    RawInterrupt, RawPeripheral, RawRegister, RawUsage, RawWriteConstraint};
use svd_resolve::resolve::{find_settled_field, find_settled_peripheral, find_settled_register,
    is_visiting_field, is_visiting_peripheral, is_visiting_register, resolve_device,
    resolve_field, resolve_fields, resolve_peripheral, resolve_peripherals, resolve_register,
    resolve_registers, SettledField, SettledPeripheral, SettledRegister};

fn field(name: &str, bit_offset: u32, bit_width: u32) -> RawField {
    RawField {
        name: name.to_string(),
        derived_from: None,
        description: None,
        bit_offset,
        bit_width,
        access: None,
        modified_write_values: None,
        write_constraint: None,
        read_action: None,
        enumerated_values: Vec::new(),
    }
}

fn register(name: &str, address_offset: u32, fields: Vec<RawField>) -> RawRegister {
    RawRegister {
        name: name.to_string(),
        derived_from: None,
        display_name: None,
        description: None,
        address_offset,
        size: None,
        access: None,
        reset_value: None,
        reset_mask: None,
        alternate_group: None,
        alternate_register: None,
        fields,
    }
}

fn peripheral(name: &str, base_address: u64, registers: Vec<RawRegister>) -> RawPeripheral {
    RawPeripheral {
        name: name.to_string(),
        derived_from: None,
        display_name: None,
        version: None,
        description: None,
        group_name: None,
        alternate_peripheral: None,
        base_address,
        prepend_to_name: None,
        registers,
        interrupts: Vec::new(),
    }
}

fn device(peripherals: Vec<RawPeripheral>) -> RawDevice {
    RawDevice {
        name: "MCU".to_string(),
        vendor: None,
        vendor_id: None,
        series: None,
        version: None,
        description: None,
        cpu: None,
        peripherals,
        interrupts: Vec::new(),
        header_definitions_prefix: None,
        license_text: None,
        tool_version: None,
        generated_date: None,
    }
}

fn derived(mut entity: RawPeripheral, reference: &str) -> RawPeripheral {
    entity.derived_from = Some(reference.to_string());
    entity
}

fn derived_register(mut entity: RawRegister, reference: &str) -> RawRegister {
    entity.derived_from = Some(reference.to_string());
    entity
}

fn derived_field(mut entity: RawField, reference: &str) -> RawField {
    entity.derived_from = Some(reference.to_string());
    entity
}

fn uart_pair() -> RawDevice {
    let mut en = field("EN", 0, 1);
    en.access = Some(RawAccess::ReadWrite);
    let uart0 = peripheral("UART0", 0x4000, vec![register("CTRL", 0, vec![en])]);
    let uart1 = derived(peripheral("UART1", 0x4100, Vec::new()), "UART0");
    device(vec![uart0, uart1])
}

#[test]
fn derived_peripheral_inherits_registers_and_keeps_its_address() {
    let resolved = resolve_device(&uart_pair()).unwrap();
    let uart0 = &resolved.peripherals[0];
    let uart1 = &resolved.peripherals[1];
    assert_eq!(uart1.name, "UART1");
    assert_eq!(uart1.base_address, 0x4100);
    assert_eq!(uart1.derived_from, None);
    assert_eq!(uart1.registers.len(), 1);
    assert_eq!(uart1.registers[0].name, "CTRL");
    assert_eq!(uart1.registers[0].address_offset, 0);
    assert_eq!(uart1.registers[0].fields.len(), 1);
    assert_eq!(uart1.registers[0].fields[0], uart0.registers[0].fields[0]);
    assert_eq!(uart1.registers[0].fields[0].name, "EN");
    assert_eq!(uart1.registers[0].fields[0].bit_offset, 0);
    assert_eq!(uart1.registers[0].fields[0].bit_width, 1);
    assert_eq!(uart1.registers[0].fields[0].access, Some(RawAccess::ReadWrite));
    assert_eq!(uart0.base_address, 0x4000);
}

#[test]
fn derived_register_inherits_reset_value() {
    let mut ctrl = register("CTRL", 0, Vec::new());
    ctrl.reset_value = Some(0x10);
    let status = derived_register(register("STATUS", 4, Vec::new()), "CTRL");
    let input = device(vec![peripheral("UART0", 0x4000, vec![ctrl, status])]);
    let resolved = resolve_device(&input).unwrap();
    let status = &resolved.peripherals[0].registers[1];
    assert_eq!(status.name, "STATUS");
    assert_eq!(status.reset_value, Some(0x10));
    assert_eq!(status.address_offset, 4);
    assert_eq!(status.derived_from, None);
}

#[test]
fn mutual_derivation_of_peripherals_is_cyclic() {
    let tim1 = derived(peripheral("TIM1", 0x1000, Vec::new()), "TIM2");
    let tim2 = derived(peripheral("TIM2", 0x2000, Vec::new()), "TIM1");
    let outcome = resolve_device(&device(vec![tim1, tim2]));
    assert_eq!(outcome, Err(ConversionError::CyclicDerivation { path: "TIM1".to_string() }));
}

#[test]
fn peripheral_deriving_from_itself_is_cyclic() {
    let tim1 = derived(peripheral("TIM1", 0x1000, Vec::new()), "TIM1");
    let outcome = resolve_device(&device(vec![tim1]));
    assert_eq!(outcome, Err(ConversionError::CyclicDerivation { path: "TIM1".to_string() }));
}

#[test]
fn cycle_reports_the_peripheral_that_is_entered_again() {
    let a = derived(peripheral("A", 0x1000, Vec::new()), "B");
    let b = derived(peripheral("B", 0x2000, Vec::new()), "C");
    let c = derived(peripheral("C", 0x3000, Vec::new()), "B");
    let outcome = resolve_device(&device(vec![a, b, c]));
    assert_eq!(outcome, Err(ConversionError::CyclicDerivation { path: "B".to_string() }));
}

#[test]
fn mutual_derivation_of_registers_is_cyclic() {
    let r1 = derived_register(register("R1", 0, Vec::new()), "R2");
    let r2 = derived_register(register("R2", 4, Vec::new()), "R1");
    let outcome = resolve_device(&device(vec![peripheral("P", 0, vec![r1, r2])]));
    assert_eq!(outcome, Err(ConversionError::CyclicDerivation { path: "P.R1".to_string() }));
}

#[test]
fn mutual_derivation_of_fields_is_cyclic() {
    let f1 = derived_field(field("F1", 0, 1), "F2");
    let f2 = derived_field(field("F2", 1, 1), "F1");
    let input = device(vec![peripheral("P", 0, vec![register("R", 0, vec![f1, f2])])]);
    let outcome = resolve_device(&input);
    assert_eq!(outcome, Err(ConversionError::CyclicDerivation { path: "P.R.F1".to_string() }));
}

#[test]
fn dangling_register_reference_is_reported_with_its_name() {
    let status = derived_register(register("STATUS", 4, Vec::new()), "DoesNotExist");
    let input = device(vec![peripheral("UART0", 0x4000, vec![status])]);
    let outcome = resolve_device(&input);
    assert_eq!(
        outcome,
        Err(ConversionError::DanglingDerivation {
            source: "UART0.STATUS".to_string(),
            reference: "DoesNotExist".to_string(),
        })
    );
}

#[test]
fn dangling_peripheral_reference_is_reported() {
    let p = derived(peripheral("SPI1", 0x5000, Vec::new()), "SPI0");
    let outcome = resolve_device(&device(vec![p]));
    assert_eq!(
        outcome,
        Err(ConversionError::DanglingDerivation {
            source: "SPI1".to_string(),
            reference: "SPI0".to_string(),
        })
    );
}

#[test]
fn dangling_field_reference_is_reported() {
    let f = derived_field(field("F", 0, 1), "P.R.Missing");
    let input = device(vec![peripheral("P", 0, vec![register("R", 0, vec![f])])]);
    let outcome = resolve_device(&input);
    assert_eq!(
        outcome,
        Err(ConversionError::DanglingDerivation {
            source: "P.R.F".to_string(),
            reference: "P.R.Missing".to_string(),
        })
    );
}

#[test]
fn dangling_reference_deep_in_a_chain_names_the_entity_that_holds_it() {
    let a = derived(peripheral("A", 0x1000, Vec::new()), "B");
    let b = derived(peripheral("B", 0x2000, Vec::new()), "Nowhere");
    let outcome = resolve_device(&device(vec![a, b]));
    assert_eq!(
        outcome,
        Err(ConversionError::DanglingDerivation {
            source: "B".to_string(),
            reference: "Nowhere".to_string(),
        })
    );
}

#[test]
fn peripheral_reference_with_a_dot_names_nothing() {
    let a = peripheral("A", 0x1000, Vec::new());
    let b = derived(peripheral("B", 0x2000, Vec::new()), "A.B");
    let outcome = resolve_device(&device(vec![a, b]));
    assert_eq!(
        outcome,
        Err(ConversionError::DanglingDerivation {
            source: "B".to_string(),
            reference: "A.B".to_string(),
        })
    );
}

#[test]
fn names_are_compared_exactly() {
    let a = peripheral("Uart", 0x1000, Vec::new());
    let b = derived(peripheral("B", 0x2000, Vec::new()), "UART");
    let outcome = resolve_device(&device(vec![a, b]));
    assert_eq!(
        outcome,
        Err(ConversionError::DanglingDerivation {
            source: "B".to_string(),
            reference: "UART".to_string(),
        })
    );
}

#[test]
fn field_derives_across_peripherals() {
    let mut field_w = field("FieldW", 3, 2);
    field_w.description = Some("shared".to_string());
    field_w.access = Some(RawAccess::ReadOnly);
    let periph_b = peripheral("PeriphB", 0x2000, vec![register("RegZ", 8, vec![field_w])]);
    let field_y = derived_field(field("FieldY", 7, 1), "PeriphB.RegZ.FieldW");
    let periph_a = peripheral("PeriphA", 0x1000, vec![register("RegX", 0, vec![field_y])]);
    let resolved = resolve_device(&device(vec![periph_a, periph_b])).unwrap();
    let field_y = &resolved.peripherals[0].registers[0].fields[0];
    assert_eq!(field_y.name, "FieldY");
    assert_eq!(field_y.bit_offset, 7);
    assert_eq!(field_y.bit_width, 1);
    assert_eq!(field_y.description, Some("shared".to_string()));
    assert_eq!(field_y.access, Some(RawAccess::ReadOnly));
    assert_eq!(field_y.derived_from, None);
}

#[test]
fn register_derives_across_peripherals() {
    let mut data = register("DATA", 0x10, vec![field("VALUE", 0, 8)]);
    data.size = Some(32);
    data.access = Some(RawAccess::WriteOnly);
    let a = peripheral("A", 0x1000, vec![data]);
    let copy = derived_register(register("COPY", 0x20, Vec::new()), "A.DATA");
    let b = peripheral("B", 0x2000, vec![copy]);
    let resolved = resolve_device(&device(vec![b, a])).unwrap();
    let copy = &resolved.peripherals[0].registers[0];
    assert_eq!(copy.name, "COPY");
    assert_eq!(copy.address_offset, 0x20);
    assert_eq!(copy.size, Some(32));
    assert_eq!(copy.access, Some(RawAccess::WriteOnly));
    assert_eq!(copy.fields.len(), 1);
    assert_eq!(copy.fields[0].name, "VALUE");
}

#[test]
fn field_reference_of_two_parts_names_a_field_of_a_sibling_register() {
    let mut mode = field("MODE", 4, 2);
    mode.access = Some(RawAccess::WriteOnce);
    let first = register("FIRST", 0, vec![mode]);
    let second = register("SECOND", 4, vec![derived_field(field("MODE2", 0, 2), "FIRST.MODE")]);
    let resolved = resolve_device(&device(vec![peripheral("P", 0, vec![first, second])])).unwrap();
    let mode2 = &resolved.peripherals[0].registers[1].fields[0];
    assert_eq!(mode2.access, Some(RawAccess::WriteOnce));
    assert_eq!(mode2.bit_offset, 0);
}

#[test]
fn reference_with_too_many_parts_names_nothing() {
    let base = register("BASE", 0, Vec::new());
    let r = derived_register(register("R", 4, Vec::new()), "P.BASE.X");
    let outcome = resolve_device(&device(vec![peripheral("P", 0, vec![base, r])]));
    assert_eq!(
        outcome,
        Err(ConversionError::DanglingDerivation {
            source: "P.R".to_string(),
            reference: "P.BASE.X".to_string(),
        })
    );
}

#[test]
fn chain_of_three_peripherals_resolves_through_the_middle() {
    let mut a = peripheral("A", 0x1000, vec![register("R", 0, Vec::new())]);
    a.description = Some("first".to_string());
    a.group_name = Some("group".to_string());
    let mut b = derived(peripheral("B", 0x2000, Vec::new()), "A");
    b.description = Some("second".to_string());
    let c = derived(peripheral("C", 0x3000, Vec::new()), "B");
    let resolved = resolve_device(&device(vec![c, b, a])).unwrap();
    let c = &resolved.peripherals[0];
    assert_eq!(c.name, "C");
    assert_eq!(c.description, Some("second".to_string()));
    assert_eq!(c.group_name, Some("group".to_string()));
    assert_eq!(c.registers.len(), 1);
    assert_eq!(c.registers[0].name, "R");
    assert_eq!(resolved.peripherals[1].description, Some("second".to_string()));
    assert_eq!(resolved.peripherals[2].description, Some("first".to_string()));
}

#[test]
fn own_attribute_overrides_the_inherited_one() {
    let mut ctrl = register("CTRL", 0, Vec::new());
    ctrl.reset_value = Some(0x10);
    ctrl.size = Some(32);
    ctrl.description = Some("control".to_string());
    let mut status = derived_register(register("STATUS", 4, Vec::new()), "CTRL");
    status.reset_value = Some(0x20);
    let input = device(vec![peripheral("UART0", 0x4000, vec![ctrl, status])]);
    let resolved = resolve_device(&input).unwrap();
    let status = &resolved.peripherals[0].registers[1];
    assert_eq!(status.reset_value, Some(0x20));
    assert_eq!(status.size, Some(32));
    assert_eq!(status.description, Some("control".to_string()));
}

#[test]
fn overridden_field_keeps_its_own_attributes_and_takes_the_missing_ones() {
    let mut base_en = field("EN", 0, 1);
    base_en.access = Some(RawAccess::ReadWrite);
    base_en.description = Some("enable".to_string());
    let base_mode = field("MODE", 1, 2);
    let ctrl = register("CTRL", 0, vec![base_en, base_mode]);
    let mut own_en = field("EN", 5, 1);
    own_en.access = Some(RawAccess::ReadOnly);
    let own_extra = field("EXTRA", 8, 4);
    let ctrl2 = derived_register(register("CTRL2", 4, vec![own_en, own_extra]), "CTRL");
    let input = device(vec![peripheral("P", 0, vec![ctrl, ctrl2])]);
    let resolved = resolve_device(&input).unwrap();
    let fields = &resolved.peripherals[0].registers[1].fields;
    assert_eq!(fields.len(), 3);
    assert_eq!(fields[0].name, "EN");
    assert_eq!(fields[0].bit_offset, 5);
    assert_eq!(fields[0].access, Some(RawAccess::ReadOnly));
    assert_eq!(fields[0].description, Some("enable".to_string()));
    assert_eq!(fields[1].name, "EXTRA");
    assert_eq!(fields[1].bit_offset, 8);
    assert_eq!(fields[2].name, "MODE");
    assert_eq!(fields[2].bit_offset, 1);
}

#[test]
fn overridden_register_of_a_derived_peripheral_is_merged_by_name() {
    let mut ctrl = register("CTRL", 0, vec![field("EN", 0, 1)]);
    ctrl.size = Some(16);
    let data = register("DATA", 4, Vec::new());
    let uart0 = peripheral("UART0", 0x4000, vec![ctrl, data]);
    let mut own_ctrl = register("CTRL", 0x40, Vec::new());
    own_ctrl.description = Some("moved".to_string());
    let uart1 = derived(peripheral("UART1", 0x4100, vec![own_ctrl]), "UART0");
    let resolved = resolve_device(&device(vec![uart0, uart1])).unwrap();
    let registers = &resolved.peripherals[1].registers;
    assert_eq!(registers.len(), 2);
    assert_eq!(registers[0].name, "CTRL");
    assert_eq!(registers[0].address_offset, 0x40);
    assert_eq!(registers[0].size, Some(16));
    assert_eq!(registers[0].description, Some("moved".to_string()));
    assert_eq!(registers[0].fields.len(), 1);
    assert_eq!(registers[1].name, "DATA");
    assert_eq!(registers[1].address_offset, 4);
}

#[test]
fn inherited_register_reference_is_resolved_in_the_deriving_peripheral() {
    let mut ctrl = register("CTRL", 0, Vec::new());
    ctrl.reset_value = Some(0x10);
    let status = derived_register(register("STATUS", 4, Vec::new()), "CTRL");
    let uart0 = peripheral("UART0", 0x4000, vec![ctrl, status]);
    let mut own_ctrl = register("CTRL", 0, Vec::new());
    own_ctrl.reset_value = Some(0x99);
    let uart1 = derived(peripheral("UART1", 0x4100, vec![own_ctrl]), "UART0");
    let resolved = resolve_device(&device(vec![uart0, uart1])).unwrap();
    assert_eq!(resolved.peripherals[0].registers[1].reset_value, Some(0x10));
    let registers = &resolved.peripherals[1].registers;
    assert_eq!(registers[1].name, "STATUS");
    assert_eq!(registers[1].reset_value, Some(0x99));
}

#[test]
fn entity_without_reference_is_returned_unchanged() {
    let mut en = field("EN", 0, 1);
    en.access = Some(RawAccess::ReadWrite);
    let input = device(vec![peripheral("UART0", 0x4000, vec![register("CTRL", 0, vec![en])])]);
    let resolved = resolve_device(&input).unwrap();
    assert_eq!(resolved, input);
}

#[test]
fn resolving_a_resolved_tree_changes_nothing() {
    let once = resolve_device(&uart_pair()).unwrap();
    let twice = resolve_device(&once).unwrap();
    assert_eq!(twice, once);
    assert!(is_fully_resolved(&once));
}

#[test]
fn resolution_leaves_its_input_untouched() {
    let input = uart_pair();
    let copy = input.clone();
    let _ = resolve_device(&input);
    assert_eq!(input, copy);
    assert!(!is_fully_resolved(&input));
}

#[test]
fn resolved_form_does_not_depend_on_the_order_of_the_peripherals() {
    let forward = resolve_device(&uart_pair()).unwrap();
    let mut swapped = uart_pair();
    swapped.peripherals.reverse();
    let backward = resolve_device(&swapped).unwrap();
    assert_eq!(backward.peripherals[0], forward.peripherals[1]);
    assert_eq!(backward.peripherals[1], forward.peripherals[0]);
}

#[test]
fn first_entity_that_fails_decides_the_error() {
    let a = derived(peripheral("A", 0x1000, Vec::new()), "Missing");
    let b = derived(peripheral("B", 0x2000, Vec::new()), "B");
    let outcome = resolve_device(&device(vec![a, b]));
    assert_eq!(
        outcome,
        Err(ConversionError::DanglingDerivation {
            source: "A".to_string(),
            reference: "Missing".to_string(),
        })
    );
}

#[test]
fn first_of_two_peripherals_with_one_name_is_the_one_referred_to() {
    let mut first = peripheral("TIM", 0x1000, Vec::new());
    first.description = Some("first".to_string());
    let mut second = peripheral("TIM", 0x2000, Vec::new());
    second.description = Some("second".to_string());
    let user = derived(peripheral("USER", 0x3000, Vec::new()), "TIM");
    let resolved = resolve_device(&device(vec![first, second, user])).unwrap();
    assert_eq!(resolved.peripherals[2].description, Some("first".to_string()));
}

#[test]
fn interrupts_of_a_peripheral_are_not_inherited() {
    let mut uart0 = peripheral("UART0", 0x4000, Vec::new());
    uart0.interrupts.push(RawInterrupt { name: "UART0_IRQ".to_string(), description: None, value: 5 });
    let uart1 = derived(peripheral("UART1", 0x4100, Vec::new()), "UART0");
    let resolved = resolve_device(&device(vec![uart0, uart1])).unwrap();
    assert_eq!(resolved.peripherals[0].interrupts.len(), 1);
    assert_eq!(resolved.peripherals[1].interrupts.len(), 0);
}

#[test]
fn enumerated_values_and_write_constraint_are_inherited_when_left_out() {
    let mut base = field("MODE", 0, 2);
    base.enumerated_values.push(RawEnumeratedValues {
        name: Some("modes".to_string()),
        usage: Some(RawUsage::ReadWrite),
        values: vec![RawEnumValue { name: "OFF".to_string(), description: None, value: 0 }],
    });
    base.write_constraint = Some(RawWriteConstraint {
        minimum: Some(0),
        maximum: Some(3),
        enumerated: None,
    });
    let mut own = derived_field(field("MODE2", 2, 2), "MODE");
    own.write_constraint = Some(RawWriteConstraint {
        minimum: None,
        maximum: None,
        enumerated: Some(vec![1, 2]),
    });
    let input = device(vec![peripheral("P", 0, vec![register("R", 0, vec![base, own])])]);
    let resolved = resolve_device(&input).unwrap();
    let mode2 = &resolved.peripherals[0].registers[0].fields[1];
    assert_eq!(mode2.enumerated_values.len(), 1);
    assert_eq!(mode2.enumerated_values[0].values[0].name, "OFF");
    assert_eq!(
        mode2.write_constraint,
        Some(RawWriteConstraint { minimum: None, maximum: None, enumerated: Some(vec![1, 2]) })
    );
}

#[test]
fn levels_resolve_one_kind_of_reference_each() {
    let ctrl = register("CTRL", 0, vec![field("EN", 0, 1), derived_field(field("EN2", 1, 1), "EN")]);
    let status = derived_register(register("STATUS", 4, Vec::new()), "CTRL");
    let uart0 = peripheral("UART0", 0x4000, vec![ctrl, status]);
    let uart1 = derived(peripheral("UART1", 0x4100, Vec::new()), "UART0");
    let input = device(vec![uart0, uart1]);
    let first = resolve_peripherals(&input).unwrap();
    assert_eq!(first.peripherals[1].derived_from, None);
    assert_eq!(first.peripherals[1].registers.len(), 2);
    assert_eq!(first.peripherals[1].registers[1].derived_from, Some("CTRL".to_string()));
    let second = resolve_registers(&first).unwrap();
    assert_eq!(second.peripherals[1].registers[1].derived_from, None);
    assert_eq!(second.peripherals[1].registers[1].fields.len(), 2);
    assert_eq!(
        second.peripherals[1].registers[1].fields[1].derived_from,
        Some("EN".to_string())
    );
    let third = resolve_fields(&second).unwrap();
    assert_eq!(third.peripherals[1].registers[1].fields[1].derived_from, None);
    assert!(is_fully_resolved(&third));
    assert_eq!(third, resolve_device(&input).unwrap());
}

#[test]
fn single_entities_resolve_as_they_do_in_the_whole_device() {
    let ctrl = register("CTRL", 0, vec![field("EN", 0, 1), derived_field(field("EN2", 1, 1), "EN")]);
    let status = derived_register(register("STATUS", 4, Vec::new()), "CTRL");
    let uart0 = peripheral("UART0", 0x4000, vec![ctrl, status]);
    let uart1 = derived(peripheral("UART1", 0x4100, Vec::new()), "UART0");
    let input = device(vec![uart0, uart1]);
    let uart1 = resolve_peripheral(&input, 1).unwrap();
    assert_eq!(uart1, resolve_peripherals(&input).unwrap().peripherals[1]);
    assert_eq!(uart1.registers.len(), 2);
    assert_eq!(resolve_peripheral(&input, 0).unwrap(), input.peripherals[0]);
    let status = resolve_register(&input, 0, 1).unwrap();
    assert_eq!(status.name, "STATUS");
    assert_eq!(status.derived_from, None);
    assert_eq!(status.fields.len(), 2);
    assert_eq!(resolve_register(&input, 0, 0).unwrap(), input.peripherals[0].registers[0]);
    let en2 = resolve_field(&input, 0, 0, 1).unwrap();
    assert_eq!(en2.name, "EN2");
    assert_eq!(en2.bit_offset, 1);
    assert_eq!(en2.derived_from, None);
    let looped = device(vec![derived(peripheral("P", 0, Vec::new()), "P")]);
    assert_eq!(
        resolve_peripheral(&looped, 0),
        Err(ConversionError::CyclicDerivation { path: "P".to_string() })
    );
}

#[test]
fn many_entities_that_derive_from_one_share_its_resolved_form() {
    let mut root = peripheral("ROOT", 0, vec![register("R", 0, vec![field("F", 0, 1)])]);
    root.description = Some("root".to_string());
    let middle = derived(peripheral("MIDDLE", 0x100, Vec::new()), "ROOT");
    let mut all = vec![
        derived(peripheral("A", 0x200, Vec::new()), "MIDDLE"),
        derived(peripheral("B", 0x300, Vec::new()), "MIDDLE"),
        middle,
        derived(peripheral("C", 0x400, Vec::new()), "MIDDLE"),
    ];
    all.push(root);
    let resolved = resolve_device(&device(all)).unwrap();
    for (index, address) in [(0usize, 0x200u64), (1, 0x300), (2, 0x100), (3, 0x400), (4, 0)] {
        let entity = &resolved.peripherals[index];
        assert_eq!(entity.base_address, address);
        assert_eq!(entity.description, Some("root".to_string()));
        assert_eq!(entity.registers, resolved.peripherals[4].registers);
        assert_eq!(entity.derived_from, None);
    }
}

#[test]
fn registers_and_fields_that_derive_from_one_share_its_resolved_form() {
    let mut base = field("BASE", 0, 1);
    base.access = Some(RawAccess::ReadOnly);
    let one = derived_field(field("ONE", 1, 1), "BASE");
    let two = derived_field(field("TWO", 2, 1), "ONE");
    let three = derived_field(field("THREE", 3, 1), "ONE");
    let mut first = register("FIRST", 0, vec![two, three, one, base]);
    first.size = Some(16);
    let second = derived_register(register("SECOND", 4, Vec::new()), "FIRST");
    let third = derived_register(register("THIRD", 8, Vec::new()), "P.SECOND");
    let p = peripheral("P", 0, vec![third, second, first]);
    let q = peripheral("Q", 0x100, vec![derived_register(register("FOURTH", 0, Vec::new()), "P.THIRD")]);
    let resolved = resolve_device(&device(vec![q, p])).unwrap();
    for register in resolved.peripherals[1].registers.iter().chain(resolved.peripherals[0].registers.iter()) {
        assert_eq!(register.size, Some(16));
        assert_eq!(register.fields.len(), 4);
        for field in &register.fields {
            assert_eq!(field.access, Some(RawAccess::ReadOnly));
            assert_eq!(field.derived_from, None);
        }
    }
    assert_eq!(resolved.peripherals[0].registers[0].name, "FOURTH");
    assert_eq!(resolved.peripherals[0].registers[0].fields[0].name, "TWO");
    assert_eq!(resolved.peripherals[0].registers[0].fields[0].bit_offset, 2);
}

#[test]
fn tables_of_entities_in_progress_are_searched_by_place() {
    assert!(is_visiting_peripheral(&vec![3, 1], 1));
    assert!(!is_visiting_peripheral(&vec![3, 1], 2));
    assert!(!is_visiting_peripheral(&Vec::new(), 0));
    assert!(is_visiting_register(&vec![(0, 1), (2, 3)], 2, 3));
    assert!(!is_visiting_register(&vec![(0, 1), (2, 3)], 3, 2));
    assert!(!is_visiting_register(&vec![(0, 1), (2, 3)], 0, 3));
    assert!(is_visiting_field(&vec![(0, 1, 2)], 0, 1, 2));
    assert!(!is_visiting_field(&vec![(0, 1, 2)], 0, 2, 1));
    assert!(!is_visiting_field(&vec![(0, 1, 2)], 1, 1, 2));
}

#[test]
fn memo_tables_are_searched_by_place() {
    let peripherals = vec![
        SettledPeripheral { p: 4, peripheral: peripheral("A", 0, Vec::new()) },
        SettledPeripheral { p: 2, peripheral: peripheral("B", 0, Vec::new()) },
    ];
    assert_eq!(find_settled_peripheral(&peripherals, 2), Some(1));
    assert_eq!(find_settled_peripheral(&peripherals, 4), Some(0));
    assert_eq!(find_settled_peripheral(&peripherals, 0), None);
    let registers = vec![
        SettledRegister { p: 1, r: 0, register: register("A", 0, Vec::new()) },
        SettledRegister { p: 0, r: 1, register: register("B", 0, Vec::new()) },
    ];
    assert_eq!(find_settled_register(&registers, 0, 1), Some(1));
    assert_eq!(find_settled_register(&registers, 1, 1), None);
    let fields = vec![SettledField { p: 1, r: 2, f: 3, field: field("A", 0, 1) }];
    assert_eq!(find_settled_field(&fields, 1, 2, 3), Some(0));
    assert_eq!(find_settled_field(&fields, 3, 2, 1), None);
}

#[test]
fn builder_refuses_a_tree_that_still_holds_a_reference() {
    assert_eq!(build_device(&uart_pair()), Err(ConversionError::IllegalState));
    let f = derived_field(field("F", 0, 1), "G");
    let input = device(vec![peripheral("P", 0, vec![register("R", 0, vec![f])])]);
    assert_eq!(build_device(&input), Err(ConversionError::IllegalState));
}

#[test]
fn conversion_fails_as_resolution_does() {
    let tim1 = derived(peripheral("TIM1", 0x1000, Vec::new()), "TIM2");
    let tim2 = derived(peripheral("TIM2", 0x2000, Vec::new()), "TIM1");
    assert_eq!(
        convert(&device(vec![tim1, tim2])),
        Err(ConversionError::CyclicDerivation { path: "TIM1".to_string() })
    );
}

#[test]
fn conversion_builds_the_model_of_the_resolved_tree() {
    let model = convert(&uart_pair()).unwrap();
    assert_eq!(model.name, "MCU");
    assert_eq!(model.peripherals.len(), 2);
    assert_eq!(model.peripherals[1].name, "UART1");
    assert_eq!(model.peripherals[1].base_address, 0x4100);
    assert_eq!(model.peripherals[1].registers, model.peripherals[0].registers);
    assert_eq!(model.peripherals[1].registers[0].fields[0].name, "EN");
}
