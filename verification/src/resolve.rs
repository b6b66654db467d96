//! The derivation resolution engine.
//!
//! An entity is resolved by following the chain of references that starts
//! at it, with the entities in progress held in a table; the resolved form
//! of each entity on the way is kept in a memo table, so that it is computed
//! once, however many entities derive from it. The device itself is only
//! read: each level returns a new tree.

use vstd::prelude::*;
use crate::chains::{field_target, is_field_chain, is_peripheral_chain, is_register_chain,
    lemma_field_behind_chain, lemma_field_chain_push, lemma_field_with_fewer_in_progress,
    lemma_peripheral_behind_chain, lemma_peripheral_chain_push,
    lemma_peripheral_with_fewer_in_progress, lemma_register_behind_chain,
    lemma_register_chain_push, lemma_register_with_fewer_in_progress, peripheral_target,
    register_target, within};
use crate::copy::{copy_all, copy_optional, copy_text, DeepCopy};
use crate::error::{join_path, outcome_view, ConversionError, ConversionErrorView};
use crate::keys::{field_keys, is_field, is_peripheral, is_register, lemma_pending_fields_push,
    lemma_pending_peripherals_push, lemma_pending_registers_push, pending_fields,
    pending_peripherals, pending_registers, peripheral_keys, register_keys};
use crate::lookup::{resolve_field_reference, resolve_peripheral_reference,
    resolve_register_reference};
use crate::merge::{merge_field, merge_peripheral, merge_register};
use crate::raw::{RawDevice, RawDeviceView, RawField, RawFieldView, RawPeripheral,
    RawPeripheralView, RawRegister, RawRegisterView};
use crate::resolved::{field_level_from, field_level_registers_from, fields_resolved,
    followed_by, peripheral_with_resolved_fields, peripheral_with_resolved_registers,
    peripherals_resolved, register_level_from, register_with_resolved_fields,
    registers_resolved, resolved_device, resolved_field, resolved_fields_from,
    resolved_peripheral, resolved_peripherals_from, resolved_register,
    resolved_registers_from};

verus! {

/// Nothing followed by the rest is the rest.
pub proof fn lemma_followed_by_nothing<T, E>(rest: Result<Seq<T>, E>)
    ensures
        followed_by(Seq::empty(), rest) == rest,
{
    match rest {
        Ok(items) => assert(Seq::<T>::empty() + items =~= items),
        Err(_) => {},
    }
}

/// Taking the first item of the rest over to what is done changes nothing.
pub proof fn lemma_followed_by_next<T, E>(done: Seq<T>, next: T, rest: Result<Seq<T>, E>)
    ensures
        followed_by(done, followed_by(seq![next], rest)) == followed_by(done.push(next), rest),
{
    match rest {
        Ok(items) => assert(done + (seq![next] + items) =~= done.push(next) + items),
        Err(_) => {},
    }
}

/// What is done followed by an empty rest is what is done.
pub proof fn lemma_followed_by_end<T, E>(done: Seq<T>)
    ensures
        followed_by(done, Ok::<Seq<T>, E>(Seq::empty())) == Ok::<Seq<T>, E>(done),
{
    assert(done + Seq::<T>::empty() =~= done);
}

// ---------------------------------------------------------------------
// One peripheral
// ---------------------------------------------------------------------

/// The places held in a table of peripherals in progress, as mathematical
/// integers.
pub open spec fn indices(table: Seq<usize>) -> Seq<int> {
    Seq::new(table.len(), |i: int| table[i] as int)
}

/// Tells whether the peripheral at the given place is in the table.
pub fn is_visiting_peripheral(table: &Vec<usize>, p: usize) -> (found: bool)
    ensures
        found == indices(table@).contains(p as int),
{
    let mut i: usize = 0;
    while i < table.len()
        invariant
            i <= table.len(),
            forall|j: int| 0 <= j < i ==> indices(table@)[j] != p as int,
        decreases table.len() - i,
    {
        if table[i] == p {
            assert(indices(table@)[i as int] == p as int);
            return true;
        }
        i += 1;
    }
    false
}

/// An entry of the memo table: the place of a peripheral and its resolved
/// form.
pub struct SettledPeripheral {
    pub p: usize,
    pub peripheral: RawPeripheral,
}

/// Every entry of the memo table holds the resolved form of the entity
/// at its place.
pub open spec fn peripheral_memo_sound(
    device: RawDeviceView,
    memo: Seq<SettledPeripheral>,
) -> bool {
    forall|i: int|
        0 <= i < memo.len() ==> {
            let entry = #[trigger] memo[i];
            &&& is_peripheral(device, entry.p as int)
            &&& resolved_peripheral(device, entry.p as int, Seq::empty()) == Ok::<
                RawPeripheralView,
                ConversionErrorView,
            >(entry.peripheral.deep_view())
        }
}

/// Looks the peripheral at the given place up in the memo table.
pub fn find_settled_peripheral(memo: &Vec<SettledPeripheral>, p: usize) -> (found: Option<usize>)
    ensures
        match found {
            Some(at) => at < memo.len() && ({
                let entry = memo[at as int];
                entry.p == p
            }) && forall|j: int|
                0 <= j < at ==> !({
                    let entry = #[trigger] memo[j];
                    entry.p == p
                }),
            None => forall|j: int|
                0 <= j < memo.len() ==> !({
                    let entry = #[trigger] memo[j];
                    entry.p == p
                }),
        },
{
    let mut i: usize = 0;
    while i < memo.len()
        invariant
            i <= memo.len(),
            forall|j: int|
                0 <= j < i ==> !({
                    let entry = #[trigger] memo[j];
                    entry.p == p
                }),
        decreases memo.len() - i,
    {
        let entry = &memo[i];
        if entry.p == p {
            return Some(i);
        }
        i += 1;
    }
    None
}

/// Resolves the peripheral at the given place, once. `visiting` holds the
/// peripherals in progress, which lead to this one; it is left as it was
/// found. The resolved form is taken from the memo table where it is
/// there, and put there where it is not. Returns its place in the table.
fn settle_peripheral(
    device: &RawDevice,
    p: usize,
    visiting: &mut Vec<usize>,
    memo: &mut Vec<SettledPeripheral>,
) -> (outcome: Result<usize, ConversionError>)
    requires
        p < device.peripherals.len(),
        pending_peripherals(device.deep_view(), indices(old(visiting)@)),
        is_peripheral_chain(device.deep_view(), indices(old(visiting)@), p as int),
        peripheral_memo_sound(device.deep_view(), old(memo)@),
    ensures
        final(visiting)@ == old(visiting)@,
        peripheral_memo_sound(device.deep_view(), final(memo)@),
        match outcome {
            Ok(at) => at < final(memo).len() && resolved_peripheral(
                device.deep_view(),
                p as int,
                indices(old(visiting)@),
            ) == Ok::<RawPeripheralView, ConversionErrorView>(
                final(memo)[at as int].peripheral.deep_view(),
            ),
            Err(error) => resolved_peripheral(
                device.deep_view(),
                p as int,
                indices(old(visiting)@),
            ) == Err::<RawPeripheralView, ConversionErrorView>(error.deep_view()),
        },
    decreases peripheral_keys(device.deep_view()).to_set().len() - old(visiting).len(),
{
    let ghost view = device.deep_view();
    let ghost table = indices(visiting@);
    let ghost nothing = Seq::<int>::empty();
    assert(is_peripheral(view, p as int));
    match find_settled_peripheral(memo, p) {
        Some(at) => {
            proof {
                let entry = memo@[at as int];
                assert(resolved_peripheral(view, entry.p as int, nothing) is Ok);
                lemma_peripheral_behind_chain(view, p as int, table);
            }
            return Ok(at);
        },
        None => {},
    }
    let own = &device.peripherals[p];
    assert(view.peripherals[p as int] == own.deep_view());
    assert(pending_peripherals(view, nothing));
    match &own.derived_from {
        None => {
            let ghost before = memo@;
            memo.push(SettledPeripheral { p, peripheral: own.deep_copy() });
            assert(peripheral_memo_sound(view, memo@)) by {
                assert forall|i: int| 0 <= i < memo@.len() implies {
                    let entry = #[trigger] memo@[i];
                    &&& is_peripheral(view, entry.p as int)
                    &&& resolved_peripheral(view, entry.p as int, nothing) == Ok::<
                        RawPeripheralView,
                        ConversionErrorView,
                    >(entry.peripheral.deep_view())
                } by {
                    if i < before.len() {
                        assert(memo@[i] == before[i]);
                    }
                }
            }
            Ok(memo.len() - 1)
        },
        Some(reference) => {
            if is_visiting_peripheral(visiting, p) {
                Err(ConversionError::CyclicDerivation { path: own.name.clone() })
            } else {
                match resolve_peripheral_reference(device, reference) {
                    None => Err(
                        ConversionError::DanglingDerivation {
                            source: own.name.clone(),
                            reference: reference.clone(),
                        },
                    ),
                    Some(target) => {
                        proof {
                            lemma_pending_peripherals_push(view, table, p as int);
                            assert(peripheral_target(view, p as int) == Some(target as int));
                            lemma_peripheral_chain_push(view, p as int, table, target as int);
                        }
                        let ghost before = visiting@;
                        visiting.push(p);
                        assert(indices(visiting@) =~= table.push(p as int));
                        let below = settle_peripheral(device, target, visiting, memo);
                        visiting.pop();
                        assert(visiting@ =~= before);
                        match below {
                            Ok(at) => {
                                let mut merged = merge_peripheral(own, &memo[at].peripheral);
                                merged.derived_from = None;
                                proof {
                                    assert(resolved_peripheral(view, p as int, table) == Ok::<
                                        RawPeripheralView,
                                        ConversionErrorView,
                                    >(merged.deep_view()));
                                    assert(within(nothing, table));
                                    lemma_peripheral_with_fewer_in_progress(
                                        view,
                                        p as int,
                                        nothing,
                                        table,
                                    );
                                }
                                let ghost stored = memo@;
                                memo.push(SettledPeripheral { p, peripheral: merged });
                                assert(peripheral_memo_sound(view, memo@)) by {
                                    assert forall|i: int| 0 <= i < memo@.len() implies {
                                        let entry = #[trigger] memo@[i];
                                        &&& is_peripheral(view, entry.p as int)
                                        &&& resolved_peripheral(
                                            view,
                                            entry.p as int,
                                            nothing,
                                        ) == Ok::<
                                            RawPeripheralView,
                                            ConversionErrorView,
                                        >(entry.peripheral.deep_view())
                                    } by {
                                        if i < stored.len() {
                                            assert(memo@[i] == stored[i]);
                                        }
                                    }
                                }
                                Ok(memo.len() - 1)
                            },
                            Err(error) => Err(error),
                        }
                    },
                }
            }
        },
    }
}

/// Resolves the peripheral at the given place, following the chain of
/// references that starts at it.
pub fn resolve_peripheral(
    device: &RawDevice,
    p: usize,
) -> (outcome: Result<RawPeripheral, ConversionError>)
    requires
        p < device.peripherals.len(),
    ensures
        outcome_view(outcome) == resolved_peripheral(device.deep_view(), p as int, Seq::empty()),
{
    let mut visiting: Vec<usize> = Vec::new();
    let mut memo: Vec<SettledPeripheral> = Vec::new();
    assert(indices(visiting@) =~= Seq::empty());
    match settle_peripheral(device, p, &mut visiting, &mut memo) {
        Ok(at) => Ok(memo[at].peripheral.deep_copy()),
        Err(error) => Err(error),
    }
}

// ---------------------------------------------------------------------
// One register
// ---------------------------------------------------------------------

/// The places held in a table of registers in progress, as mathematical
/// integers.
pub open spec fn index_pairs(table: Seq<(usize, usize)>) -> Seq<(int, int)> {
    Seq::new(table.len(), |i: int| (table[i].0 as int, table[i].1 as int))
}

/// Tells whether the register at the given place is in the table.
pub fn is_visiting_register(table: &Vec<(usize, usize)>, p: usize, r: usize) -> (found: bool)
    ensures
        found == index_pairs(table@).contains((p as int, r as int)),
{
    let mut i: usize = 0;
    while i < table.len()
        invariant
            i <= table.len(),
            forall|j: int| 0 <= j < i ==> index_pairs(table@)[j] != (p as int, r as int),
        decreases table.len() - i,
    {
        if table[i].0 == p && table[i].1 == r {
            assert(index_pairs(table@)[i as int] == (p as int, r as int));
            return true;
        }
        i += 1;
    }
    false
}

/// An entry of the memo table: the place of a register and its resolved
/// form.
pub struct SettledRegister {
    pub p: usize,
    pub r: usize,
    pub register: RawRegister,
}

/// Every entry of the memo table holds the resolved form of the entity
/// at its place.
pub open spec fn register_memo_sound(device: RawDeviceView, memo: Seq<SettledRegister>) -> bool {
    forall|i: int|
        0 <= i < memo.len() ==> {
            let entry = #[trigger] memo[i];
            &&& is_register(device, entry.p as int, entry.r as int)
            &&& resolved_register(device, entry.p as int, entry.r as int, Seq::empty()) == Ok::<
                RawRegisterView,
                ConversionErrorView,
            >(entry.register.deep_view())
        }
}

/// Looks the register at the given place up in the memo table.
pub fn find_settled_register(
    memo: &Vec<SettledRegister>,
    p: usize,
    r: usize,
) -> (found: Option<usize>)
    ensures
        match found {
            Some(at) => at < memo.len() && ({
                let entry = memo[at as int];
                entry.p == p && entry.r == r
            }) && forall|j: int|
                0 <= j < at ==> !({
                    let entry = #[trigger] memo[j];
                    entry.p == p && entry.r == r
                }),
            None => forall|j: int|
                0 <= j < memo.len() ==> !({
                    let entry = #[trigger] memo[j];
                    entry.p == p && entry.r == r
                }),
        },
{
    let mut i: usize = 0;
    while i < memo.len()
        invariant
            i <= memo.len(),
            forall|j: int|
                0 <= j < i ==> !({
                    let entry = #[trigger] memo[j];
                    entry.p == p && entry.r == r
                }),
        decreases memo.len() - i,
    {
        let entry = &memo[i];
        if entry.p == p && entry.r == r {
            return Some(i);
        }
        i += 1;
    }
    None
}

/// Resolves the register at the given place, once. `visiting` holds the
/// registers in progress, which lead to this one; it is left as it was
/// found. The resolved form is taken from the memo table where it is
/// there, and put there where it is not. Returns its place in the table.
fn settle_register(
    device: &RawDevice,
    p: usize, r: usize,
    visiting: &mut Vec<(usize, usize)>,
    memo: &mut Vec<SettledRegister>,
) -> (outcome: Result<usize, ConversionError>)
    requires
        p < device.peripherals.len(),
        r < device.peripherals[p as int].registers.len(),
        pending_registers(device.deep_view(), index_pairs(old(visiting)@)),
        is_register_chain(device.deep_view(), index_pairs(old(visiting)@), (p as int, r as int)),
        register_memo_sound(device.deep_view(), old(memo)@),
    ensures
        final(visiting)@ == old(visiting)@,
        register_memo_sound(device.deep_view(), final(memo)@),
        match outcome {
            Ok(at) => at < final(memo).len() && resolved_register(
                device.deep_view(),
                p as int, r as int,
                index_pairs(old(visiting)@),
            ) == Ok::<RawRegisterView, ConversionErrorView>(
                final(memo)[at as int].register.deep_view(),
            ),
            Err(error) => resolved_register(
                device.deep_view(),
                p as int, r as int,
                index_pairs(old(visiting)@),
            ) == Err::<RawRegisterView, ConversionErrorView>(error.deep_view()),
        },
    decreases register_keys(device.deep_view()).to_set().len() - old(visiting).len(),
{
    let ghost view = device.deep_view();
    let ghost table = index_pairs(visiting@);
    let ghost nothing = Seq::<(int, int)>::empty();
    assert(is_register(view, p as int, r as int)) by {
        assert(view.peripherals[p as int].registers.len()
            == device.peripherals[p as int].registers.len());
    }
    match find_settled_register(memo, p, r) {
        Some(at) => {
            proof {
                let entry = memo@[at as int];
                assert(resolved_register(view, entry.p as int, entry.r as int, nothing) is Ok);
                lemma_register_behind_chain(view, p as int, r as int, table);
            }
            return Ok(at);
        },
        None => {},
    }
    let holder = &device.peripherals[p];
    let own = &holder.registers[r];
    assert(view.peripherals[p as int] == holder.deep_view());
    assert(holder.deep_view().registers[r as int] == own.deep_view());
    assert(pending_registers(view, nothing));
    match &own.derived_from {
        None => {
            let ghost before = memo@;
            memo.push(SettledRegister { p, r, register: own.deep_copy() });
            assert(register_memo_sound(view, memo@)) by {
                assert forall|i: int| 0 <= i < memo@.len() implies {
                    let entry = #[trigger] memo@[i];
                    &&& is_register(view, entry.p as int, entry.r as int)
                    &&& resolved_register(view, entry.p as int, entry.r as int, nothing) == Ok::<
                        RawRegisterView,
                        ConversionErrorView,
                    >(entry.register.deep_view())
                } by {
                    if i < before.len() {
                        assert(memo@[i] == before[i]);
                    }
                }
            }
            Ok(memo.len() - 1)
        },
        Some(reference) => {
            if is_visiting_register(visiting, p, r) {
                Err(ConversionError::CyclicDerivation { path: join_path(&holder.name, &own.name) })
            } else {
                match resolve_register_reference(device, p, reference) {
                    None => Err(
                        ConversionError::DanglingDerivation {
                            source: join_path(&holder.name, &own.name),
                            reference: reference.clone(),
                        },
                    ),
                    Some((q, s)) => {
                        proof {
                            lemma_pending_registers_push(view, table, p as int, r as int);
                            assert(
                                register_target(
                                    view,
                                    p as int,
                                    r as int,
                                ) == Some((q as int, s as int))
                            );
                            lemma_register_chain_push(
                                view,
                                p as int,
                                r as int,
                                table,
                                (q as int, s as int),
                            );
                        }
                        let ghost before = visiting@;
                        visiting.push((p, r));
                        assert(index_pairs(visiting@) =~= table.push((p as int, r as int)));
                        let below = settle_register(device, q, s, visiting, memo);
                        visiting.pop();
                        assert(visiting@ =~= before);
                        match below {
                            Ok(at) => {
                                let mut merged = merge_register(own, &memo[at].register);
                                merged.derived_from = None;
                                proof {
                                    assert(resolved_register(
                                        view,
                                        p as int,
                                        r as int,
                                        table,
                                    ) == Ok::<
                                        RawRegisterView,
                                        ConversionErrorView,
                                    >(merged.deep_view()));
                                    assert(within(nothing, table));
                                    lemma_register_with_fewer_in_progress(
                                        view,
                                        p as int, r as int,
                                        nothing,
                                        table,
                                    );
                                }
                                let ghost stored = memo@;
                                memo.push(SettledRegister { p, r, register: merged });
                                assert(register_memo_sound(view, memo@)) by {
                                    assert forall|i: int| 0 <= i < memo@.len() implies {
                                        let entry = #[trigger] memo@[i];
                                        &&& is_register(view, entry.p as int, entry.r as int)
                                        &&& resolved_register(
                                            view,
                                            entry.p as int,
                                            entry.r as int,
                                            nothing,
                                        ) == Ok::<
                                            RawRegisterView,
                                            ConversionErrorView,
                                        >(entry.register.deep_view())
                                    } by {
                                        if i < stored.len() {
                                            assert(memo@[i] == stored[i]);
                                        }
                                    }
                                }
                                Ok(memo.len() - 1)
                            },
                            Err(error) => Err(error),
                        }
                    },
                }
            }
        },
    }
}

/// Resolves the register at the given place, following the chain of
/// references that starts at it.
pub fn resolve_register(
    device: &RawDevice,
    p: usize,
    r: usize,
) -> (outcome: Result<RawRegister, ConversionError>)
    requires
        p < device.peripherals.len(),
        r < device.peripherals[p as int].registers.len(),
    ensures
        outcome_view(outcome) == resolved_register(
            device.deep_view(),
            p as int,
            r as int,
            Seq::empty(),
        ),
{
    let mut visiting: Vec<(usize, usize)> = Vec::new();
    let mut memo: Vec<SettledRegister> = Vec::new();
    assert(index_pairs(visiting@) =~= Seq::empty());
    match settle_register(device, p, r, &mut visiting, &mut memo) {
        Ok(at) => Ok(memo[at].register.deep_copy()),
        Err(error) => Err(error),
    }
}

// ---------------------------------------------------------------------
// One field
// ---------------------------------------------------------------------

/// The places held in a table of fields in progress, as mathematical
/// integers.
pub open spec fn index_triples(table: Seq<(usize, usize, usize)>) -> Seq<(int, int, int)> {
    Seq::new(table.len(), |i: int| (table[i].0 as int, table[i].1 as int, table[i].2 as int))
}

/// Tells whether the field at the given place is in the table.
pub fn is_visiting_field(
    table: &Vec<(usize, usize, usize)>,
    p: usize,
    r: usize,
    f: usize,
) -> (found: bool)
    ensures
        found == index_triples(table@).contains((p as int, r as int, f as int)),
{
    let mut i: usize = 0;
    while i < table.len()
        invariant
            i <= table.len(),
            forall|j: int| 0 <= j < i ==> index_triples(table@)[j] != (
                p as int,
                r as int,
                f as int,
            ),
        decreases table.len() - i,
    {
        if table[i].0 == p && table[i].1 == r && table[i].2 == f {
            assert(index_triples(table@)[i as int] == (p as int, r as int, f as int));
            return true;
        }
        i += 1;
    }
    false
}

/// An entry of the memo table: the place of a field and its resolved
/// form.
pub struct SettledField {
    pub p: usize,
    pub r: usize,
    pub f: usize,
    pub field: RawField,
}

/// Every entry of the memo table holds the resolved form of the entity
/// at its place.
pub open spec fn field_memo_sound(device: RawDeviceView, memo: Seq<SettledField>) -> bool {
    forall|i: int|
        0 <= i < memo.len() ==> {
            let entry = #[trigger] memo[i];
            &&& is_field(device, entry.p as int, entry.r as int, entry.f as int)
            &&& resolved_field(
                device,
                entry.p as int,
                entry.r as int,
                entry.f as int,
                Seq::empty(),
            ) == Ok::<
                RawFieldView,
                ConversionErrorView,
            >(entry.field.deep_view())
        }
}

/// Looks the field at the given place up in the memo table.
pub fn find_settled_field(
    memo: &Vec<SettledField>,
    p: usize,
    r: usize,
    f: usize,
) -> (found: Option<usize>)
    ensures
        match found {
            Some(at) => at < memo.len() && ({
                let entry = memo[at as int];
                entry.p == p && entry.r == r && entry.f == f
            }) && forall|j: int|
                0 <= j < at ==> !({
                    let entry = #[trigger] memo[j];
                    entry.p == p && entry.r == r && entry.f == f
                }),
            None => forall|j: int|
                0 <= j < memo.len() ==> !({
                    let entry = #[trigger] memo[j];
                    entry.p == p && entry.r == r && entry.f == f
                }),
        },
{
    let mut i: usize = 0;
    while i < memo.len()
        invariant
            i <= memo.len(),
            forall|j: int|
                0 <= j < i ==> !({
                    let entry = #[trigger] memo[j];
                    entry.p == p && entry.r == r && entry.f == f
                }),
        decreases memo.len() - i,
    {
        let entry = &memo[i];
        if entry.p == p && entry.r == r && entry.f == f {
            return Some(i);
        }
        i += 1;
    }
    None
}

/// Resolves the field at the given place, once. `visiting` holds the
/// fields in progress, which lead to this one; it is left as it was
/// found. The resolved form is taken from the memo table where it is
/// there, and put there where it is not. Returns its place in the table.
fn settle_field(
    device: &RawDevice,
    p: usize, r: usize, f: usize,
    visiting: &mut Vec<(usize, usize, usize)>,
    memo: &mut Vec<SettledField>,
) -> (outcome: Result<usize, ConversionError>)
    requires
        p < device.peripherals.len(),
        r < device.peripherals[p as int].registers.len(),
        f < device.peripherals[p as int].registers[r as int].fields.len(),
        pending_fields(device.deep_view(), index_triples(old(visiting)@)),
        is_field_chain(
            device.deep_view(),
            index_triples(old(visiting)@),
            (p as int, r as int, f as int),
        ),
        field_memo_sound(device.deep_view(), old(memo)@),
    ensures
        final(visiting)@ == old(visiting)@,
        field_memo_sound(device.deep_view(), final(memo)@),
        match outcome {
            Ok(at) => at < final(memo).len() && resolved_field(
                device.deep_view(),
                p as int, r as int, f as int,
                index_triples(old(visiting)@),
            ) == Ok::<RawFieldView, ConversionErrorView>(
                final(memo)[at as int].field.deep_view(),
            ),
            Err(error) => resolved_field(
                device.deep_view(),
                p as int, r as int, f as int,
                index_triples(old(visiting)@),
            ) == Err::<RawFieldView, ConversionErrorView>(error.deep_view()),
        },
    decreases field_keys(device.deep_view()).to_set().len() - old(visiting).len(),
{
    let ghost view = device.deep_view();
    let ghost table = index_triples(visiting@);
    let ghost nothing = Seq::<(int, int, int)>::empty();
    assert(is_field(view, p as int, r as int, f as int)) by {
        assert(view.peripherals[p as int].registers.len()
            == device.peripherals[p as int].registers.len());
        assert(view.peripherals[p as int].registers[r as int].fields.len()
            == device.peripherals[p as int].registers[r as int].fields.len());
    }
    match find_settled_field(memo, p, r, f) {
        Some(at) => {
            proof {
                let entry = memo@[at as int];
                assert(
                    resolved_field(
                        view,
                        entry.p as int,
                        entry.r as int,
                        entry.f as int,
                        nothing,
                    ) is Ok
                );
                lemma_field_behind_chain(view, p as int, r as int, f as int, table);
            }
            return Ok(at);
        },
        None => {},
    }
    let holder = &device.peripherals[p];
    let register = &holder.registers[r];
    let own = &register.fields[f];
    assert(view.peripherals[p as int] == holder.deep_view());
    assert(holder.deep_view().registers[r as int] == register.deep_view());
    assert(register.deep_view().fields[f as int] == own.deep_view());
    assert(pending_fields(view, nothing));
    match &own.derived_from {
        None => {
            let ghost before = memo@;
            memo.push(SettledField { p, r, f, field: own.deep_copy() });
            assert(field_memo_sound(view, memo@)) by {
                assert forall|i: int| 0 <= i < memo@.len() implies {
                    let entry = #[trigger] memo@[i];
                    &&& is_field(view, entry.p as int, entry.r as int, entry.f as int)
                    &&& resolved_field(
                        view,
                        entry.p as int,
                        entry.r as int,
                        entry.f as int,
                        nothing,
                    ) == Ok::<
                        RawFieldView,
                        ConversionErrorView,
                    >(entry.field.deep_view())
                } by {
                    if i < before.len() {
                        assert(memo@[i] == before[i]);
                    }
                }
            }
            Ok(memo.len() - 1)
        },
        Some(reference) => {
            if is_visiting_field(visiting, p, r, f) {
                Err(
                    ConversionError::CyclicDerivation { path: join_path(
                        &join_path(&holder.name, &register.name),
                        &own.name,
                    ) }
                )
            } else {
                match resolve_field_reference(device, p, r, reference) {
                    None => Err(
                        ConversionError::DanglingDerivation {
                            source: join_path(&join_path(&holder.name, &register.name), &own.name),
                            reference: reference.clone(),
                        },
                    ),
                    Some((q, s, g)) => {
                        proof {
                            lemma_pending_fields_push(view, table, p as int, r as int, f as int);
                            assert(
                                field_target(
                                    view,
                                    p as int,
                                    r as int,
                                    f as int,
                                ) == Some((q as int, s as int, g as int))
                            );
                            lemma_field_chain_push(
                                view,
                                p as int,
                                r as int,
                                f as int,
                                table,
                                (q as int, s as int, g as int),
                            );
                        }
                        let ghost before = visiting@;
                        visiting.push((p, r, f));
                        assert(
                            index_triples(visiting@) =~= table.push((p as int, r as int, f as int))
                        );
                        let below = settle_field(device, q, s, g, visiting, memo);
                        visiting.pop();
                        assert(visiting@ =~= before);
                        match below {
                            Ok(at) => {
                                let mut merged = merge_field(own, &memo[at].field);
                                merged.derived_from = None;
                                proof {
                                    assert(resolved_field(
                                        view,
                                        p as int,
                                        r as int,
                                        f as int,
                                        table,
                                    ) == Ok::<
                                        RawFieldView,
                                        ConversionErrorView,
                                    >(merged.deep_view()));
                                    assert(within(nothing, table));
                                    lemma_field_with_fewer_in_progress(
                                        view,
                                        p as int, r as int, f as int,
                                        nothing,
                                        table,
                                    );
                                }
                                let ghost stored = memo@;
                                memo.push(SettledField { p, r, f, field: merged });
                                assert(field_memo_sound(view, memo@)) by {
                                    assert forall|i: int| 0 <= i < memo@.len() implies {
                                        let entry = #[trigger] memo@[i];
                                        &&& is_field(
                                            view,
                                            entry.p as int,
                                            entry.r as int,
                                            entry.f as int,
                                        )
                                        &&& resolved_field(
                                            view,
                                            entry.p as int,
                                            entry.r as int,
                                            entry.f as int,
                                            nothing,
                                        ) == Ok::<
                                            RawFieldView,
                                            ConversionErrorView,
                                        >(entry.field.deep_view())
                                    } by {
                                        if i < stored.len() {
                                            assert(memo@[i] == stored[i]);
                                        }
                                    }
                                }
                                Ok(memo.len() - 1)
                            },
                            Err(error) => Err(error),
                        }
                    },
                }
            }
        },
    }
}

/// Resolves the field at the given place, following the chain of
/// references that starts at it.
pub fn resolve_field(
    device: &RawDevice,
    p: usize,
    r: usize,
    f: usize,
) -> (outcome: Result<RawField, ConversionError>)
    requires
        p < device.peripherals.len(),
        r < device.peripherals[p as int].registers.len(),
        f < device.peripherals[p as int].registers[r as int].fields.len(),
    ensures
        outcome_view(outcome) == resolved_field(
            device.deep_view(),
            p as int,
            r as int,
            f as int,
            Seq::empty(),
        ),
{
    let mut visiting: Vec<(usize, usize, usize)> = Vec::new();
    let mut memo: Vec<SettledField> = Vec::new();
    assert(index_triples(visiting@) =~= Seq::empty());
    match settle_field(device, p, r, f, &mut visiting, &mut memo) {
        Ok(at) => Ok(memo[at].field.deep_copy()),
        Err(error) => Err(error),
    }
}

// ---------------------------------------------------------------------
// The level of the peripherals
// ---------------------------------------------------------------------

/// A copy of the device with `peripherals` in place of its own.
pub fn with_peripherals(device: &RawDevice, peripherals: Vec<RawPeripheral>) -> (copy: RawDevice)
    ensures
        copy.deep_view() == (RawDeviceView {
            peripherals: peripherals.deep_view(),
            ..device.deep_view()
        }),
{
    RawDevice {
        name: device.name.clone(),
        vendor: copy_text(&device.vendor),
        vendor_id: copy_text(&device.vendor_id),
        series: copy_text(&device.series),
        version: copy_text(&device.version),
        description: copy_text(&device.description),
        cpu: copy_optional(&device.cpu),
        peripherals,
        interrupts: copy_all(&device.interrupts),
        header_definitions_prefix: copy_text(&device.header_definitions_prefix),
        license_text: copy_text(&device.license_text),
        tool_version: copy_text(&device.tool_version),
        generated_date: copy_text(&device.generated_date),
    }
}

/// Resolves the references between peripherals.
pub fn resolve_peripherals(device: &RawDevice) -> (outcome: Result<RawDevice, ConversionError>)
    ensures
        outcome_view(outcome) == peripherals_resolved(device.deep_view()),
{
    let ghost view = device.deep_view();
    let mut resolved: Vec<RawPeripheral> = Vec::new();
    let mut visiting: Vec<usize> = Vec::new();
    let mut memo: Vec<SettledPeripheral> = Vec::new();
    let mut p: usize = 0;
    proof {
        assert(resolved.deep_view() =~= Seq::empty());
        lemma_followed_by_nothing(resolved_peripherals_from(view, 0));
    }
    while p < device.peripherals.len()
        invariant
            p <= device.peripherals.len(),
            view == device.deep_view(),
            visiting@.len() == 0,
            peripheral_memo_sound(view, memo@),
            resolved_peripherals_from(view, 0) == followed_by(
                resolved.deep_view(),
                resolved_peripherals_from(view, p as int),
            ),
        decreases device.peripherals.len() - p,
    {
        assert(indices(visiting@) =~= Seq::empty());
        match settle_peripheral(device, p, &mut visiting, &mut memo) {
            Ok(at) => {
                let peripheral = memo[at].peripheral.deep_copy();
                let ghost before = resolved.deep_view();
                resolved.push(peripheral);
                proof {
                    assert(resolved.deep_view() =~= before.push(peripheral.deep_view()));
                    lemma_followed_by_next(
                        before,
                        peripheral.deep_view(),
                        resolved_peripherals_from(view, p + 1),
                    );
                }
            },
            Err(error) => {
                return Err(error);
            },
        }
        p += 1;
    }
    proof {
        lemma_followed_by_end::<RawPeripheralView, ConversionErrorView>(resolved.deep_view());
    }
    Ok(with_peripherals(device, resolved))
}

// ---------------------------------------------------------------------
// The level of the registers
// ---------------------------------------------------------------------

/// A copy of the peripheral with `registers` in place of its own.
pub fn with_registers(peripheral: &RawPeripheral, registers: Vec<RawRegister>) -> (copy:
    RawPeripheral)
    ensures
        copy.deep_view() == (RawPeripheralView {
            registers: registers.deep_view(),
            ..peripheral.deep_view()
        }),
{
    RawPeripheral {
        name: peripheral.name.clone(),
        derived_from: copy_text(&peripheral.derived_from),
        display_name: copy_text(&peripheral.display_name),
        version: copy_text(&peripheral.version),
        description: copy_text(&peripheral.description),
        group_name: copy_text(&peripheral.group_name),
        alternate_peripheral: copy_text(&peripheral.alternate_peripheral),
        base_address: peripheral.base_address,
        prepend_to_name: copy_text(&peripheral.prepend_to_name),
        registers,
        interrupts: copy_all(&peripheral.interrupts),
    }
}

/// Resolves the registers of peripheral `p`, with the memo table of the
/// level.
fn settle_registers_of(device: &RawDevice, p: usize, memo: &mut Vec<SettledRegister>) -> (outcome:
    Result<RawPeripheral, ConversionError>)
    requires
        p < device.peripherals.len(),
        register_memo_sound(device.deep_view(), old(memo)@),
    ensures
        register_memo_sound(device.deep_view(), final(memo)@),
        outcome_view(outcome) == peripheral_with_resolved_registers(device.deep_view(), p as int),
{
    let ghost view = device.deep_view();
    let holder = &device.peripherals[p];
    assert(view.peripherals[p as int] == holder.deep_view());
    let mut resolved: Vec<RawRegister> = Vec::new();
    let mut visiting: Vec<(usize, usize)> = Vec::new();
    let mut r: usize = 0;
    proof {
        assert(resolved.deep_view() =~= Seq::empty());
        lemma_followed_by_nothing(resolved_registers_from(view, p as int, 0));
    }
    while r < holder.registers.len()
        invariant
            p < device.peripherals.len(),
            holder == &device.peripherals[p as int],
            r <= holder.registers.len(),
            view == device.deep_view(),
            view.peripherals[p as int] == holder.deep_view(),
            visiting@.len() == 0,
            register_memo_sound(view, memo@),
            resolved_registers_from(view, p as int, 0) == followed_by(
                resolved.deep_view(),
                resolved_registers_from(view, p as int, r as int),
            ),
        decreases holder.registers.len() - r,
    {
        assert(index_pairs(visiting@) =~= Seq::empty());
        match settle_register(device, p, r, &mut visiting, memo) {
            Ok(at) => {
                let register = memo[at].register.deep_copy();
                let ghost before = resolved.deep_view();
                resolved.push(register);
                proof {
                    assert(resolved.deep_view() =~= before.push(register.deep_view()));
                    lemma_followed_by_next(
                        before,
                        register.deep_view(),
                        resolved_registers_from(view, p as int, r + 1),
                    );
                }
            },
            Err(error) => {
                return Err(error);
            },
        }
        r += 1;
    }
    proof {
        lemma_followed_by_end::<RawRegisterView, ConversionErrorView>(resolved.deep_view());
    }
    Ok(with_registers(holder, resolved))
}

/// Resolves the references between registers.
pub fn resolve_registers(device: &RawDevice) -> (outcome: Result<RawDevice, ConversionError>)
    ensures
        outcome_view(outcome) == registers_resolved(device.deep_view()),
{
    let ghost view = device.deep_view();
    let mut resolved: Vec<RawPeripheral> = Vec::new();
    let mut memo: Vec<SettledRegister> = Vec::new();
    let mut p: usize = 0;
    proof {
        assert(resolved.deep_view() =~= Seq::empty());
        lemma_followed_by_nothing(register_level_from(view, 0));
    }
    while p < device.peripherals.len()
        invariant
            p <= device.peripherals.len(),
            view == device.deep_view(),
            register_memo_sound(view, memo@),
            register_level_from(view, 0) == followed_by(
                resolved.deep_view(),
                register_level_from(view, p as int),
            ),
        decreases device.peripherals.len() - p,
    {
        match settle_registers_of(device, p, &mut memo) {
            Ok(peripheral) => {
                let ghost before = resolved.deep_view();
                resolved.push(peripheral);
                proof {
                    assert(resolved.deep_view() =~= before.push(peripheral.deep_view()));
                    lemma_followed_by_next(
                        before,
                        peripheral.deep_view(),
                        register_level_from(view, p + 1),
                    );
                }
            },
            Err(error) => {
                return Err(error);
            },
        }
        p += 1;
    }
    proof {
        lemma_followed_by_end::<RawPeripheralView, ConversionErrorView>(resolved.deep_view());
    }
    Ok(with_peripherals(device, resolved))
}

// ---------------------------------------------------------------------
// The level of the fields
// ---------------------------------------------------------------------

/// A copy of the register with `fields` in place of its own.
pub fn with_fields(register: &RawRegister, fields: Vec<RawField>) -> (copy: RawRegister)
    ensures
        copy.deep_view() == (RawRegisterView {
            fields: fields.deep_view(),
            ..register.deep_view()
        }),
{
    RawRegister {
        name: register.name.clone(),
        derived_from: copy_text(&register.derived_from),
        display_name: copy_text(&register.display_name),
        description: copy_text(&register.description),
        address_offset: register.address_offset,
        size: register.size,
        access: register.access,
        reset_value: register.reset_value,
        reset_mask: register.reset_mask,
        alternate_group: copy_text(&register.alternate_group),
        alternate_register: copy_text(&register.alternate_register),
        fields,
    }
}

/// Resolves the fields of register `r` of peripheral `p`, with the memo
/// table of the level.
fn settle_fields_of_register(
    device: &RawDevice,
    p: usize,
    r: usize,
    memo: &mut Vec<SettledField>,
) -> (outcome: Result<RawRegister, ConversionError>)
    requires
        p < device.peripherals.len(),
        r < device.peripherals[p as int].registers.len(),
        field_memo_sound(device.deep_view(), old(memo)@),
    ensures
        field_memo_sound(device.deep_view(), final(memo)@),
        outcome_view(outcome) == register_with_resolved_fields(
            device.deep_view(),
            p as int,
            r as int,
        ),
{
    let ghost view = device.deep_view();
    let holder = &device.peripherals[p];
    let register = &holder.registers[r];
    assert(view.peripherals[p as int] == holder.deep_view());
    assert(holder.deep_view().registers[r as int] == register.deep_view());
    let mut resolved: Vec<RawField> = Vec::new();
    let mut visiting: Vec<(usize, usize, usize)> = Vec::new();
    let mut f: usize = 0;
    proof {
        assert(resolved.deep_view() =~= Seq::empty());
        lemma_followed_by_nothing(resolved_fields_from(view, p as int, r as int, 0));
    }
    while f < register.fields.len()
        invariant
            p < device.peripherals.len(),
            r < device.peripherals[p as int].registers.len(),
            register == &device.peripherals[p as int].registers[r as int],
            f <= register.fields.len(),
            view == device.deep_view(),
            view.peripherals[p as int].registers[r as int] == register.deep_view(),
            visiting@.len() == 0,
            field_memo_sound(view, memo@),
            resolved_fields_from(view, p as int, r as int, 0) == followed_by(
                resolved.deep_view(),
                resolved_fields_from(view, p as int, r as int, f as int),
            ),
        decreases register.fields.len() - f,
    {
        assert(index_triples(visiting@) =~= Seq::empty());
        match settle_field(device, p, r, f, &mut visiting, memo) {
            Ok(at) => {
                let field = memo[at].field.deep_copy();
                let ghost before = resolved.deep_view();
                resolved.push(field);
                proof {
                    assert(resolved.deep_view() =~= before.push(field.deep_view()));
                    lemma_followed_by_next(
                        before,
                        field.deep_view(),
                        resolved_fields_from(view, p as int, r as int, f + 1),
                    );
                }
            },
            Err(error) => {
                return Err(error);
            },
        }
        f += 1;
    }
    proof {
        lemma_followed_by_end::<RawFieldView, ConversionErrorView>(resolved.deep_view());
    }
    Ok(with_fields(register, resolved))
}

/// Resolves the fields of every register of peripheral `p`, with the
/// memo table of the level.
fn settle_fields_of_peripheral(device: &RawDevice, p: usize, memo: &mut Vec<SettledField>)
    -> (outcome: Result<RawPeripheral, ConversionError>)
    requires
        p < device.peripherals.len(),
        field_memo_sound(device.deep_view(), old(memo)@),
    ensures
        field_memo_sound(device.deep_view(), final(memo)@),
        outcome_view(outcome) == peripheral_with_resolved_fields(device.deep_view(), p as int),
{
    let ghost view = device.deep_view();
    let holder = &device.peripherals[p];
    assert(view.peripherals[p as int] == holder.deep_view());
    let mut resolved: Vec<RawRegister> = Vec::new();
    let mut r: usize = 0;
    proof {
        assert(resolved.deep_view() =~= Seq::empty());
        lemma_followed_by_nothing(field_level_registers_from(view, p as int, 0));
    }
    while r < holder.registers.len()
        invariant
            p < device.peripherals.len(),
            holder == &device.peripherals[p as int],
            r <= holder.registers.len(),
            view == device.deep_view(),
            view.peripherals[p as int] == holder.deep_view(),
            field_memo_sound(view, memo@),
            field_level_registers_from(view, p as int, 0) == followed_by(
                resolved.deep_view(),
                field_level_registers_from(view, p as int, r as int),
            ),
        decreases holder.registers.len() - r,
    {
        match settle_fields_of_register(device, p, r, memo) {
            Ok(register) => {
                let ghost before = resolved.deep_view();
                resolved.push(register);
                proof {
                    assert(resolved.deep_view() =~= before.push(register.deep_view()));
                    lemma_followed_by_next(
                        before,
                        register.deep_view(),
                        field_level_registers_from(view, p as int, r + 1),
                    );
                }
            },
            Err(error) => {
                return Err(error);
            },
        }
        r += 1;
    }
    proof {
        lemma_followed_by_end::<RawRegisterView, ConversionErrorView>(resolved.deep_view());
    }
    Ok(with_registers(holder, resolved))
}

/// Resolves the references between fields.
pub fn resolve_fields(device: &RawDevice) -> (outcome: Result<RawDevice, ConversionError>)
    ensures
        outcome_view(outcome) == fields_resolved(device.deep_view()),
{
    let ghost view = device.deep_view();
    let mut resolved: Vec<RawPeripheral> = Vec::new();
    let mut memo: Vec<SettledField> = Vec::new();
    let mut p: usize = 0;
    proof {
        assert(resolved.deep_view() =~= Seq::empty());
        lemma_followed_by_nothing(field_level_from(view, 0));
    }
    while p < device.peripherals.len()
        invariant
            p <= device.peripherals.len(),
            view == device.deep_view(),
            field_memo_sound(view, memo@),
            field_level_from(view, 0) == followed_by(
                resolved.deep_view(),
                field_level_from(view, p as int),
            ),
        decreases device.peripherals.len() - p,
    {
        match settle_fields_of_peripheral(device, p, &mut memo) {
            Ok(peripheral) => {
                let ghost before = resolved.deep_view();
                resolved.push(peripheral);
                proof {
                    assert(resolved.deep_view() =~= before.push(peripheral.deep_view()));
                    lemma_followed_by_next(
                        before,
                        peripheral.deep_view(),
                        field_level_from(view, p + 1),
                    );
                }
            },
            Err(error) => {
                return Err(error);
            },
        }
        p += 1;
    }
    proof {
        lemma_followed_by_end::<RawPeripheralView, ConversionErrorView>(resolved.deep_view());
    }
    Ok(with_peripherals(device, resolved))
}

// ---------------------------------------------------------------------
// The whole device
// ---------------------------------------------------------------------

/// Resolves every reference of the device and returns the resolved tree.
/// The device itself is left untouched.
pub fn resolve_device(device: &RawDevice) -> (outcome: Result<RawDevice, ConversionError>)
    ensures
        outcome_view(outcome) == resolved_device(device.deep_view()),
{
    match resolve_peripherals(device) {
        Err(error) => Err(error),
        Ok(first) => match resolve_registers(&first) {
            Err(error) => Err(error),
            Ok(second) => resolve_fields(&second),
        },
    }
}

} // verus!
