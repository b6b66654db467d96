//! The name resolver: finds the entity that a name or a dotted path refers
//! to, seen from the entity that holds the reference.
//!
//! A reference of one part names a sibling of the entity that holds it. Each
//! further part in front re-scopes the search one level up, so that a
//! reference with as many parts as the entity's own qualified path is
//! absolute. A reference with more parts than that names nothing. Names are
//! compared exactly, and where a name occurs twice in a scope the first
//! entity that carries it is meant.

use vstd::prelude::*;
use vstd::string::StrSliceExecFns;
use crate::raw::{RawDevice, RawDeviceView, RawField, RawPeripheral, RawRegister};

verus! {

/// `i` is the first place at which `x` occurs in `s`.
pub open spec fn is_first_occurrence<T>(s: Seq<T>, x: T, i: int) -> bool {
    &&& 0 <= i < s.len()
    &&& s[i] == x
    &&& forall|j: int| 0 <= j < i ==> s[j] != x
}

/// The first place at which `x` occurs in `s`, if it occurs at all.
pub open spec fn first_index<T>(s: Seq<T>, x: T) -> Option<int> {
    if exists|i: int| is_first_occurrence(s, x, i) {
        Some(choose|i: int| is_first_occurrence(s, x, i))
    } else {
        None
    }
}

pub proof fn lemma_first_index_found<T>(s: Seq<T>, x: T, i: int)
    requires
        is_first_occurrence(s, x, i),
    ensures
        first_index(s, x) == Some(i),
{
    let k = choose|k: int| is_first_occurrence(s, x, k);
    assert(is_first_occurrence(s, x, k));
    if k < i {
        assert(s[k] != x);
    } else if i < k {
        assert(s[i] != x);
    }
}

pub proof fn lemma_first_index_absent<T>(s: Seq<T>, x: T)
    requires
        forall|j: int| 0 <= j < s.len() ==> s[j] != x,
    ensures
        first_index(s, x) is None,
{
}

/// What `first_index` returns is in range and is a first occurrence; it
/// returns nothing exactly when `x` does not occur.
pub proof fn lemma_first_index<T>(s: Seq<T>, x: T)
    ensures
        match first_index(s, x) {
            Some(i) => is_first_occurrence(s, x, i),
            None => !s.contains(x),
        },
{
    if first_index(s, x) is None {
        if s.contains(x) {
            lemma_occurrence_has_first(s, x, s.len() as int);
        }
    }
}

proof fn lemma_occurrence_has_first<T>(s: Seq<T>, x: T, n: int)
    requires
        0 <= n <= s.len(),
        exists|j: int| 0 <= j < n && s[j] == x,
    ensures
        exists|i: int| is_first_occurrence(s, x, i),
    decreases n,
{
    if exists|j: int| 0 <= j < n - 1 && s[j] == x {
        lemma_occurrence_has_first(s, x, n - 1);
    } else {
        assert(s[n - 1] == x);
        assert(is_first_occurrence(s, x, n - 1));
    }
}

/// The parts of a dotted path: the maximal stretches between its dots.
pub open spec fn split_path(path: Seq<char>) -> Seq<Seq<char>>
    decreases path.len(),
{
    match first_index(path, '.') {
        None => seq![path],
        Some(i) => if 0 <= i < path.len() {
            seq![path.take(i)] + split_path(path.skip(i + 1))
        } else {
            seq![path]
        },
    }
}

/// Splits a dotted path into its parts.
pub fn split_reference(path: &str) -> (parts: Vec<String>)
    ensures
        parts.deep_view() == split_path(path@),
{
    let n = path.unicode_len();
    let mut parts: Vec<String> = Vec::new();
    let mut start: usize = 0;
    let mut i: usize = 0;
    proof {
        assert(path@.skip(0) =~= path@);
        assert(parts.deep_view() + split_path(path@) =~= split_path(path@));
    }
    while i < n
        invariant
            n == path@.len(),
            start <= i <= n,
            forall|j: int| start <= j < i ==> path@[j] != '.',
            split_path(path@) == parts.deep_view() + split_path(path@.skip(start as int)),
        decreases n - i,
    {
        let c = path.get_char(i);
        if c == '.' {
            let part = path.substring_char(start, i).to_owned();
            proof {
                let rest = path@.skip(start as int);
                let at = i - start;
                assert(is_first_occurrence(rest, '.', at));
                lemma_first_index_found(rest, '.', at);
                assert(rest.take(at) =~= path@.subrange(start as int, i as int));
                assert(rest.skip(at + 1) =~= path@.skip(i + 1));
                let before = parts.deep_view();
                assert(before.push(part@) + split_path(path@.skip(i + 1)) =~= before + split_path(
                    rest,
                ));
            }
            let ghost before = parts.deep_view();
            parts.push(part);
            assert(parts.deep_view() =~= before.push(part@));
            start = i + 1;
        }
        i += 1;
    }
    let last = path.substring_char(start, n).to_owned();
    proof {
        let rest = path@.skip(start as int);
        lemma_first_index_absent(rest, '.');
        assert(rest =~= path@.subrange(start as int, n as int));
    }
    let ghost before = parts.deep_view();
    parts.push(last);
    assert(parts.deep_view() =~= before.push(last@));
    assert(before.push(last@) =~= before + seq![last@]);
    parts
}

/// An entity that carries a name.
pub trait Named {
    spec fn name_view(&self) -> Seq<char>;

    fn name(&self) -> (name: &String)
        ensures
            name@ == self.name_view(),
    ;
}

impl Named for RawPeripheral {
    open spec fn name_view(&self) -> Seq<char> {
        self.name@
    }

    fn name(&self) -> (name: &String) {
        &self.name
    }
}

impl Named for RawRegister {
    open spec fn name_view(&self) -> Seq<char> {
        self.name@
    }

    fn name(&self) -> (name: &String) {
        &self.name
    }
}

impl Named for RawField {
    open spec fn name_view(&self) -> Seq<char> {
        self.name@
    }

    fn name(&self) -> (name: &String) {
        &self.name
    }
}

/// The names of a list of entities, in order.
pub open spec fn names_of<T: Named>(list: Seq<T>) -> Seq<Seq<char>> {
    Seq::new(list.len(), |i: int| list[i].name_view())
}

/// Finds the first entity of `list` that carries `name`.
pub fn find_named<T: Named>(list: &Vec<T>, name: &String) -> (found: Option<usize>)
    ensures
        match found {
            Some(i) => first_index(names_of(list@), name@) == Some(i as int),
            None => first_index(names_of(list@), name@) is None,
        },
{
    let mut i: usize = 0;
    while i < list.len()
        invariant
            i <= list.len(),
            forall|j: int| 0 <= j < i ==> names_of(list@)[j] != name@,
        decreases list.len() - i,
    {
        if *list[i].name() == *name {
            proof {
                assert(names_of(list@)[i as int] == name@);
                lemma_first_index_found(names_of(list@), name@, i as int);
            }
            return Some(i);
        }
        i += 1;
    }
    proof {
        lemma_first_index_absent(names_of(list@), name@);
    }
    None
}

/// The names of the device's peripherals.
pub open spec fn peripheral_names(device: RawDeviceView) -> Seq<Seq<char>> {
    Seq::new(device.peripherals.len(), |i: int| device.peripherals[i].name)
}

/// The names of the registers of peripheral `p`.
pub open spec fn register_names(device: RawDeviceView, p: int) -> Seq<Seq<char>> {
    Seq::new(
        device.peripherals[p].registers.len(),
        |i: int| device.peripherals[p].registers[i].name,
    )
}

/// The names of the fields of register `r` of peripheral `p`.
pub open spec fn field_names(device: RawDeviceView, p: int, r: int) -> Seq<Seq<char>> {
    Seq::new(
        device.peripherals[p].registers[r].fields.len(),
        |i: int| device.peripherals[p].registers[r].fields[i].name,
    )
}

/// The register called `name` in peripheral `p`, as a pair of indices.
pub open spec fn register_in(device: RawDeviceView, p: int, name: Seq<char>) -> Option<(int, int)> {
    match first_index(register_names(device, p), name) {
        Some(r) => Some((p, r)),
        None => None,
    }
}

/// The field called `name` in register `r` of peripheral `p`, as a triple
/// of indices.
pub open spec fn field_in(device: RawDeviceView, p: int, r: int, name: Seq<char>) -> Option<
    (int, int, int),
> {
    match first_index(field_names(device, p, r), name) {
        Some(f) => Some((p, r, f)),
        None => None,
    }
}

/// The peripheral that `reference` names.
pub open spec fn locate_peripheral(device: RawDeviceView, reference: Seq<char>) -> Option<int> {
    let parts = split_path(reference);
    if parts.len() == 1 {
        first_index(peripheral_names(device), parts[0])
    } else {
        None
    }
}

/// The register that `reference` names, seen from a register of
/// peripheral `scope`.
pub open spec fn locate_register(device: RawDeviceView, scope: int, reference: Seq<char>) -> Option<
    (int, int),
> {
    let parts = split_path(reference);
    if parts.len() == 1 {
        register_in(device, scope, parts[0])
    } else if parts.len() == 2 {
        match first_index(peripheral_names(device), parts[0]) {
            Some(p) => register_in(device, p, parts[1]),
            None => None,
        }
    } else {
        None
    }
}

/// The field that `reference` names, seen from a field of register
/// `scope_r` of peripheral `scope_p`.
pub open spec fn locate_field(
    device: RawDeviceView,
    scope_p: int,
    scope_r: int,
    reference: Seq<char>,
) -> Option<(int, int, int)> {
    let parts = split_path(reference);
    if parts.len() == 1 {
        field_in(device, scope_p, scope_r, parts[0])
    } else if parts.len() == 2 {
        match register_in(device, scope_p, parts[0]) {
            Some((p, r)) => field_in(device, p, r, parts[1]),
            None => None,
        }
    } else if parts.len() == 3 {
        match first_index(peripheral_names(device), parts[0]) {
            Some(p) => match register_in(device, p, parts[1]) {
                Some((p, r)) => field_in(device, p, r, parts[2]),
                None => None,
            },
            None => None,
        }
    } else {
        None
    }
}

proof fn lemma_names_of_peripherals(device: &RawDevice)
    ensures
        names_of(device.peripherals@) == peripheral_names(device.deep_view()),
{
    assert(names_of(device.peripherals@) =~= peripheral_names(device.deep_view()));
}

proof fn lemma_names_of_registers(device: &RawDevice, p: int)
    requires
        0 <= p < device.peripherals.len(),
    ensures
        names_of(device.peripherals[p].registers@) == register_names(device.deep_view(), p),
{
    assert(names_of(device.peripherals[p].registers@) =~= register_names(device.deep_view(), p));
}

proof fn lemma_names_of_fields(device: &RawDevice, p: int, r: int)
    requires
        0 <= p < device.peripherals.len(),
        0 <= r < device.peripherals[p].registers.len(),
    ensures
        names_of(device.peripherals[p].registers[r].fields@) == field_names(
            device.deep_view(),
            p,
            r,
        ),
{
    assert(names_of(device.peripherals[p].registers[r].fields@) =~= field_names(
        device.deep_view(),
        p,
        r,
    ));
}

/// Finds the peripheral called `name`.
pub fn find_peripheral(device: &RawDevice, name: &String) -> (found: Option<usize>)
    ensures
        match found {
            Some(p) => first_index(peripheral_names(device.deep_view()), name@) == Some(p as int)
                && p < device.peripherals.len(),
            None => first_index(peripheral_names(device.deep_view()), name@) is None,
        },
{
    proof {
        lemma_names_of_peripherals(device);
        lemma_first_index(peripheral_names(device.deep_view()), name@);
    }
    find_named(&device.peripherals, name)
}

/// Finds the register called `name` in peripheral `p`.
pub fn find_register(device: &RawDevice, p: usize, name: &String) -> (found: Option<
    (usize, usize),
>)
    requires
        p < device.peripherals.len(),
    ensures
        match found {
            Some((q, r)) => register_in(device.deep_view(), p as int, name@) == Some(
                (q as int, r as int),
            ) && q == p && r < device.peripherals[p as int].registers.len(),
            None => register_in(device.deep_view(), p as int, name@) is None,
        },
{
    proof {
        lemma_names_of_registers(device, p as int);
        lemma_first_index(register_names(device.deep_view(), p as int), name@);
    }
    match find_named(&device.peripherals[p].registers, name) {
        Some(r) => Some((p, r)),
        None => None,
    }
}

/// Finds the field called `name` in register `r` of peripheral `p`.
pub fn find_field(device: &RawDevice, p: usize, r: usize, name: &String) -> (found: Option<
    (usize, usize, usize),
>)
    requires
        p < device.peripherals.len(),
        r < device.peripherals[p as int].registers.len(),
    ensures
        match found {
            Some((q, s, f)) => field_in(device.deep_view(), p as int, r as int, name@) == Some(
                (q as int, s as int, f as int),
            ) && q == p && s == r
                && f < device.peripherals[p as int].registers[r as int].fields.len(),
            None => field_in(device.deep_view(), p as int, r as int, name@) is None,
        },
{
    proof {
        lemma_names_of_fields(device, p as int, r as int);
        lemma_first_index(field_names(device.deep_view(), p as int, r as int), name@);
    }
    match find_named(&device.peripherals[p].registers[r].fields, name) {
        Some(f) => Some((p, r, f)),
        None => None,
    }
}

/// Resolves a reference held by a peripheral.
pub fn resolve_peripheral_reference(device: &RawDevice, reference: &String) -> (found: Option<
    usize,
>)
    ensures
        match found {
            Some(p) => locate_peripheral(device.deep_view(), reference@) == Some(p as int) && p
                < device.peripherals.len(),
            None => locate_peripheral(device.deep_view(), reference@) is None,
        },
{
    let parts = split_reference(reference.as_str());
    if parts.len() == 1 {
        find_peripheral(device, &parts[0])
    } else {
        None
    }
}

/// Resolves a reference held by a register of peripheral `scope`.
pub fn resolve_register_reference(device: &RawDevice, scope: usize, reference: &String) -> (found:
    Option<(usize, usize)>)
    requires
        scope < device.peripherals.len(),
    ensures
        match found {
            Some((p, r)) => locate_register(device.deep_view(), scope as int, reference@) == Some(
                (p as int, r as int),
            ) && p < device.peripherals.len() && r < device.peripherals[p as int].registers.len(),
            None => locate_register(device.deep_view(), scope as int, reference@) is None,
        },
{
    let parts = split_reference(reference.as_str());
    if parts.len() == 1 {
        find_register(device, scope, &parts[0])
    } else if parts.len() == 2 {
        match find_peripheral(device, &parts[0]) {
            Some(p) => find_register(device, p, &parts[1]),
            None => None,
        }
    } else {
        None
    }
}

/// Resolves a reference held by a field of register `scope_r` of
/// peripheral `scope_p`.
pub fn resolve_field_reference(
    device: &RawDevice,
    scope_p: usize,
    scope_r: usize,
    reference: &String,
) -> (found: Option<(usize, usize, usize)>)
    requires
        scope_p < device.peripherals.len(),
        scope_r < device.peripherals[scope_p as int].registers.len(),
    ensures
        match found {
            Some((p, r, f)) => locate_field(
                device.deep_view(),
                scope_p as int,
                scope_r as int,
                reference@,
            ) == Some((p as int, r as int, f as int)) && p < device.peripherals.len() && r
                < device.peripherals[p as int].registers.len() && f
                < device.peripherals[p as int].registers[r as int].fields.len(),
            None => locate_field(device.deep_view(), scope_p as int, scope_r as int, reference@)
                is None,
        },
{
    let parts = split_reference(reference.as_str());
    if parts.len() == 1 {
        find_field(device, scope_p, scope_r, &parts[0])
    } else if parts.len() == 2 {
        match find_register(device, scope_p, &parts[0]) {
            Some((p, r)) => find_field(device, p, r, &parts[1]),
            None => None,
        }
    } else if parts.len() == 3 {
        match find_peripheral(device, &parts[0]) {
            Some(p) => match find_register(device, p, &parts[1]) {
                Some((p, r)) => find_field(device, p, r, &parts[2]),
                None => None,
            },
            None => None,
        }
    } else {
        None
    }
}

} // verus!
