//! A document: the structured value into which the model is encoded,
//! independent of any concrete syntax.
//!
//! A record is an ordered list of entries, each a key with a value. There
//! is no null: what is absent has no entry.

use vstd::prelude::*;
use crate::lookup::{first_index, lemma_first_index_absent, lemma_first_index_found};

verus! {

/// A value of a document.
#[derive(Debug, PartialEq, Eq)]
pub enum Value {
    Flag(bool),
    Number(u64),
    Text(String),
    List(Vec<Value>),
    Record(Vec<(String, Value)>),
}

pub enum ValueView {
    Flag(bool),
    Number(u64),
    Text(Seq<char>),
    List(Seq<ValueView>),
    Record(Seq<(Seq<char>, ValueView)>),
}

/// The view of a value.
pub open spec fn value_view(value: Value) -> ValueView
    decreases value,
{
    match value {
        Value::Flag(flag) => ValueView::Flag(flag),
        Value::Number(number) => ValueView::Number(number),
        Value::Text(text) => ValueView::Text(text@),
        Value::List(items) => ValueView::List(
            Seq::new(
                items.len() as nat,
                |i: int|
                    if 0 <= i < items.len() {
                        value_view(items[i])
                    } else {
                        ValueView::Flag(false)
                    },
            ),
        ),
        Value::Record(entries) => ValueView::Record(
            Seq::new(
                entries.len() as nat,
                |i: int|
                    if 0 <= i < entries.len() {
                        (entries[i].0@, value_view(entries[i].1))
                    } else {
                        (Seq::empty(), ValueView::Flag(false))
                    },
            ),
        ),
    }
}

impl DeepView for Value {
    type V = ValueView;

    open spec fn deep_view(&self) -> ValueView {
        value_view(*self)
    }
}

/// The views of a list of values.
pub open spec fn values_view(items: Seq<Value>) -> Seq<ValueView> {
    Seq::new(items.len(), |i: int| items[i].deep_view())
}

/// The views of a list of entries.
pub open spec fn entries_view(entries: Seq<(String, Value)>) -> Seq<(Seq<char>, ValueView)> {
    Seq::new(entries.len(), |i: int| (entries[i].0@, entries[i].1.deep_view()))
}

/// The keys of a list of entries, in order.
pub open spec fn keys_of(entries: Seq<(Seq<char>, ValueView)>) -> Seq<Seq<char>> {
    Seq::new(entries.len(), |i: int| entries[i].0)
}

/// A flag.
pub fn flag(value: bool) -> (v: Value)
    ensures
        v.deep_view() == ValueView::Flag(value),
{
    Value::Flag(value)
}

/// A number.
pub fn number(value: u64) -> (v: Value)
    ensures
        v.deep_view() == ValueView::Number(value),
{
    Value::Number(value)
}

/// A text, copied from `value`.
pub fn text(value: &str) -> (v: Value)
    ensures
        v.deep_view() == ValueView::Text(value@),
{
    Value::Text(value.to_owned())
}

/// A list of the given values.
pub fn list(items: Vec<Value>) -> (v: Value)
    ensures
        v.deep_view() == ValueView::List(values_view(items@)),
{
    let v = Value::List(items);
    assert(v.deep_view()->List_0 =~= values_view(items@));
    v
}

/// A record of the given entries.
pub fn record(entries: Vec<(String, Value)>) -> (v: Value)
    ensures
        v.deep_view() == ValueView::Record(entries_view(entries@)),
{
    let v = Value::Record(entries);
    assert(v.deep_view()->Record_0 =~= entries_view(entries@));
    v
}

/// Appends an entry.
pub fn put(entries: &mut Vec<(String, Value)>, key: &str, value: Value)
    ensures
        entries_view(final(entries)@) == entries_view(old(entries)@).push(
            (key@, value.deep_view()),
        ),
{
    let ghost before = entries_view(entries@);
    entries.push((key.to_owned(), value));
    assert(entries_view(entries@) =~= before.push((key@, value.deep_view())));
}

/// The value that a record holds under `key`: that of the first entry
/// with this key.
pub open spec fn member_of(value: ValueView, key: Seq<char>) -> Option<ValueView> {
    match value {
        ValueView::Record(entries) => match first_index(keys_of(entries), key) {
            Some(i) => Some(entries[i].1),
            None => None,
        },
        _ => None,
    }
}

impl Value {
    /// The value held under `key`, where this value is a record that has
    /// an entry with this key.
    pub fn member(&self, key: &str) -> (found: Option<&Value>)
        ensures
            found.deep_view() == member_of(self.deep_view(), key@),
    {
        match self {
            Value::Record(entries) => {
                let wanted = key.to_owned();
                let ghost view = self.deep_view()->Record_0;
                assert(view =~= entries_view(entries@));
                let mut i: usize = 0;
                while i < entries.len()
                    invariant
                        i <= entries.len(),
                        wanted@ == key@,
                        self.deep_view() == ValueView::Record(view),
                        view == entries_view(entries@),
                        forall|j: int| 0 <= j < i ==> keys_of(view)[j] != key@,
                    decreases entries.len() - i,
                {
                    if entries[i].0 == wanted {
                        proof {
                            assert(keys_of(view)[i as int] == key@);
                            lemma_first_index_found(keys_of(view), key@, i as int);
                            assert(view[i as int].1 == entries[i as int].1.deep_view());
                        }
                        let found = Some(&entries[i].1);
                        assert(found.deep_view() == Some(entries[i as int].1.deep_view()));

                        return found;
                    }
                    i += 1;
                }
                proof {
                    lemma_first_index_absent(keys_of(view), key@);
                }
                None
            },
            _ => None,
        }
    }
}

} // verus!
