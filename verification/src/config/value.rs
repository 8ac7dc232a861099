//! The values of a configuration document, as far as the configuration's
//! shape speaks of them.

use vstd::prelude::*;

use crate::config::strings_view;

verus! {

/// A value of a configuration document.
#[derive(Debug, PartialEq, Eq)]
pub enum Value {
    /// A string.
    String(String),
    /// An array of values.
    Array(Vec<Value>),
    /// A table: keys and their values.
    Table(Vec<(String, Value)>),
    /// Any other value: a number, a boolean, a date.
    Other,
}

/// The value of the first entry with that key, if there is one.
pub open spec fn spec_get(entries: Seq<(String, Value)>, key: Seq<char>) -> Option<Value>
    decreases entries.len(),
{
    if entries.len() == 0 {
        None
    } else if entries[0].0@ == key {
        Some(entries[0].1)
    } else {
        spec_get(entries.drop_first(), key)
    }
}

/// The value of the first entry with that key, if there is one.
pub fn get<'a>(entries: &'a Vec<(String, Value)>, key: &str) -> (value: Option<&'a Value>)
    ensures
        match value {
            Some(value) => spec_get(entries@, key@) == Some(*value),
            None => spec_get(entries@, key@) is None,
        },
{
    let wanted = key.to_owned();
    let mut i: usize = 0;
    proof {
        assert(entries@.skip(0) =~= entries@);
    }
    while i < entries.len()
        invariant
            i <= entries.len(),
            wanted@ == key@,
            spec_get(entries@.skip(i as int), key@) == spec_get(entries@, key@),
        decreases entries.len() - i,
    {
        proof {
            let rest = entries@.skip(i as int);
            assert(rest[0] == entries@[i as int]);
            assert(rest.drop_first() =~= entries@.skip(i + 1));
        }
        if entries[i].0 == wanted {
            return Some(&entries[i].1);
        }
        i += 1;
    }
    None
}

/// Every value of the sequence is a string.
pub open spec fn all_strings(items: Seq<Value>) -> bool {
    forall|i: int| 0 <= i < items.len() ==> (#[trigger] items[i]) is String
}

/// The strings that the values of the sequence are.
pub open spec fn spec_strings(items: Seq<Value>) -> Seq<Seq<char>> {
    items.map_values(|item: Value| item->String_0@)
}

/// The strings that the values are; none where one of them is no string.
pub fn strings(items: &Vec<Value>) -> (r: Option<Vec<String>>)
    ensures
        match r {
            Some(strings) => all_strings(items@) && strings_view(strings@) == spec_strings(
                items@,
            ),
            None => !all_strings(items@),
        },
{
    let mut strings: Vec<String> = Vec::new();
    let mut i: usize = 0;
    while i < items.len()
        invariant
            i <= items.len(),
            strings@.len() == i,
            forall|j: int|
                0 <= j < i ==> (#[trigger] items@[j]) is String && strings@[j]@
                    == items@[j]->String_0@,
        decreases items.len() - i,
    {
        match &items[i] {
            Value::String(s) => strings.push(s.clone()),
            _ => {
                proof {
                    assert(!(items@[i as int] is String));
                }
                return None;
            },
        }
        i += 1;
    }
    proof {
        assert(strings_view(strings@) =~= spec_strings(items@));
    }
    Some(strings)
}

} // verus!
