//! The structured payload value a message carries.
//!
//! Every payload is a tree of null, boolean, unsigned-integer, text,
//! list and object nodes. Handlers check the shape of a payload with
//! verified lookups instead of trusting a decoder. Contracts speak of
//! the mathematical mirror [`SpecValue`] reached through `@`.

use vstd::prelude::*;
use vstd::string::StrSliceExecFns;

verus! {

/// A structured value, the shape of every message payload.
#[derive(Debug, PartialEq)]
pub enum AppValue {
    Null,
    Bool(bool),
    UInt(u64),
    Text(String),
    List(Vec<AppValue>),
    Object(Vec<(String, AppValue)>),
}

/// The mathematical form of a structured value.
#[verifier::ext_equal]
pub enum SpecValue {
    Null,
    Bool(bool),
    UInt(u64),
    Text(Seq<char>),
    List(Seq<SpecValue>),
    Object(Seq<(Seq<char>, SpecValue)>),
}

/// The mathematical form of a structured value.
pub open spec fn rep(v: AppValue) -> SpecValue
    decreases v,
{
    match v {
        AppValue::Null => SpecValue::Null,
        AppValue::Bool(b) => SpecValue::Bool(b),
        AppValue::UInt(n) => SpecValue::UInt(n),
        AppValue::Text(s) => SpecValue::Text(s@),
        AppValue::List(items) => SpecValue::List(rep_list(items@)),
        AppValue::Object(fields) => SpecValue::Object(rep_fields(fields@)),
    }
}

/// The mathematical form of a list of values, element by element.
pub open spec fn rep_list(items: Seq<AppValue>) -> Seq<SpecValue>
    decreases items,
{
    if items.len() == 0 {
        Seq::empty()
    } else {
        rep_list(items.drop_last()).push(rep(items.last()))
    }
}

/// The mathematical form of an object's bindings, pair by pair.
pub open spec fn rep_fields(fields: Seq<(String, AppValue)>) -> Seq<(Seq<char>, SpecValue)>
    decreases fields,
{
    if fields.len() == 0 {
        Seq::empty()
    } else {
        rep_fields(fields.drop_last()).push((fields.last().0@, rep(fields.last().1)))
    }
}

impl View for AppValue {
    type V = SpecValue;

    open spec fn view(&self) -> SpecValue {
        rep(*self)
    }
}

/// `rep_list` keeps the length and maps each element.
pub broadcast proof fn lemma_rep_list_props(items: Seq<AppValue>)
    ensures
        (#[trigger] rep_list(items)).len() == items.len(),
        forall|i: int| 0 <= i < items.len() ==> rep_list(items)[i] == rep(items[i]),
    decreases items.len(),
{
    if items.len() > 0 {
        lemma_rep_list_props(items.drop_last());
        assert forall|i: int| 0 <= i < items.len() implies rep_list(items)[i] == rep(items[i]) by {
            if i < items.len() - 1 {
                assert(items.drop_last()[i] == items[i]);
            }
        }
    }
}

/// `rep_fields` keeps the length and maps each binding.
pub broadcast proof fn lemma_rep_fields_props(fields: Seq<(String, AppValue)>)
    ensures
        (#[trigger] rep_fields(fields)).len() == fields.len(),
        forall|i: int|
            0 <= i < fields.len() ==> rep_fields(fields)[i] == (fields[i].0@, rep(fields[i].1)),
    decreases fields.len(),
{
    if fields.len() > 0 {
        lemma_rep_fields_props(fields.drop_last());
        assert forall|i: int| 0 <= i < fields.len() implies rep_fields(fields)[i] == (
            fields[i].0@,
            rep(fields[i].1),
        ) by {
            if i < fields.len() - 1 {
                assert(fields.drop_last()[i] == fields[i]);
            }
        }
    }
}

/// The value under the first binding of `name`, if any.
pub open spec fn lookup_field(
    fields: Seq<(Seq<char>, SpecValue)>,
    name: Seq<char>,
) -> Option<SpecValue>
    decreases fields.len(),
{
    if fields.len() == 0 {
        None
    } else if fields[0].0 == name {
        Some(fields[0].1)
    } else {
        lookup_field(fields.drop_first(), name)
    }
}

/// The field of an object value, if the value is an object that has it.
pub open spec fn spec_get_field(v: SpecValue, name: Seq<char>) -> Option<SpecValue> {
    match v {
        SpecValue::Object(fields) => lookup_field(fields, name),
        _ => None,
    }
}

/// Character-for-character string equality.
pub fn str_eq(a: &str, b: &str) -> (r: bool)
    ensures
        r == (a@ == b@),
{
    let n = a.unicode_len();
    if n != b.unicode_len() {
        return false;
    }
    let mut i: usize = 0;
    while i < n
        invariant
            n == a@.len(),
            n == b@.len(),
            0 <= i <= n,
            forall|j: int| 0 <= j < i ==> a@[j] == b@[j],
        decreases n - i,
    {
        if a.get_char(i) != b.get_char(i) {
            return false;
        }
        i = i + 1;
    }
    proof {
        assert(a@ =~= b@);
    }
    true
}

/// Looks a field up in an object's binding list.
pub fn get_field<'a>(fields: &'a Vec<(String, AppValue)>, name: &str) -> (r: Option<&'a AppValue>)
    ensures
        match r {
            Some(v) => lookup_field(rep_fields(fields@), name@) == Some(v@),
            None => lookup_field(rep_fields(fields@), name@) is None,
        },
{
    proof {
        broadcast use lemma_rep_fields_props;

    }
    let ghost reps = rep_fields(fields@);
    let n = fields.len();
    let mut i: usize = 0;
    proof {
        assert(reps.skip(0) =~= reps);
    }
    while i < n
        invariant
            n == fields@.len(),
            reps == rep_fields(fields@),
            reps.len() == n,
            forall|j: int| 0 <= j < n ==> #[trigger] reps[j] == (fields@[j].0@, rep(fields@[j].1)),
            0 <= i <= n,
            lookup_field(reps, name@) == lookup_field(reps.skip(i as int), name@),
        decreases n - i,
    {
        let found = str_eq(fields[i].0.as_str(), name);
        proof {
            assert(reps.skip(i as int)[0] == reps[i as int]);
            assert(reps.skip(i as int).drop_first() =~= reps.skip(i + 1));
        }
        if found {
            return Some(&fields[i].1);
        }
        i = i + 1;
    }
    proof {
        assert(reps.skip(n as int) =~= Seq::<(Seq<char>, SpecValue)>::empty());
    }
    None
}

/// The field of an object value, if the value is an object that has it.
pub fn value_field<'a>(v: &'a AppValue, name: &str) -> (r: Option<&'a AppValue>)
    ensures
        match r {
            Some(f) => spec_get_field(v@, name@) == Some(f@),
            None => spec_get_field(v@, name@) is None,
        },
{
    match v {
        AppValue::Object(fields) => get_field(fields, name),
        _ => None,
    }
}

/// The text a value holds, if it is text.
pub fn value_as_text<'a>(v: &'a AppValue) -> (r: Option<&'a String>)
    ensures
        match r {
            Some(s) => v@ == SpecValue::Text(s@),
            None => !(v@ is Text),
        },
{
    match v {
        AppValue::Text(s) => Some(s),
        _ => None,
    }
}

/// The number a value holds, if it is an unsigned integer.
pub fn value_as_uint(v: &AppValue) -> (r: Option<u64>)
    ensures
        match r {
            Some(n) => v@ == SpecValue::UInt(n),
            None => !(v@ is UInt),
        },
{
    match v {
        AppValue::UInt(n) => Some(*n),
        _ => None,
    }
}

/// A copy of a structured value, equal to the original.
pub fn clone_value(v: &AppValue) -> (r: AppValue)
    ensures
        r@ == v@,
    decreases *v,
{
    match v {
        AppValue::Null => AppValue::Null,
        AppValue::Bool(b) => AppValue::Bool(*b),
        AppValue::UInt(n) => AppValue::UInt(*n),
        AppValue::Text(s) => AppValue::Text(s.clone()),
        AppValue::List(items) => {
            let mut out: Vec<AppValue> = Vec::new();
            let n = items.len();
            let mut i: usize = 0;
            while i < n
                invariant
                    n == items@.len(),
                    0 <= i <= n,
                    out@.len() == i,
                    forall|j: int| 0 <= j < i ==> rep(#[trigger] out@[j]) == rep(items@[j]),
                    *v == AppValue::List(*items),
                decreases n - i,
            {
                proof {
                    assert(*items == v->List_0);
                    assert(decreases_to!(*v => v->List_0));
                    assert(decreases_to!(*items => items@));
                    assert(decreases_to!(items@ => items@[i as int]));
                }
                let item = clone_value(&items[i]);
                out.push(item);
                i = i + 1;
            }
            let r = AppValue::List(out);
            proof {
                broadcast use lemma_rep_list_props;

                assert(rep_list(out@) =~= rep_list(items@));
            }
            r
        },
        AppValue::Object(fields) => {
            let mut out: Vec<(String, AppValue)> = Vec::new();
            let n = fields.len();
            let mut i: usize = 0;
            while i < n
                invariant
                    n == fields@.len(),
                    0 <= i <= n,
                    out@.len() == i,
                    forall|j: int|
                        0 <= j < i ==> (#[trigger] out@[j]).0@ == fields@[j].0@ && rep(out@[j].1)
                            == rep(fields@[j].1),
                    *v == AppValue::Object(*fields),
                decreases n - i,
            {
                let key = fields[i].0.clone();
                proof {
                    assert(*fields == v->Object_0);
                    assert(decreases_to!(*v => v->Object_0));
                    assert(decreases_to!(*fields => fields@));
                    assert(decreases_to!(fields@ => fields@[i as int]));
                    assert(decreases_to!(fields@[i as int] => fields@[i as int].1));
                }
                let val = clone_value(&fields[i].1);
                out.push((key, val));
                i = i + 1;
            }
            let r = AppValue::Object(out);
            proof {
                broadcast use lemma_rep_fields_props;

                assert(rep_fields(out@) =~= rep_fields(fields@));
            }
            r
        },
    }
}

impl Clone for AppValue {
    /// A clone mirrors the original value.
    fn clone(&self) -> (r: AppValue)
        ensures
            r@ == self@,
    {
        clone_value(self)
    }
}

} // verus!
