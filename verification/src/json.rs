//! A plain JSON tree as the parsers see it, and the schema description
//! used in error messages. The host turns external analyzers' raw JSON
//! into this shape; the logic that reads it lives here, verified.

use vstd::prelude::*;
use crate::strings::{dec_of, joined_sep, lemma_joined_sep_push, seq_lt, sort_strings, str_views,
    u64_to_string};

verus! {

/// One JSON value. A number carries its value as an unsigned integer when
/// it is one; other numbers carry no value, since no rule here reads them.
/// An object is a key–value list in document order.
#[derive(Debug)]
pub enum JsonValue {
    Null,
    Bool(bool),
    Num(Option<u64>),
    Str(String),
    Arr(Vec<JsonValue>),
    Obj(Vec<(String, JsonValue)>),
}

/// The first value under `key` in an object's entry list, if any.
pub open spec fn spec_get(entries: Seq<(String, JsonValue)>, key: Seq<char>) -> Option<
    JsonValue,
>
    decreases entries.len(),
{
    if entries.len() == 0 {
        None
    } else if entries[0].0@ == key {
        Some(entries[0].1)
    } else {
        spec_get(entries.drop_first(), key)
    }
}

impl JsonValue {
    /// Whether this value is `null`.
    pub fn is_null(&self) -> (r: bool)
        ensures
            r == (*self is Null),
    {
        match self {
            JsonValue::Null => true,
            _ => false,
        }
    }

    /// The string this value holds, if it is a string.
    pub fn as_str(&self) -> (r: Option<&String>)
        ensures
            r is Some <==> *self is Str,
            r matches Some(s) ==> *s == self->Str_0,
    {
        match self {
            JsonValue::Str(s) => Some(s),
            _ => None,
        }
    }

    /// The unsigned integer this value holds, if it is one.
    pub fn as_u64(&self) -> (r: Option<u64>)
        ensures
            r == (if *self is Num {
                self->Num_0
            } else {
                None
            }),
    {
        match self {
            JsonValue::Num(n) => *n,
            _ => None,
        }
    }

    /// The element list, if this value is an array.
    pub fn as_array(&self) -> (r: Option<&Vec<JsonValue>>)
        ensures
            r is Some <==> *self is Arr,
            r matches Some(a) ==> *a == self->Arr_0,
    {
        match self {
            JsonValue::Arr(items) => Some(items),
            _ => None,
        }
    }

    /// The entry list, if this value is an object.
    pub fn as_object(&self) -> (r: Option<&Vec<(String, JsonValue)>>)
        ensures
            r is Some <==> *self is Obj,
            r matches Some(m) ==> *m == self->Obj_0,
    {
        match self {
            JsonValue::Obj(entries) => Some(entries),
            _ => None,
        }
    }

    /// The first value under `key`, if this value is an object holding one.
    pub fn get(&self, key: &str) -> (r: Option<&JsonValue>)
        ensures
            match r {
                Some(v) => *self is Obj && spec_get(self->Obj_0@, key@) == Some(*v),
                None => !(*self is Obj) || spec_get(self->Obj_0@, key@) is None,
            },
    {
        match self {
            JsonValue::Obj(entries) => {
                proof {
                    assert(entries@.skip(0) =~= entries@);
                }
                let mut i: usize = 0;
                while i < entries.len()
                    invariant
                        *self is Obj,
                        self->Obj_0@ == entries@,
                        i <= entries@.len(),
                        spec_get(entries@, key@) == spec_get(entries@.skip(i as int), key@),
                    decreases entries@.len() - i,
                {
                    proof {
                        assert(entries@.skip(i as int)[0] == entries@[i as int]);
                        assert(entries@.skip(i as int).drop_first() =~= entries@.skip(i + 1));
                    }
                    let entry = &entries[i];
                    if crate::strings::str_eq(entry.0.as_str(), key) {
                        proof {
                            assert(spec_get(entries@.skip(i as int), key@) == Some(
                                entries@[i as int].1,
                            ));
                        }
                        let found = &entry.1;
                        proof {
                            assert(*self is Obj);
                            assert(self->Obj_0@ == entries@);
                            assert(*found == entries@[i as int].1);
                        }
                        return Some(found);
                    }
                    i += 1;
                }
                None
            },
            _ => None,
        }
    }
}

/// The one-line schema description of a value: its kind, with an array's
/// length, or an object's keys ordered by code point.
pub fn describe_json_schema(value: &JsonValue) -> (r: String)
    ensures
        value is Null ==> r@ == "null"@,
        value is Bool ==> r@ == "boolean"@,
        value is Num ==> r@ == "number"@,
        value is Str ==> r@ == "string"@,
        value matches JsonValue::Arr(items) ==> r@ == "array(len="@ + dec_of(
            items@.len() as int,
        ) + ")"@,
        value matches JsonValue::Obj(entries) ==> exists|ks: Seq<Seq<char>>|
            ks.len() == entries@.len() && (forall|i: int, j: int|
                0 <= i < j < ks.len() ==> !seq_lt(#[trigger] ks[j], #[trigger] ks[i])) && (forall|
                i: int,
            |
                0 <= i < entries@.len() ==> exists|j: int|
                    0 <= j < ks.len() && ks[j] == (#[trigger] entries@[i]).0@) && (forall|j: int|
                0 <= j < ks.len() ==> exists|i: int|
                    0 <= i < entries@.len() && #[trigger] ks[j] == entries@[i].0@) && r@
                == "object(keys=["@ + joined_sep(ks, ", "@) + "])"@,
{
    match value {
        JsonValue::Null => "null".to_owned(),
        JsonValue::Bool(_) => "boolean".to_owned(),
        JsonValue::Num(_) => "number".to_owned(),
        JsonValue::Str(_) => "string".to_owned(),
        JsonValue::Arr(items) => {
            let mut out = String::new();
            out.append("array(len=");
            let len = u64_to_string(items.len() as u64);
            out.append(len.as_str());
            out.append(")");
            out
        },
        JsonValue::Obj(entries) => {
            let mut keys: Vec<String> = Vec::new();
            let mut i: usize = 0;
            while i < entries.len()
                invariant
                    i <= entries@.len(),
                    keys@.len() == i,
                    forall|k: int| 0 <= k < i ==> keys@[k]@ == entries@[k].0@,
                decreases entries@.len() - i,
            {
                keys.push(entries[i].0.clone());
                i += 1;
            }
            let ghost keys0 = keys@;
            let sorted = sort_strings(keys);
            let ghost kv = str_views(sorted@);
            let mut out = String::new();
            out.append("object(keys=[");
            let ghost base = out@;
            let mut k: usize = 0;
            while k < sorted.len()
                invariant
                    k <= sorted@.len(),
                    kv == str_views(sorted@),
                    base == "object(keys=["@,
                    k == 0 ==> out@ == base,
                    k >= 1 ==> out@ == base + joined_sep(kv.take(k as int), ", "@),
                decreases sorted@.len() - k,
            {
                if k > 0 {
                    out.append(", ");
                }
                out.append(sorted[k].as_str());
                proof {
                    reveal_strlit(", ");
                    assert(kv[k as int] == sorted@[k as int]@);
                    if k == 0 {
                        assert(kv.take(1) =~= seq![kv[0]]);
                        assert(joined_sep(seq![kv[0]], ", "@) == kv[0]);
                        assert(out@ == base + joined_sep(kv.take(1), ", "@));
                    } else {
                        assert(kv.take(k + 1) =~= kv.take(k as int).push(kv[k as int]));
                        lemma_joined_sep_push(kv.take(k as int), ", "@, kv[k as int]);
                        assert(out@ =~= base + joined_sep(kv.take(k + 1), ", "@));
                    }
                }
                k += 1;
            }
            out.append("])");
            proof {
                broadcast use vstd::seq_lib::group_to_multiset_ensures;
                broadcast use vstd::multiset::group_multiset_axioms;

                assert(kv.take(sorted@.len() as int) =~= kv);
                if sorted@.len() == 0 {
                    assert(joined_sep(kv, ", "@) =~= Seq::<char>::empty());
                    assert(out@ =~= "object(keys=["@ + joined_sep(kv, ", "@) + "])"@);
                } else {
                    assert(out@ =~= "object(keys=["@ + joined_sep(kv, ", "@) + "])"@);
                }
                assert forall|i: int| 0 <= i < entries@.len() implies exists|j: int|
                    0 <= j < kv.len() && kv[j] == (#[trigger] entries@[i]).0@ by {
                    assert(keys0.contains(keys0[i]));
                    assert(keys0.to_multiset().count(keys0[i]) > 0);
                    assert(sorted@.to_multiset().count(keys0[i]) > 0);
                    assert(sorted@.contains(keys0[i]));
                    let j = choose|j: int| 0 <= j < sorted@.len() && sorted@[j] == keys0[i];
                    assert(kv[j] == sorted@[j]@);
                }
                assert forall|j: int| 0 <= j < kv.len() implies exists|i: int|
                    0 <= i < entries@.len() && #[trigger] kv[j] == entries@[i].0@ by {
                    assert(sorted@.contains(sorted@[j]));
                    assert(sorted@.to_multiset().count(sorted@[j]) > 0);
                    assert(keys0.to_multiset().count(sorted@[j]) > 0);
                    assert(keys0.contains(sorted@[j]));
                    let i = choose|i: int| 0 <= i < keys0.len() && keys0[i] == sorted@[j];
                    assert(kv[j] == sorted@[j]@);
                }
                assert forall|i: int, j: int| 0 <= i < j < kv.len() implies !seq_lt(
                    #[trigger] kv[j],
                    #[trigger] kv[i],
                ) by {
                    assert(kv[i] == sorted@[i]@);
                    assert(kv[j] == sorted@[j]@);
                }
            }
            out
        },
    }
}

} // verus!
