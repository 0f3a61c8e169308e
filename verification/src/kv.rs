//! Keys and values as callers see them: views of the engine's records
//! whose accessors report failures by kind.

use vstd::prelude::*;
use crate::error::DecodeError;
use crate::field::{Reply, text_match};
use crate::key::{RegfKey, optional_text};
use crate::time::{Timestamp, raw_outcome, timestamp_from_raw};
use crate::value::{RegfType, RegfValue, binary_match, texts_view};

verus! {

/// A key of the hive, with the names along the path that led to it where
/// it came out of a traversal.
#[derive(Debug)]
pub struct Key<'a> {
    pub path_parts: Vec<String>,
    pub inner: &'a RegfKey,
}

/// A value of a key.
#[derive(Debug)]
pub struct Value<'a> {
    pub value: &'a RegfValue,
}

/// The names of `keys`, in order, or the failure of the first that has
/// none to give.
pub open spec fn names_of(keys: Seq<RegfKey>) -> Result<Seq<Seq<char>>, DecodeError>
    decreases keys.len(),
{
    if keys.len() == 0 {
        Ok(Seq::empty())
    } else {
        match names_of(keys.drop_last()) {
            Err(e) => Err(e),
            Ok(names) => match keys.last().name_outcome() {
                Err(e) => Err(e),
                Ok(name) => Ok(names.push(name)),
            },
        }
    }
}

/// The path of the key `inner` under `parents`: their names, in order, then
/// its own; or the failure of the first of these names that cannot be had.
pub open spec fn path_of(parents: Seq<RegfKey>, inner: RegfKey) -> Result<
    Seq<Seq<char>>,
    DecodeError,
> {
    match names_of(parents) {
        Err(e) => Err(e),
        Ok(names) => match inner.name_outcome() {
            Err(e) => Err(e),
            Ok(own) => Ok(names.push(own)),
        },
    }
}

impl<'a> Key<'a> {
    /// A view of `inner` with no path recorded.
    pub fn new(inner: &'a RegfKey) -> (r: Key<'a>)
        ensures
            *r.inner == *inner,
            r.path_parts@.len() == 0,
    {
        Key { path_parts: Vec::new(), inner }
    }

    /// A view of `inner` whose path holds the names of `parents`, in their
    /// order, and ends with the name of `inner` itself. Fails with the
    /// failure of the first parent whose name cannot be had, else with that
    /// of `inner`'s own name.
    pub fn from_parents(inner: &'a RegfKey, parents: &[RegfKey]) -> (r: Result<Key<'a>, DecodeError>)
        ensures
            match path_of(parents@, *inner) {
                Err(e) => r is Err && r->Err_0 == e,
                Ok(names) => r is Ok && *r->Ok_0.inner == *inner && texts_view(r->Ok_0.path_parts@)
                    == names,
            },
    {
        let mut path_parts: Vec<String> = Vec::new();
        let mut i: usize = 0;
        assert(parents@.subrange(0, 0) =~= Seq::<RegfKey>::empty());
        assert(texts_view(path_parts@) =~= Seq::<Seq<char>>::empty());
        while i < parents.len()
            invariant
                i <= parents@.len(),
                names_of(parents@.subrange(0, i as int)) == Ok::<Seq<Seq<char>>, DecodeError>(
                    texts_view(path_parts@),
                ),
            decreases parents@.len() - i,
        {
            let ghost before = path_parts@;
            proof {
                let upto = parents@.subrange(0, i as int + 1);
                assert(upto.drop_last() =~= parents@.subrange(0, i as int));
                assert(upto.last() == parents@[i as int]);
            }
            match parents[i].get_name() {
                Ok(name) => {
                    path_parts.push(name);
                    assert(texts_view(path_parts@) =~= texts_view(before).push(name@));
                },
                Err(e) => {
                    proof {
                        lemma_names_of_prefix_fails(parents@, i as int + 1);
                    }
                    return Err(e.kind);
                },
            }
            i += 1;
        }
        assert(parents@.subrange(0, i as int) =~= parents@);
        let ghost before = path_parts@;
        match inner.get_name() {
            Ok(own) => {
                path_parts.push(own);
                assert(texts_view(path_parts@) =~= texts_view(before).push(own@));
                Ok(Key { path_parts, inner })
            },
            Err(e) => Err(e.kind),
        }
    }

    /// The number of sub-keys that the engine reports.
    pub fn sub_keys_len(&self) -> (r: Result<usize, DecodeError>)
        ensures
            r == self.inner.sub_keys_len_outcome(),
    {
        match self.inner.get_sub_keys_len() {
            Ok(n) => Ok(n),
            Err(e) => Err(e.kind),
        }
    }

    /// The sub-key at index `i`: `None` where `i` is at or beyond the
    /// reported count, in which case no lookup is made; otherwise the key
    /// that the lookup opens, or its failure.
    pub fn sub_key(&self, i: usize) -> (r: Result<Option<Key<'a>>, DecodeError>)
        ensures
            match self.inner.child_outcome(i) {
                Err(e) => r is Err && r->Err_0 == e,
                Ok(None) => r is Ok && r->Ok_0 is None,
                Ok(Some(k)) => r is Ok && r->Ok_0 is Some && *r->Ok_0->Some_0.inner == k
                    && r->Ok_0->Some_0.path_parts@.len() == 0,
            },
    {
        match self.inner.child(i) {
            Ok(Some(k)) => Ok(Some(Key::new(k))),
            Ok(None) => Ok(None),
            Err(e) => Err(e.kind),
        }
    }

    /// Every sub-key, in index order: exactly as many as the engine
    /// reports, the one at place `i` being the one that index `i` opens. If
    /// one lookup fails there is no partial result.
    pub fn sub_keys(&self) -> (r: Result<Vec<Key<'a>>, DecodeError>)
        ensures
            match self.inner.sub_keys_outcome() {
                Err(e) => r is Err && r->Err_0 == e,
                Ok(keys) => r is Ok && r->Ok_0@.len() == keys.len() && forall|i: int|
                    0 <= i < keys.len() ==> *(#[trigger] r->Ok_0@[i]).inner == keys[i]
                        && r->Ok_0@[i].path_parts@.len() == 0,
            },
            r is Ok ==> self.inner.sub_keys_len_outcome() == Ok::<usize, DecodeError>(
                r->Ok_0@.len() as usize,
            ) && forall|i: int|
                0 <= i < r->Ok_0@.len() ==> *(#[trigger] r->Ok_0@[i]).inner
                    == self.inner.kid(i),
    {
        let inner = match self.inner.get_sub_keys() {
            Ok(v) => v,
            Err(e) => {
                return Err(e.kind);
            },
        };
        let mut keys: Vec<Key<'a>> = Vec::new();
        let mut i: usize = 0;
        while i < inner.len()
            invariant
                i <= inner@.len(),
                keys@.len() == i,
                forall|j: int|
                    0 <= j < i ==> *(#[trigger] keys@[j]).inner == *inner@[j]
                        && keys@[j].path_parts@.len() == 0,
            decreases inner@.len() - i,
        {
            keys.push(Key::new(inner[i]));
            i += 1;
        }
        Ok(keys)
    }

    /// The key's name.
    pub fn name(&self) -> (r: Result<String, DecodeError>)
        ensures
            text_match(r, self.inner.name_outcome()),
    {
        match self.inner.get_name() {
            Ok(name) => Ok(name),
            Err(e) => Err(e.kind),
        }
    }

    /// The key's class name: `None` where it has none, `Some` where it has
    /// one, even an empty one.
    pub fn class_name(&self) -> (r: Result<Option<String>, DecodeError>)
        ensures
            match optional_text(self.inner.class_name) {
                Err(e) => r is Err && r->Err_0 == e,
                Ok(None) => r is Ok && r->Ok_0 is None,
                Ok(Some(text)) => r is Ok && r->Ok_0 is Some && r->Ok_0->Some_0@ == text,
            },
    {
        match self.inner.get_class_name() {
            Ok(name) => Ok(name),
            Err(e) => Err(e.kind),
        }
    }

    /// The key's security descriptor: `None` where it has none.
    pub fn security_descriptor(&self) -> (r: Result<Option<String>, DecodeError>)
        ensures
            match optional_text(self.inner.security_descriptor) {
                Err(e) => r is Err && r->Err_0 == e,
                Ok(None) => r is Ok && r->Ok_0 is None,
                Ok(Some(text)) => r is Ok && r->Ok_0 is Some && r->Ok_0->Some_0@ == text,
            },
    {
        match self.inner.get_security_descriptor() {
            Ok(text) => Ok(text),
            Err(e) => Err(e.kind),
        }
    }

    /// The time of the last write, as a calendar timestamp.
    pub fn last_modified(&self) -> (r: Result<Timestamp, DecodeError>)
        ensures
            match self.inner.last_written_outcome() {
                Err(e) => r == Err::<Timestamp, DecodeError>(e),
                Ok(raw) => r == raw_outcome(raw),
            },
    {
        match self.inner.get_last_written() {
            Ok(raw) => timestamp_from_raw(raw),
            Err(e) => Err(e.kind),
        }
    }

    /// The number of values that the engine reports.
    pub fn value_count(&self) -> (r: Result<usize, DecodeError>)
        ensures
            r == self.inner.number_of_values_outcome(),
    {
        match self.inner.get_number_of_values() {
            Ok(n) => Ok(n),
            Err(e) => Err(e.kind),
        }
    }

    /// The value at `index`, or `NativeCallFailed` where the key has none
    /// there.
    pub fn value(&self, index: usize) -> (r: Result<Value<'a>, DecodeError>)
        ensures
            match self.inner.value_by_index_outcome(index) {
                Err(e) => r is Err && r->Err_0 == e,
                Ok(v) => r is Ok && *r->Ok_0.value == v,
            },
    {
        match self.inner.get_value_by_index(index) {
            Ok(v) => Ok(Value { value: v }),
            Err(e) => Err(e.kind),
        }
    }

    /// The value that the engine found for `name`, `found` being its answer
    /// to the lookup; `NativeCallFailed` where it found none.
    pub fn value_by_name(&self, name: &str, found: &Reply<usize>) -> (r: Result<
        Value<'a>,
        DecodeError,
    >)
        ensures
            match self.inner.value_by_name_outcome(*found) {
                Err(e) => r is Err && r->Err_0 == e,
                Ok(v) => r is Ok && *r->Ok_0.value == v,
            },
    {
        match self.inner.get_value_by_name(name, found) {
            Ok(v) => Ok(Value { value: v }),
            Err(e) => Err(e.kind),
        }
    }
}

/// Once a prefix of `keys` has no names to give, no longer prefix has.
pub proof fn lemma_names_of_prefix_fails(keys: Seq<RegfKey>, n: int)
    requires
        0 <= n <= keys.len(),
        names_of(keys.subrange(0, n)) is Err,
    ensures
        names_of(keys) == names_of(keys.subrange(0, n)),
    decreases keys.len() - n,
{
    if n == keys.len() {
        assert(keys.subrange(0, n) =~= keys);
    } else {
        let longer = keys.subrange(0, n + 1);
        assert(longer.drop_last() =~= keys.subrange(0, n));
        assert(names_of(longer) == names_of(keys.subrange(0, n)));
        lemma_names_of_prefix_fails(keys, n + 1);
    }
}

impl<'a> Value<'a> {
    /// A view of `value`.
    pub fn new(value: &'a RegfValue) -> (r: Value<'a>)
        ensures
            *r.value == *value,
    {
        Value { value }
    }

    /// The name the value is reported under: `"(default)"` for a value
    /// whose stored name has length zero.
    pub fn name(&self) -> (r: Result<String, DecodeError>)
        ensures
            text_match(r, self.value.name_outcome()),
    {
        match self.value.get_name() {
            Ok(name) => Ok(name),
            Err(e) => Err(e.kind),
        }
    }

    /// The declared type; an unknown tag is `Undefined`.
    pub fn type_tag(&self) -> (r: Result<RegfType, DecodeError>)
        ensures
            r == self.value.type_outcome(),
    {
        match self.value.get_type() {
            Ok(t) => Ok(t),
            Err(e) => Err(e.kind),
        }
    }

    /// The payload as a 32-bit number.
    pub fn as_u32(&self) -> (r: Result<u32, DecodeError>)
        ensures
            r == self.value.u32_outcome(),
    {
        match self.value.get_u32() {
            Ok(n) => Ok(n),
            Err(e) => Err(e.kind),
        }
    }

    /// The payload as a 64-bit number.
    pub fn as_u64(&self) -> (r: Result<u64, DecodeError>)
        ensures
            r == self.value.u64_outcome(),
    {
        match self.value.get_u64() {
            Ok(n) => Ok(n),
            Err(e) => Err(e.kind),
        }
    }

    /// The payload as UTF-8 text.
    pub fn as_string(&self) -> (r: Result<String, DecodeError>)
        ensures
            text_match(r, self.value.string_outcome()),
    {
        match self.value.get_string() {
            Ok(text) => Ok(text),
            Err(e) => Err(e.kind),
        }
    }

    /// The payload as bytes; a declared size of zero gives none.
    pub fn as_binary(&self) -> (r: Result<Vec<u8>, DecodeError>)
        ensures
            binary_match(r, self.value.binary_outcome()),
    {
        match self.value.get_binary() {
            Ok(bytes) => Ok(bytes),
            Err(e) => Err(e.kind),
        }
    }

    /// The payload as a list of strings, without those that could not be
    /// decoded.
    pub fn as_multi_string(&self) -> (r: Result<Vec<String>, DecodeError>)
        ensures
            match self.value.multi_string_outcome() {
                Err(e) => r is Err && r->Err_0 == e,
                Ok(texts) => r is Ok && texts_view(r->Ok_0@) == texts,
            },
    {
        match self.value.get_multi_string() {
            Ok(strings) => Ok(strings),
            Err(e) => Err(e.kind),
        }
    }
}

impl<'a> From<&'a RegfValue> for Value<'a> {
    fn from(value: &'a RegfValue) -> (r: Value<'a>) {
        Value { value }
    }
}

impl<'a> vstd::std_specs::convert::FromSpecImpl<&'a RegfValue> for Value<'a> {
    open spec fn obeys_from_spec() -> bool {
        true
    }

    open spec fn from_spec(value: &'a RegfValue) -> Value<'a> {
        Value { value }
    }
}

} // verus!
