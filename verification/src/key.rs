//! One registry key as the engine presents it: its attributes, its values
//! and its sub-keys, each reachable only by index.

use vstd::prelude::*;
use vstd::string::*;
use crate::error::{DecodeError, RegfError, says};
use crate::field::{NativeField, Reply, decode_text, text_outcome};
use crate::handle_err_and_option;
use crate::value::{RegfValue, field_text, text_by_kind, by_kind};

verus! {

/// One key as the engine presents it. The counts are what the engine
/// reports; `sub_keys` and `values` hold what its lookups by index answer,
/// `None` for a lookup that fails, and a lookup beyond them fails. Nothing
/// forces counts and lookups to agree.
#[derive(Debug)]
pub struct RegfKey {
    pub name: NativeField,
    pub class_name: NativeField,
    pub security_descriptor: NativeField,
    pub last_written: Option<u64>,
    pub number_of_sub_keys: Option<i32>,
    pub sub_keys: Vec<Option<RegfKey>>,
    pub number_of_values: Option<i32>,
    pub values: Vec<Option<RegfValue>>,
}

/// What decoding an optional field as text gives: `Ok(None)` where the
/// field does not exist, `Ok(Some(..))` where it does, even if empty.
pub open spec fn optional_text(f: NativeField) -> Result<Option<Seq<char>>, DecodeError> {
    match f.outcome() {
        Err(e) => Err(e),
        Ok(None) => Ok(None),
        Ok(Some(bytes)) => match text_outcome(bytes) {
            Ok(text) => Ok(Some(text)),
            Err(e) => Err(e),
        },
    }
}

/// An optional text result by its characters and the kind of its error.
pub open spec fn optional_text_by_kind(r: Result<Option<String>, RegfError>) -> Result<
    Option<Seq<char>>,
    DecodeError,
> {
    match r {
        Ok(None) => Ok(None),
        Ok(Some(t)) => Ok(Some(t@)),
        Err(e) => Err(e.kind),
    }
}

/// The call to which a failed sub-key lookup under `k` is owed: the count
/// query if that failed, else the lookup by index.
pub open spec fn sub_key_call(k: RegfKey) -> Seq<char> {
    if k.sub_keys_len_outcome() is Err {
        "key number of sub keys"@
    } else {
        "key sub key"@
    }
}

impl RegfKey {
    /// The key's name.
    pub open spec fn name_outcome(&self) -> Result<Seq<char>, DecodeError> {
        field_text(self.name)
    }

    /// The number of sub-keys that the engine reports.
    pub open spec fn sub_keys_len_outcome(&self) -> Result<usize, DecodeError> {
        match self.number_of_sub_keys {
            None => Err(DecodeError::NativeCallFailed),
            Some(n) => if n < 0 {
                Err(DecodeError::NativeCallFailed)
            } else {
                Ok(n as usize)
            },
        }
    }

    /// Whether the lookup at `index` opens a sub-key.
    pub open spec fn has_kid(&self, index: int) -> bool {
        0 <= index < self.sub_keys@.len() && self.sub_keys@[index] is Some
    }

    /// The sub-key that the lookup at `index` opens.
    pub open spec fn kid(&self, index: int) -> RegfKey
        recommends
            self.has_kid(index),
    {
        self.sub_keys@[index]->Some_0
    }

    /// The sub-key that a lookup by index opens.
    pub open spec fn sub_key_outcome(&self, index: usize) -> Result<RegfKey, DecodeError> {
        if self.has_kid(index as int) {
            Ok(self.kid(index as int))
        } else {
            Err(DecodeError::NativeCallFailed)
        }
    }

    /// The sub-key at `index` under a bounds check: `None` at or beyond
    /// the reported count, with no lookup made; otherwise what the lookup
    /// gives.
    pub open spec fn child_outcome(&self, index: usize) -> Result<Option<RegfKey>, DecodeError> {
        match self.sub_keys_len_outcome() {
            Err(e) => Err(e),
            Ok(n) => if index >= n {
                Ok(None)
            } else {
                match self.sub_key_outcome(index) {
                    Ok(k) => Ok(Some(k)),
                    Err(e) => Err(e),
                }
            },
        }
    }

    /// All sub-keys: as many as the engine reports, each opened by its
    /// index; one failed lookup fails the whole.
    pub open spec fn sub_keys_outcome(&self) -> Result<Seq<RegfKey>, DecodeError> {
        match self.sub_keys_len_outcome() {
            Err(e) => Err(e),
            Ok(n) => if forall|i: int| 0 <= i < n ==> self.has_kid(i) {
                Ok(Seq::new(n as nat, |i: int| self.kid(i)))
            } else {
                Err(DecodeError::NativeCallFailed)
            },
        }
    }

    /// The number of values that the engine reports.
    pub open spec fn number_of_values_outcome(&self) -> Result<usize, DecodeError> {
        match self.number_of_values {
            None => Err(DecodeError::NativeCallFailed),
            Some(n) => if n < 0 {
                Err(DecodeError::NativeCallFailed)
            } else {
                Ok(n as usize)
            },
        }
    }

    /// The value that a lookup by index opens.
    pub open spec fn value_by_index_outcome(&self, index: usize) -> Result<RegfValue, DecodeError> {
        if index < self.values@.len() && self.values@[index as int] is Some {
            Ok(self.values@[index as int]->Some_0)
        } else {
            Err(DecodeError::NativeCallFailed)
        }
    }

    /// The value that a lookup by name opens, given what the engine found
    /// for the name: the value at the index it found, if it found one.
    pub open spec fn value_by_name_outcome(&self, found: Reply<usize>) -> Result<
        RegfValue,
        DecodeError,
    > {
        match found {
            Reply::Done(index) => self.value_by_index_outcome(index),
            _ => Err(DecodeError::NativeCallFailed),
        }
    }

    /// The raw time of the last write.
    pub open spec fn last_written_outcome(&self) -> Result<u64, DecodeError> {
        match self.last_written {
            None => Err(DecodeError::NativeCallFailed),
            Some(t) => Ok(t),
        }
    }

    /// Opens the value that the engine found for `name`. Which stored names
    /// match a name is the engine's rule, and no comparison is made here:
    /// `found` is the engine's answer to the lookup, the index of the value
    /// it found. Where it found none, or failed, there is no value.
    pub fn get_value_by_name(&self, name: &str, found: &Reply<usize>) -> (r: Result<
        &RegfValue,
        RegfError,
    >)
        ensures
            match self.value_by_name_outcome(*found) {
                Ok(v) => r is Ok && *r->Ok_0 == v,
                Err(e) => r is Err && r->Err_0.kind == e,
            },
            says(r, "key value by name"@),
    {
        RegfValue::value_by_name(self, name, found)
    }

    /// Opens the value at `index`. An index at which the engine has no
    /// value is an error, never a panic.
    pub fn get_value_by_index(&self, index: usize) -> (r: Result<&RegfValue, RegfError>)
        ensures
            match self.value_by_index_outcome(index) {
                Ok(v) => r is Ok && *r->Ok_0 == v,
                Err(e) => r is Err && r->Err_0.kind == e,
            },
            says(r, "key value by index"@),
    {
        RegfValue::value_by_index(self, index)
    }

    /// The number of values that the engine reports. A negative count is a
    /// failed call.
    pub fn get_number_of_values(&self) -> (r: Result<usize, RegfError>)
        ensures
            by_kind(r) == self.number_of_values_outcome(),
            says(r, "key number of values"@),
    {
        RegfValue::count(self)
    }

    /// The number of sub-keys that the engine reports. A negative count is
    /// a failed call.
    pub fn get_sub_keys_len(&self) -> (r: Result<usize, RegfError>)
        ensures
            by_kind(r) == self.sub_keys_len_outcome(),
            says(r, "key number of sub keys"@),
    {
        let mut count: Option<usize> = None;
        let mut error: Option<RegfError> = None;
        match self.number_of_sub_keys {
            Some(n) if n >= 0 => {
                count = Some(n as usize);
            },
            _ => {
                error = Some(RegfError::call_failed(DecodeError::NativeCallFailed, "key number of sub keys"));
            },
        }
        handle_err_and_option(count, error, RegfError::function_returned_none("key number of sub keys"))
    }

    /// Opens the sub-key at `index`, with no check against the reported
    /// count: the lookup succeeds exactly where the engine has a sub-key.
    pub fn get_sub_key(&self, index: usize) -> (r: Result<&RegfKey, RegfError>)
        ensures
            match self.sub_key_outcome(index) {
                Ok(k) => r is Ok && *r->Ok_0 == k,
                Err(e) => r is Err && r->Err_0.kind == e,
            },
            says(r, "key sub key"@),
    {
        if index < self.sub_keys.len() {
            match &self.sub_keys[index] {
                Some(k) => Ok(k),
                None => Err(RegfError::call_failed(DecodeError::NativeCallFailed, "key sub key")),
            }
        } else {
            Err(RegfError::call_failed(DecodeError::NativeCallFailed, "key sub key"))
        }
    }

    /// Opens the sub-key at `index` under a bounds check against the
    /// reported count, which is asked first: at or beyond it there is no
    /// sub-key and no lookup is made.
    pub fn child(&self, index: usize) -> (r: Result<Option<&RegfKey>, RegfError>)
        ensures
            match self.child_outcome(index) {
                Err(e) => r is Err && r->Err_0.kind == e,
                Ok(None) => r is Ok && r->Ok_0 is None,
                Ok(Some(k)) => r is Ok && r->Ok_0 is Some && *r->Ok_0->Some_0 == k,
            },
            says(r, sub_key_call(*self)),
    {
        let count = match self.get_sub_keys_len() {
            Ok(n) => n,
            Err(e) => {
                return Err(e);
            },
        };
        if index >= count {
            return Ok(None);
        }
        match self.get_sub_key(index) {
            Ok(k) => Ok(Some(k)),
            Err(e) => Err(e),
        }
    }

    /// Opens every sub-key: as many as the engine reports, in index order.
    /// If one lookup fails, the whole call fails.
    pub fn get_sub_keys(&self) -> (r: Result<Vec<&RegfKey>, RegfError>)
        ensures
            match self.sub_keys_outcome() {
                Ok(keys) => r is Ok && r->Ok_0@.len() == keys.len() && forall|i: int|
                    0 <= i < keys.len() ==> *(#[trigger] r->Ok_0@[i]) == keys[i],
                Err(e) => r is Err && r->Err_0.kind == e,
            },
            says(r, sub_key_call(*self)),
    {
        let count = match self.get_sub_keys_len() {
            Ok(n) => n,
            Err(e) => {
                return Err(e);
            },
        };
        let mut keys: Vec<&RegfKey> = Vec::new();
        let mut i: usize = 0;
        while i < count
            invariant
                i <= count,
                self.sub_keys_len_outcome() == Ok::<usize, DecodeError>(count),
                keys@.len() == i,
                forall|j: int| 0 <= j < i ==> self.has_kid(j),
                forall|j: int| 0 <= j < i ==> *(#[trigger] keys@[j]) == self.kid(j),
            decreases count - i,
        {
            match self.get_sub_key(i) {
                Ok(k) => {
                    keys.push(k);
                },
                Err(e) => {
                    return Err(e);
                },
            }
            i += 1;
        }
        Ok(keys)
    }

    /// The raw time of the last write.
    pub fn get_last_written(&self) -> (r: Result<u64, RegfError>)
        ensures
            by_kind(r) == self.last_written_outcome(),
            says(r, "key last written"@),
    {
        let mut error: Option<RegfError> = None;
        if self.last_written.is_none() {
            error = Some(RegfError::call_failed(DecodeError::NativeCallFailed, "key last written"));
        }
        handle_err_and_option(self.last_written, error, RegfError::function_returned_none("key last written"))
    }

    /// The key's name, by the size/read protocol, as UTF-8 text.
    pub fn get_name(&self) -> (r: Result<String, RegfError>)
        ensures
            text_by_kind(r) == self.name_outcome(),
            says(r, "key name"@),
    {
        let mut name: Option<String> = None;
        let mut error: Option<RegfError> = None;
        match self.name.read_required() {
            Err(kind) => {
                error = Some(RegfError::call_failed(kind, "key name"));
            },
            Ok(bytes) => {
                match decode_text(bytes) {
                    Ok(text) => {
                        name = Some(text);
                    },
                    Err(_) => {},
                }
            },
        }
        handle_err_and_option(name, error, RegfError::function_returned_none("key name"))
    }

    /// The key's class name: `None` where the key has none, `Some` where it
    /// has one, even an empty one.
    pub fn get_class_name(&self) -> (r: Result<Option<String>, RegfError>)
        ensures
            optional_text_by_kind(r) == optional_text(self.class_name),
            says(r, "key class name"@),
    {
        read_optional_text(&self.class_name, "key class name")
    }

    /// The key's security descriptor: `None` where the key has none.
    pub fn get_security_descriptor(&self) -> (r: Result<Option<String>, RegfError>)
        ensures
            optional_text_by_kind(r) == optional_text(self.security_descriptor),
            says(r, "key security descriptor"@),
    {
        read_optional_text(&self.security_descriptor, "key security descriptor")
    }
}

/// Reads a field that may not exist and decodes it as text.
pub fn read_optional_text(field: &NativeField, func: &str) -> (r: Result<Option<String>, RegfError>)
    ensures
        optional_text_by_kind(r) == optional_text(*field),
        says(r, func@),
{
    let mut text: Option<Option<String>> = None;
    let mut error: Option<RegfError> = None;
    match field.read() {
        Err(kind) => {
            error = Some(RegfError::call_failed(kind, func));
        },
        Ok(None) => {
            text = Some(None);
        },
        Ok(Some(bytes)) => {
            match decode_text(bytes) {
                Ok(t) => {
                    text = Some(Some(t));
                },
                Err(_) => {},
            }
        },
    }
    handle_err_and_option(text, error, RegfError::function_returned_none(func))
}

impl RegfValue {
    /// The value of `key` that the engine found for `name`, `found` being
    /// its answer to the lookup.
    pub fn value_by_name<'a>(key: &'a RegfKey, name: &str, found: &Reply<usize>) -> (r: Result<
        &'a RegfValue,
        RegfError,
    >)
        ensures
            match key.value_by_name_outcome(*found) {
                Ok(v) => r is Ok && *r->Ok_0 == v,
                Err(e) => r is Err && r->Err_0.kind == e,
            },
            says(r, "key value by name"@),
    {
        let _ = name;
        match found {
            Reply::Done(index) => {
                if *index < key.values.len() {
                    match &key.values[*index] {
                        Some(v) => Ok(v),
                        None => Err(
                            RegfError::call_failed(DecodeError::NativeCallFailed, "key value by name"),
                        ),
                    }
                } else {
                    Err(RegfError::call_failed(DecodeError::NativeCallFailed, "key value by name"))
                }
            },
            _ => Err(RegfError::call_failed(DecodeError::NativeCallFailed, "key value by name")),
        }
    }

    /// The value of `key` at `index`.
    pub fn value_by_index(key: &RegfKey, index: usize) -> (r: Result<&RegfValue, RegfError>)
        ensures
            match key.value_by_index_outcome(index) {
                Ok(v) => r is Ok && *r->Ok_0 == v,
                Err(e) => r is Err && r->Err_0.kind == e,
            },
            says(r, "key value by index"@),
    {
        if index < key.values.len() {
            match &key.values[index] {
                Some(v) => Ok(v),
                None => Err(
                    RegfError::call_failed(DecodeError::NativeCallFailed, "key value by index"),
                ),
            }
        } else {
            Err(RegfError::call_failed(DecodeError::NativeCallFailed, "key value by index"))
        }
    }

    /// The number of values that the engine reports for `key`.
    pub fn count(key: &RegfKey) -> (r: Result<usize, RegfError>)
        ensures
            by_kind(r) == key.number_of_values_outcome(),
            says(r, "key number of values"@),
    {
        match key.number_of_values {
            Some(n) if n >= 0 => Ok(n as usize),
            _ => Err(RegfError::call_failed(DecodeError::NativeCallFailed, "key number of values")),
        }
    }
}

/// Where the reported count covers every value that a lookup can open, a
/// lookup at or beyond the count opens none: it fails, and no value comes
/// out. So a key that reports no values has none at index 0.
pub proof fn law_no_value_beyond_count(k: RegfKey, index: usize)
    requires
        k.number_of_values_outcome() is Ok,
        k.values@.len() <= k.number_of_values_outcome()->Ok_0,
        index >= k.number_of_values_outcome()->Ok_0,
    ensures
        k.value_by_index_outcome(index) == Err::<RegfValue, DecodeError>(
            DecodeError::NativeCallFailed,
        ),
{
}

/// The least index from `from` on at which `marks` holds `wanted`, if there
/// is one.
pub open spec fn index_of_mark(marks: Seq<Option<i64>>, wanted: i64, from: int) -> Option<int>
    decreases marks.len() - from,
{
    if from < 0 || from >= marks.len() {
        None
    } else if marks[from] == Some(wanted) {
        Some(from)
    } else {
        index_of_mark(marks, wanted, from + 1)
    }
}

/// The engine's answer to a lookup by name, as an index. The engine hands
/// out the value it found and tells values apart by a mark of its own;
/// `mark` is that of the value found, `None` where it handed out none or
/// the mark could not be had, and `marks` holds the mark of the value at
/// each index. A lookup that found nothing or failed stays so; one that
/// found a value gives the first index that bears its mark, and counts as
/// failed if there is no mark or no index bears it.
pub open spec fn found_at(status: i32, mark: Option<i64>, marks: Seq<Option<i64>>) -> Reply<usize> {
    if status == 1 {
        match mark {
            Some(m) => match index_of_mark(marks, m, 0) {
                Some(i) => Reply::Done(i as usize),
                None => Reply::Failed,
            },
            None => Reply::Failed,
        }
    } else if status == 0 {
        Reply::Absent
    } else {
        Reply::Failed
    }
}

/// Turns the engine's answer to a lookup by name into the index of the
/// value it found.
pub fn found_index(status: i32, mark: Option<i64>, marks: &[Option<i64>]) -> (r: Reply<usize>)
    ensures
        r == found_at(status, mark, marks@),
        r matches Reply::Done(i) ==> i < marks@.len() && marks@[i as int] == mark,
{
    if status == 0 {
        return Reply::Absent;
    }
    if status != 1 {
        return Reply::Failed;
    }
    let wanted = match mark {
        Some(m) => m,
        None => {
            return Reply::Failed;
        },
    };
    let mut i: usize = 0;
    while i < marks.len()
        invariant
            status == 1,
            mark == Some(wanted),
            i <= marks@.len(),
            index_of_mark(marks@, wanted, 0) == index_of_mark(marks@, wanted, i as int),
        decreases marks@.len() - i,
    {
        match marks[i] {
            Some(m) => {
                if m == wanted {
                    return Reply::Done(i);
                }
            },
            None => {},
        }
        i += 1;
    }
    Reply::Failed
}

} // verus!
