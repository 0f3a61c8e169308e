//! One registry value as the engine presents it, and its typed decoders.

use vstd::prelude::*;
use vstd::string::*;
use crate::error::{DecodeError, RegfError, says};
use crate::field::{
    NativeField, Reply, decode_text, decode_u32, decode_u64, le_value, number, required_outcome,
    text_match, text_outcome,
};
use crate::handle_err_and_option;

verus! {

/// The declared type of a value's payload.
#[derive(Clone, Copy, Debug, PartialEq, Eq, Structural)]
pub enum RegfType {
    Undefined,
    String,
    ExpandableString,
    Binary,
    Int32LE,
    Int32BE,
    SymbolicLink,
    MultiString,
    ResourceList,
    FullResourceDescriptor,
    ResourceRequirementsList,
    Int64LE,
}

/// The type that a numeric tag stands for. A tag that stands for none is
/// `Undefined`.
pub open spec fn type_of_tag(tag: u32) -> RegfType {
    if tag == 1 {
        RegfType::String
    } else if tag == 2 {
        RegfType::ExpandableString
    } else if tag == 3 {
        RegfType::Binary
    } else if tag == 4 {
        RegfType::Int32LE
    } else if tag == 5 {
        RegfType::Int32BE
    } else if tag == 6 {
        RegfType::SymbolicLink
    } else if tag == 7 {
        RegfType::MultiString
    } else if tag == 8 {
        RegfType::ResourceList
    } else if tag == 9 {
        RegfType::FullResourceDescriptor
    } else if tag == 10 {
        RegfType::ResourceRequirementsList
    } else if tag == 11 {
        RegfType::Int64LE
    } else {
        RegfType::Undefined
    }
}

impl RegfType {
    /// Maps a numeric tag to its type; an unknown tag is `Undefined`, never
    /// an error.
    pub fn from_tag(tag: u32) -> (r: RegfType)
        ensures
            r == type_of_tag(tag),
    {
        match tag {
            1 => RegfType::String,
            2 => RegfType::ExpandableString,
            3 => RegfType::Binary,
            4 => RegfType::Int32LE,
            5 => RegfType::Int32BE,
            6 => RegfType::SymbolicLink,
            7 => RegfType::MultiString,
            8 => RegfType::ResourceList,
            9 => RegfType::FullResourceDescriptor,
            10 => RegfType::ResourceRequirementsList,
            11 => RegfType::Int64LE,
            _ => RegfType::Undefined,
        }
    }

    /// The numeric tag of a type.
    pub fn tag(&self) -> (r: u32)
        ensures
            r <= 11,
            type_of_tag(r) == *self,
    {
        match self {
            RegfType::Undefined => 0,
            RegfType::String => 1,
            RegfType::ExpandableString => 2,
            RegfType::Binary => 3,
            RegfType::Int32LE => 4,
            RegfType::Int32BE => 5,
            RegfType::SymbolicLink => 6,
            RegfType::MultiString => 7,
            RegfType::ResourceList => 8,
            RegfType::FullResourceDescriptor => 9,
            RegfType::ResourceRequirementsList => 10,
            RegfType::Int64LE => 11,
        }
    }
}

impl From<u32> for RegfType {
    fn from(tag: u32) -> (r: RegfType) {
        RegfType::from_tag(tag)
    }
}

impl vstd::std_specs::convert::FromSpecImpl<u32> for RegfType {
    open spec fn obeys_from_spec() -> bool {
        true
    }

    open spec fn from_spec(tag: u32) -> RegfType {
        type_of_tag(tag)
    }
}

/// One value as the engine presents it: its answers about the name, the
/// type tag, the payload as raw bytes, the payload as UTF-8 text and, for a
/// multi-string, each embedded string.
#[derive(Debug)]
pub struct RegfValue {
    pub name: NativeField,
    pub value_type: Option<u32>,
    pub data: NativeField,
    pub text: NativeField,
    pub strings: Option<Vec<NativeField>>,
}

/// The name under which a value without a stored name is reported.
pub open spec fn default_name() -> Seq<char> {
    "(default)"@
}

/// What decoding one field as text gives.
pub open spec fn field_text(f: NativeField) -> Result<Seq<char>, DecodeError> {
    match required_outcome(f.outcome()) {
        Err(e) => Err(e),
        Ok(bytes) => text_outcome(bytes),
    }
}

/// The embedded strings that decode, in their order; the others are left
/// out.
pub open spec fn kept_texts(fields: Seq<NativeField>) -> Seq<Seq<char>>
    decreases fields.len(),
{
    if fields.len() == 0 {
        Seq::empty()
    } else {
        let rest = kept_texts(fields.drop_last());
        match field_text(fields.last()) {
            Ok(text) => rest.push(text),
            Err(_) => rest,
        }
    }
}

/// The kind of a result's error, beside its value.
pub open spec fn by_kind<T>(r: Result<T, RegfError>) -> Result<T, DecodeError> {
    match r {
        Ok(t) => Ok(t),
        Err(e) => Err(e.kind),
    }
}

/// A text result by its characters and the kind of its error.
pub open spec fn text_by_kind(r: Result<String, RegfError>) -> Result<Seq<char>, DecodeError> {
    match r {
        Ok(t) => Ok(t@),
        Err(e) => Err(e.kind),
    }
}

/// A byte result by its bytes and the kind of its error.
pub open spec fn bytes_by_kind(r: Result<Vec<u8>, RegfError>) -> Result<Seq<u8>, DecodeError> {
    match r {
        Ok(t) => Ok(t@),
        Err(e) => Err(e.kind),
    }
}

/// The characters of each string of a list.
pub open spec fn texts_view(v: Seq<String>) -> Seq<Seq<char>> {
    v.map_values(|s: String| s@)
}

/// The strings of a multi-string value that decoded, and how many did not.
#[derive(Debug)]
pub struct MultiString {
    pub strings: Vec<String>,
    pub dropped: usize,
}

impl RegfValue {
    /// The name that the value is reported under.
    pub open spec fn name_outcome(&self) -> Result<Seq<char>, DecodeError> {
        match required_outcome(self.name.outcome()) {
            Err(e) => Err(e),
            Ok(bytes) => if self.name.is_empty() {
                Ok(default_name())
            } else {
                text_outcome(bytes)
            },
        }
    }

    /// The declared type.
    pub open spec fn type_outcome(&self) -> Result<RegfType, DecodeError> {
        match self.value_type {
            None => Err(DecodeError::NativeCallFailed),
            Some(tag) => Ok(type_of_tag(tag)),
        }
    }

    /// Whether the payload is declared as a 32-bit number stored highest
    /// byte first.
    pub open spec fn is_big_endian(&self) -> bool {
        self.value_type == Some(5u32)
    }

    /// The payload read as a 32-bit number.
    pub open spec fn u32_outcome(&self) -> Result<u32, DecodeError> {
        match self.data.data {
            Reply::Done(bytes) => if bytes@.len() == 4 {
                Ok(number(bytes@, self.is_big_endian()) as u32)
            } else {
                Err(DecodeError::NativeCallFailed)
            },
            _ => Err(DecodeError::NativeCallFailed),
        }
    }

    /// The payload read as a 64-bit number.
    pub open spec fn u64_outcome(&self) -> Result<u64, DecodeError> {
        match self.data.data {
            Reply::Done(bytes) => if bytes@.len() == 8 {
                Ok(le_value(bytes@) as u64)
            } else {
                Err(DecodeError::NativeCallFailed)
            },
            _ => Err(DecodeError::NativeCallFailed),
        }
    }

    /// The payload as bytes.
    pub open spec fn binary_outcome(&self) -> Result<Seq<u8>, DecodeError> {
        required_outcome(self.data.outcome())
    }

    /// The payload as text.
    pub open spec fn string_outcome(&self) -> Result<Seq<char>, DecodeError> {
        field_text(self.text)
    }

    /// The payload as a list of strings.
    pub open spec fn multi_string_outcome(&self) -> Result<Seq<Seq<char>>, DecodeError> {
        match self.strings {
            None => Err(DecodeError::NativeCallFailed),
            Some(fields) => Ok(kept_texts(fields@)),
        }
    }

    /// The value's name. A value whose stored name has length zero is the
    /// key's default value and is reported as `"(default)"`.
    pub fn get_name(&self) -> (r: Result<String, RegfError>)
        ensures
            text_by_kind(r) == self.name_outcome(),
            says(r, "value name"@),
    {
        let mut name: Option<String> = None;
        let mut error: Option<RegfError> = None;
        match self.name.read_required() {
            Err(kind) => {
                error = Some(RegfError::call_failed(kind, "value name"));
            },
            Ok(bytes) => {
                if bytes.len() == 0 {
                    name = Some(String::from_str("(default)"));
                } else {
                    match decode_text(bytes) {
                        Ok(text) => {
                            name = Some(text);
                        },
                        Err(_) => {},
                    }
                }
            },
        }
        handle_err_and_option(name, error, RegfError::function_returned_none("value name"))
    }

    /// The declared type of the payload.
    pub fn get_type(&self) -> (r: Result<RegfType, RegfError>)
        ensures
            by_kind(r) == self.type_outcome(),
            says(r, "value type"@),
    {
        match self.value_type {
            None => Err(RegfError::call_failed(DecodeError::NativeCallFailed, "value type")),
            Some(tag) => Ok(RegfType::from_tag(tag)),
        }
    }

    /// The payload as a 32-bit number: exactly four bytes, lowest first
    /// unless the value is declared big-endian. The declared type is not
    /// otherwise consulted.
    pub fn get_u32(&self) -> (r: Result<u32, RegfError>)
        ensures
            by_kind(r) == self.u32_outcome(),
            says(r, "value 32-bit"@),
    {
        let big_endian = match self.value_type {
            Some(tag) => tag == 5,
            None => false,
        };
        match &self.data.data {
            Reply::Done(bytes) => match decode_u32(bytes.as_slice(), big_endian) {
                Ok(n) => Ok(n),
                Err(kind) => Err(RegfError::call_failed(kind, "value 32-bit")),
            },
            _ => Err(RegfError::call_failed(DecodeError::NativeCallFailed, "value 32-bit")),
        }
    }

    /// The payload as a 64-bit number: exactly eight bytes, lowest first.
    pub fn get_u64(&self) -> (r: Result<u64, RegfError>)
        ensures
            by_kind(r) == self.u64_outcome(),
            says(r, "value 64-bit"@),
    {
        match &self.data.data {
            Reply::Done(bytes) => match decode_u64(bytes.as_slice()) {
                Ok(n) => Ok(n),
                Err(kind) => Err(RegfError::call_failed(kind, "value 64-bit")),
            },
            _ => Err(RegfError::call_failed(DecodeError::NativeCallFailed, "value 64-bit")),
        }
    }

    /// The payload as bytes, with no interpretation. A declared size of
    /// zero gives no bytes, not an error.
    pub fn get_binary(&self) -> (r: Result<Vec<u8>, RegfError>)
        ensures
            bytes_by_kind(r) == self.binary_outcome(),
            says(r, "value binary data"@),
    {
        match self.data.read_required() {
            Ok(bytes) => Ok(bytes),
            Err(kind) => Err(RegfError::call_failed(kind, "value binary data")),
        }
    }

    /// The payload as UTF-8 text.
    pub fn get_string(&self) -> (r: Result<String, RegfError>)
        ensures
            text_by_kind(r) == self.string_outcome(),
            says(r, "value string"@),
    {
        let mut text: Option<String> = None;
        let mut error: Option<RegfError> = None;
        match self.text.read_required() {
            Err(kind) => {
                error = Some(RegfError::call_failed(kind, "value string"));
            },
            Ok(bytes) => {
                match decode_text(bytes) {
                    Ok(t) => {
                        text = Some(t);
                    },
                    Err(_) => {},
                }
            },
        }
        handle_err_and_option(text, error, RegfError::function_returned_none("value string"))
    }
    /// The payload as a list of strings, with the count of the embedded
    /// strings that were left out because they could not be read or decoded.
    pub fn get_multi_string_report(&self) -> (r: Result<MultiString, RegfError>)
        ensures
            match self.multi_string_outcome() {
                Err(e) => r is Err && r->Err_0.kind == e,
                Ok(texts) => r is Ok && texts_view(r->Ok_0.strings@) == texts
                    && r->Ok_0.dropped + texts.len() == self.strings->Some_0@.len(),
            },
            says(r, "value multi string"@),
    {
        match &self.strings {
            None => Err(RegfError::call_failed(DecodeError::NativeCallFailed, "value multi string")),
            Some(fields) => {
                let mut strings: Vec<String> = Vec::new();
                let mut dropped: usize = 0;
                let mut i: usize = 0;
                assert(fields@.subrange(0, 0) =~= Seq::<NativeField>::empty());
                assert(texts_view(strings@) =~= Seq::<Seq<char>>::empty());
                while i < fields.len()
                    invariant
                        i <= fields.len(),
                        texts_view(strings@) == kept_texts(fields@.subrange(0, i as int)),
                        dropped + strings@.len() == i,
                    decreases fields.len() - i,
                {
                    let ghost before = strings@;
                    let decoded = match fields[i].read_required() {
                        Ok(bytes) => decode_text(bytes),
                        Err(kind) => Err(kind),
                    };
                    proof {
                        let upto = fields@.subrange(0, i as int + 1);
                        assert(upto.drop_last() =~= fields@.subrange(0, i as int));
                        assert(upto.last() == fields@[i as int]);
                    }
                    match decoded {
                        Ok(text) => {
                            strings.push(text);
                            assert(texts_view(strings@) =~= texts_view(before).push(text@));
                        },
                        Err(_) => {
                            dropped += 1;
                        },
                    }
                    i += 1;
                }
                assert(fields@.subrange(0, i as int) =~= fields@);
                Ok(MultiString { strings, dropped })
            },
        }
    }

    /// The payload as a list of strings. An embedded string that cannot be
    /// read or decoded is left out; the others keep their order.
    pub fn get_multi_string(&self) -> (r: Result<Vec<String>, RegfError>)
        ensures
            match self.multi_string_outcome() {
                Err(e) => r is Err && r->Err_0.kind == e,
                Ok(texts) => r is Ok && texts_view(r->Ok_0@) == texts,
            },
            says(r, "value multi string"@),
    {
        match self.get_multi_string_report() {
            Ok(report) => Ok(report.strings),
            Err(e) => Err(e),
        }
    }
}

/// Whether two byte results are the same: the same bytes, or the same
/// failure.
pub open spec fn same_bytes(a: Result<Vec<u8>, DecodeError>, b: Result<Vec<u8>, DecodeError>) -> bool {
    match (a, b) {
        (Ok(x), Ok(y)) => x@ == y@,
        (Err(e), Err(f)) => e == f,
        _ => false,
    }
}

/// Whether two text results are the same: the same characters, or the same
/// failure.
pub open spec fn same_text(a: Result<String, DecodeError>, b: Result<String, DecodeError>) -> bool {
    match (a, b) {
        (Ok(x), Ok(y)) => x@ == y@,
        (Err(e), Err(f)) => e == f,
        _ => false,
    }
}

/// Whether a byte result is what the model `m` asks for.
pub open spec fn binary_match(r: Result<Vec<u8>, DecodeError>, m: Result<Seq<u8>, DecodeError>) -> bool {
    match m {
        Err(e) => r is Err && r->Err_0 == e,
        Ok(bytes) => r is Ok && r->Ok_0@ == bytes,
    }
}

/// Reading a value's bytes twice gives the same bytes, or the same failure:
/// any two results that the binary accessor may return for one value agree.
pub proof fn law_binary_reads_agree(
    v: RegfValue,
    a: Result<Vec<u8>, DecodeError>,
    b: Result<Vec<u8>, DecodeError>,
)
    requires
        binary_match(a, v.binary_outcome()),
        binary_match(b, v.binary_outcome()),
    ensures
        same_bytes(a, b),
{
}

/// Reading a value's text twice gives the same text, or the same failure:
/// any two results that the string accessor may return for one value agree.
pub proof fn law_string_reads_agree(
    v: RegfValue,
    a: Result<String, DecodeError>,
    b: Result<String, DecodeError>,
)
    requires
        text_match(a, v.string_outcome()),
        text_match(b, v.string_outcome()),
    ensures
        same_text(a, b),
{
}

/// Reading a value's name twice gives the same name, or the same failure.
pub proof fn law_name_reads_agree(
    v: RegfValue,
    a: Result<String, DecodeError>,
    b: Result<String, DecodeError>,
)
    requires
        text_match(a, v.name_outcome()),
        text_match(b, v.name_outcome()),
    ensures
        same_text(a, b),
{
}

/// A value is reported as `"(default)"` exactly if its stored name has
/// length zero, unless the stored name itself spells `"(default)"`.
pub proof fn law_default_name(v: RegfValue)
    requires
        field_text(v.name) != Ok::<Seq<char>, DecodeError>(default_name()),
    ensures
        v.name_outcome() == Ok::<Seq<char>, DecodeError>(default_name()) <==> v.name.is_empty(),
{
}

} // verus!
