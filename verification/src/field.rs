//! Variable-length fields and the two-phase size/read protocol by which
//! they are fetched, with the decoders for the bytes that come back.

use vstd::prelude::*;
use vstd::utf8::*;
use crate::error::DecodeError;

verus! {

/// What the engine answered to one call: it failed, it reported that the
/// thing asked for does not exist, or it delivered a result.
#[derive(Debug)]
pub enum Reply<T> {
    Failed,
    Absent,
    Done(T),
}

/// The engine's two answers for one variable-length field: to the size
/// query, and to the read that follows it.
#[derive(Debug)]
pub struct NativeField {
    pub size: Reply<usize>,
    pub data: Reply<Vec<u8>>,
}

/// The outcome of the size/read protocol on a field, over plain sequences:
/// `Ok(None)` for a field that does not exist, `Ok(Some(..))` for its bytes.
pub open spec fn read_outcome(size: Reply<usize>, data: Reply<Seq<u8>>) -> Result<
    Option<Seq<u8>>,
    DecodeError,
> {
    match size {
        Reply::Failed => Err(DecodeError::SizeQueryFailed),
        Reply::Absent => Ok(None),
        Reply::Done(n) => if n == 0 {
            Ok(Some(Seq::<u8>::empty()))
        } else {
            match data {
                Reply::Failed => Err(DecodeError::ReadFailed),
                Reply::Absent => Ok(None),
                Reply::Done(bytes) => if bytes.len() > n {
                    Err(DecodeError::BufferTooSmall)
                } else if bytes.len() < n {
                    Err(DecodeError::ReadFailed)
                } else {
                    Ok(Some(bytes))
                },
            }
        },
    }
}

/// The outcome for a field that must exist: an absent one is a failed call.
pub open spec fn required_outcome(outcome: Result<Option<Seq<u8>>, DecodeError>) -> Result<
    Seq<u8>,
    DecodeError,
> {
    match outcome {
        Err(e) => Err(e),
        Ok(None) => Err(DecodeError::NativeCallFailed),
        Ok(Some(bytes)) => Ok(bytes),
    }
}

/// The text that bytes stand for, or the encoding failure.
pub open spec fn text_outcome(bytes: Seq<u8>) -> Result<Seq<char>, DecodeError> {
    if valid_utf8(bytes) {
        Ok(decode_utf8(bytes))
    } else {
        Err(DecodeError::InvalidEncoding)
    }
}

/// The number that `bytes` hold, lowest byte first.
pub open spec fn le_value(bytes: Seq<u8>) -> nat
    decreases bytes.len(),
{
    if bytes.len() == 0 {
        0
    } else {
        bytes[0] as nat + 256 * le_value(bytes.drop_first())
    }
}

/// The number that `bytes` hold, highest byte first.
pub open spec fn be_value(bytes: Seq<u8>) -> nat
    decreases bytes.len(),
{
    if bytes.len() == 0 {
        0
    } else {
        256 * be_value(bytes.drop_last()) + bytes.last() as nat
    }
}

/// Whether two byte outcomes agree: exec bytes against their model.
pub open spec fn bytes_match(r: Result<Option<Vec<u8>>, DecodeError>, m: Result<
    Option<Seq<u8>>,
    DecodeError,
>) -> bool {
    match m {
        Err(e) => r == Err::<Option<Vec<u8>>, DecodeError>(e),
        Ok(None) => r == Ok::<Option<Vec<u8>>, DecodeError>(None),
        Ok(Some(bytes)) => r is Ok && r->Ok_0 is Some && r->Ok_0->Some_0@ == bytes,
    }
}

/// Whether a text result agrees with its model.
pub open spec fn text_match(r: Result<String, DecodeError>, m: Result<Seq<char>, DecodeError>) -> bool {
    match m {
        Err(e) => r == Err::<String, DecodeError>(e),
        Ok(chars) => r is Ok && r->Ok_0@ == chars,
    }
}

/// Whether a status is the engine's report of success.
pub fn succeeded(status: i32) -> (r: bool)
    ensures
        r == (status == 1),
{
    status == 1
}

/// Whether a status is the engine's report of a close without fault.
pub fn closed(status: i32) -> (r: bool)
    ensures
        r == (status == 0),
{
    status == 0
}

/// Whether a call that hands out a handle did so: it reported success and
/// the handle is there.
pub fn opened(status: i32, has_handle: bool) -> (r: bool)
    ensures
        r == (status == 1 && has_handle),
{
    status == 1 && has_handle
}

/// What a call answered that reports only success or failure: the value it
/// filled in, if it reported success.
pub fn answered<T>(status: i32, value: T) -> (r: Option<T>)
    ensures
        r == (if status == 1 {
            Some(value)
        } else {
            None
        }),
{
    if status == 1 {
        Some(value)
    } else {
        None
    }
}

/// The number of indices to ask the engine about, given what it answered
/// to the count query: as many as it reported, and none where the query
/// failed or the count is not above zero.
pub fn lookups(count: &Option<i32>) -> (r: i32)
    ensures
        r == (match *count {
            Some(n) => if n > 0 {
                n
            } else {
                0
            },
            None => 0,
        }),
{
    match count {
        Some(n) => if *n > 0 {
            *n
        } else {
            0
        },
        None => 0,
    }
}

impl<T> Reply<T> {
    /// What a call answered, by its status: 1 is success, with the value it
    /// filled in; 0 says that what was asked for does not exist; anything
    /// else is a failure.
    pub fn from_status(status: i32, value: T) -> (r: Reply<T>)
        ensures
            r == (if status == 1 {
                Reply::Done(value)
            } else if status == 0 {
                Reply::Absent
            } else {
                Reply::Failed
            }),
    {
        if status == 1 {
            Reply::Done(value)
        } else if status == 0 {
            Reply::Absent
        } else {
            Reply::Failed
        }
    }
}

/// The length of the buffer for the read that follows a size query, or
/// `None` where no read is to be issued: after a failed query, for a field
/// that does not exist, and for a size of zero.
pub fn buffer_len(size: &Reply<usize>) -> (r: Option<usize>)
    ensures
        r == (match *size {
            Reply::Done(n) => if n == 0 {
                None
            } else {
                Some(n)
            },
            _ => None,
        }),
        r is None ==> forall|data: Reply<Seq<u8>>, other: Reply<Seq<u8>>|
            read_outcome(*size, data) == read_outcome(*size, other),
{
    match size {
        Reply::Done(n) => if *n == 0 {
            None
        } else {
            Some(*n)
        },
        _ => None,
    }
}

impl NativeField {
    /// The field's data reply, as a plain sequence.
    pub open spec fn data_view(&self) -> Reply<Seq<u8>> {
        match self.data {
            Reply::Failed => Reply::Failed,
            Reply::Absent => Reply::Absent,
            Reply::Done(bytes) => Reply::Done(bytes@),
        }
    }

    /// What the protocol gives for this field.
    pub open spec fn outcome(&self) -> Result<Option<Seq<u8>>, DecodeError> {
        read_outcome(self.size, self.data_view())
    }

    /// Whether the engine reported a size of zero for this field.
    pub open spec fn is_empty(&self) -> bool {
        self.size == Reply::Done(0usize)
    }

    /// A field that the engine serves without fault, holding `bytes`.
    pub fn present(bytes: Vec<u8>) -> (r: NativeField)
        ensures
            r.size == Reply::Done(bytes.len()),
            r.data == Reply::Done(bytes),
            r.outcome() == Ok::<Option<Seq<u8>>, DecodeError>(Some(bytes@)),
    {
        let n = bytes.len();
        proof {
            if n == 0 {
                assert(bytes@ =~= Seq::<u8>::empty());
            }
        }
        NativeField { size: Reply::Done(n), data: Reply::Done(bytes) }
    }

    /// A field that the engine reports as not existing.
    pub fn absent() -> (r: NativeField)
        ensures
            r.size == Reply::<usize>::Absent,
            r.outcome() == Ok::<Option<Seq<u8>>, DecodeError>(None),
    {
        NativeField { size: Reply::Absent, data: Reply::Absent }
    }

    /// Runs the size/read protocol: the size is asked first; a size of zero
    /// ends it with empty bytes and no read; otherwise the read must deliver
    /// exactly as many bytes as were announced. The buffer handed out is
    /// never longer than the announced size.
    pub fn read(&self) -> (r: Result<Option<Vec<u8>>, DecodeError>)
        ensures
            bytes_match(r, self.outcome()),
            r matches Ok(Some(buf)) ==> self.size == Reply::Done(buf.len()),
    {
        match &self.size {
            Reply::Failed => Err(DecodeError::SizeQueryFailed),
            Reply::Absent => Ok(None),
            Reply::Done(n) => {
                if *n == 0 {
                    Ok(Some(Vec::new()))
                } else {
                    match &self.data {
                        Reply::Failed => Err(DecodeError::ReadFailed),
                        Reply::Absent => Ok(None),
                        Reply::Done(bytes) => {
                            if bytes.len() > *n {
                                Err(DecodeError::BufferTooSmall)
                            } else if bytes.len() < *n {
                                Err(DecodeError::ReadFailed)
                            } else {
                                Ok(Some(copy_bytes(bytes.as_slice())))
                            }
                        },
                    }
                }
            },
        }
    }

    /// Runs the protocol for a field that must exist.
    pub fn read_required(&self) -> (r: Result<Vec<u8>, DecodeError>)
        ensures
            match required_outcome(self.outcome()) {
                Err(e) => r == Err::<Vec<u8>, DecodeError>(e),
                Ok(bytes) => r is Ok && r->Ok_0@ == bytes,
            },
    {
        match self.read() {
            Err(e) => Err(e),
            Ok(None) => Err(DecodeError::NativeCallFailed),
            Ok(Some(bytes)) => Ok(bytes),
        }
    }
}

/// A fresh copy of `bytes`.
pub fn copy_bytes(bytes: &[u8]) -> (r: Vec<u8>)
    ensures
        r@ == bytes@,
{
    let mut out: Vec<u8> = Vec::new();
    let mut i: usize = 0;
    while i < bytes.len()
        invariant
            i <= bytes.len(),
            out@ == bytes@.subrange(0, i as int),
        decreases bytes.len() - i,
    {
        out.push(bytes[i]);
        i += 1;
        assert(out@ =~= bytes@.subrange(0, i as int));
    }
    assert(out@ =~= bytes@);
    out
}

/// std's `String::from_utf8`: the bytes become a string exactly when they
/// are valid UTF-8, and the string then holds the characters they encode.
#[verifier::external_body]
fn utf8_to_string(bytes: Vec<u8>) -> (r: Option<String>)
    ensures
        r is Some <==> valid_utf8(bytes@),
        r is Some ==> r->Some_0@ == decode_utf8(bytes@),
{
    String::from_utf8(bytes).ok()
}

/// Decodes bytes as UTF-8 text. Invalid sequences are refused, never
/// replaced or cut off.
pub fn decode_text(bytes: Vec<u8>) -> (r: Result<String, DecodeError>)
    ensures
        text_match(r, text_outcome(bytes@)),
{
    match utf8_to_string(bytes) {
        Some(text) => Ok(text),
        None => Err(DecodeError::InvalidEncoding),
    }
}

/// The number that a fixed-width payload holds, in the given byte order.
pub open spec fn number(bytes: Seq<u8>, big_endian: bool) -> nat {
    if big_endian {
        be_value(bytes)
    } else {
        le_value(bytes)
    }
}

/// The low-first value of four bytes, written out.
pub proof fn lemma_le_value_4(b: Seq<u8>)
    requires
        b.len() == 4,
    ensures
        le_value(b) == b[0] as nat + 256 * (b[1] as nat + 256 * (b[2] as nat + 256 * (b[3] as nat))),
        le_value(b) <= u32::MAX,
{
    let b1 = b.drop_first();
    let b2 = b1.drop_first();
    let b3 = b2.drop_first();
    let b4 = b3.drop_first();
    assert(b4.len() == 0);
    assert(le_value(b4) == 0);
    assert(le_value(b3) == b[3] as nat + 256 * le_value(b4));
    assert(le_value(b2) == b[2] as nat + 256 * le_value(b3));
    assert(le_value(b1) == b[1] as nat + 256 * le_value(b2));
    assert(le_value(b) == b[0] as nat + 256 * le_value(b1));
}

/// The high-first value of four bytes, written out.
pub proof fn lemma_be_value_4(b: Seq<u8>)
    requires
        b.len() == 4,
    ensures
        be_value(b) == b[3] as nat + 256 * (b[2] as nat + 256 * (b[1] as nat + 256 * (b[0] as nat))),
        be_value(b) <= u32::MAX,
{
    let b1 = b.drop_last();
    let b2 = b1.drop_last();
    let b3 = b2.drop_last();
    let b4 = b3.drop_last();
    assert(b4.len() == 0);
    assert(be_value(b4) == 0);
    assert(be_value(b3) == 256 * be_value(b4) + b[0] as nat);
    assert(be_value(b2) == 256 * be_value(b3) + b[1] as nat);
    assert(be_value(b1) == 256 * be_value(b2) + b[2] as nat);
    assert(be_value(b) == 256 * be_value(b1) + b[3] as nat);
}

/// The low-first value of eight bytes is that of its two halves.
pub proof fn lemma_le_value_8(b: Seq<u8>)
    requires
        b.len() == 8,
    ensures
        le_value(b) == le_value(b.subrange(0, 4)) + 4294967296 * le_value(b.subrange(4, 8)),
        le_value(b) <= u64::MAX,
{
    let lo = b.subrange(0, 4);
    let hi = b.subrange(4, 8);
    lemma_le_value_4(lo);
    lemma_le_value_4(hi);
    let b1 = b.drop_first();
    let b2 = b1.drop_first();
    let b3 = b2.drop_first();
    let b4 = b3.drop_first();
    assert(b4 =~= hi);
    assert(le_value(b3) == b[3] as nat + 256 * le_value(b4));
    assert(le_value(b2) == b[2] as nat + 256 * le_value(b3));
    assert(le_value(b1) == b[1] as nat + 256 * le_value(b2));
    assert(le_value(b) == b[0] as nat + 256 * le_value(b1));
}

/// Decodes a 32-bit number from a payload of exactly four bytes, lowest
/// byte first unless `big_endian` is set. Any other length is refused.
pub fn decode_u32(bytes: &[u8], big_endian: bool) -> (r: Result<u32, DecodeError>)
    ensures
        bytes@.len() != 4 ==> r == Err::<u32, DecodeError>(DecodeError::NativeCallFailed),
        bytes@.len() == 4 ==> r is Ok && r->Ok_0 as nat == number(bytes@, big_endian),
{
    if bytes.len() != 4 {
        return Err(DecodeError::NativeCallFailed);
    }
    proof {
        lemma_le_value_4(bytes@);
        lemma_be_value_4(bytes@);
    }
    let b0: u32 = bytes[0] as u32;
    let b1: u32 = bytes[1] as u32;
    let b2: u32 = bytes[2] as u32;
    let b3: u32 = bytes[3] as u32;
    if big_endian {
        Ok(b3 + 256 * (b2 + 256 * (b1 + 256 * b0)))
    } else {
        Ok(b0 + 256 * (b1 + 256 * (b2 + 256 * b3)))
    }
}

/// Decodes a 64-bit number from a payload of exactly eight bytes, lowest
/// byte first. Any other length is refused.
pub fn decode_u64(bytes: &[u8]) -> (r: Result<u64, DecodeError>)
    ensures
        bytes@.len() != 8 ==> r == Err::<u64, DecodeError>(DecodeError::NativeCallFailed),
        bytes@.len() == 8 ==> r is Ok && r->Ok_0 as nat == le_value(bytes@),
{
    if bytes.len() != 8 {
        return Err(DecodeError::NativeCallFailed);
    }
    proof {
        lemma_le_value_8(bytes@);
        lemma_le_value_4(bytes@.subrange(0, 4));
        lemma_le_value_4(bytes@.subrange(4, 8));
    }
    let b0: u64 = bytes[0] as u64;
    let b1: u64 = bytes[1] as u64;
    let b2: u64 = bytes[2] as u64;
    let b3: u64 = bytes[3] as u64;
    let b4: u64 = bytes[4] as u64;
    let b5: u64 = bytes[5] as u64;
    let b6: u64 = bytes[6] as u64;
    let b7: u64 = bytes[7] as u64;
    let lo: u64 = b0 + 256 * (b1 + 256 * (b2 + 256 * b3));
    let hi: u64 = b4 + 256 * (b5 + 256 * (b6 + 256 * b7));
    Ok(lo + 4294967296 * hi)
}

} // verus!
