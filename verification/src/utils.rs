//! Decoding of the binary streams in which an environment sends arrays of
//! numbers: base64 text that holds zlib-compressed little-endian elements.

use vstd::prelude::*;
use base64::engine::general_purpose::STANDARD;
use base64::Engine;
use flate2::read::ZlibDecoder;
use std::io::Read;
use crate::defs::Discrete;

verus! {

/// The error of the `base64` crate's decoders. Opaque here.
#[verifier::external_type_specification]
#[verifier::external_body]
pub struct ExDecodeError(base64::DecodeError);

/// The error of std's readers. Opaque here.
#[verifier::external_type_specification]
#[verifier::external_body]
pub struct ExIoError(std::io::Error);

/// The kinds of elements that a stream may hold, after the sender's names
/// "int32", "int64", "float32" and "float64".
#[derive(Clone, Copy, Debug, PartialEq, Eq, Structural)]
pub enum ElementKind {
    Int32,
    Int64,
    Float32,
    Float64,
}

/// Why a stream could not be decoded.
#[derive(Clone, Copy, Debug, PartialEq, Eq, Structural)]
pub enum StreamError {
    /// The text is not base64.
    Encoding,
    /// The bytes are not a zlib stream.
    Compression,
    /// The sender's element type is not the one expected.
    TypeMismatch,
    /// The bytes are not a whole number of elements.
    Ragged,
}

/// What the standard base64 alphabet, with padding, decodes `text` to;
/// `None` for text that is not base64.
pub uninterp spec fn base64_decoded(text: Seq<char>) -> Option<Seq<u8>>;

/// What the zlib stream `bytes` decompresses to; `None` for bytes that are
/// no zlib stream.
pub uninterp spec fn zlib_inflated(bytes: Seq<u8>) -> Option<Seq<u8>>;

/// Decodes base64 text.
///
/// Wraps `Engine::decode` of `base64` on its `STANDARD` engine. The contract
/// gives what it hands back the name `base64_decoded`: the bytes where it
/// succeeds, `None` where it fails.
#[verifier::external_body]
fn base64_decode(text: &str) -> (r: Result<Vec<u8>, base64::DecodeError>)
    ensures
        match r {
            Ok(bytes) => base64_decoded(text@) == Some(bytes@),
            Err(_) => base64_decoded(text@) is None,
        },
{
    STANDARD.decode(text)
}

/// Decompresses a zlib stream held in memory.
///
/// Wraps `ZlibDecoder::new` of `flate2` on the bytes and `read_to_end` on
/// the decoder. The contract gives what is read the name `zlib_inflated`:
/// the bytes where reading succeeds, `None` where it fails.
#[verifier::external_body]
fn zlib_inflate(bytes: &Vec<u8>) -> (r: Result<Vec<u8>, std::io::Error>)
    ensures
        match r {
            Ok(out) => zlib_inflated(bytes@) == Some(out@),
            Err(_) => zlib_inflated(bytes@) is None,
        },
{
    let mut out = Vec::new();
    ZlibDecoder::new(&bytes[..]).read_to_end(&mut out)?;
    Ok(out)
}

/// The bytes that a stream holds: its text decoded, then decompressed.
pub open spec fn stream_bytes(data: Seq<char>) -> Result<Seq<u8>, StreamError> {
    match base64_decoded(data) {
        None => Err(StreamError::Encoding),
        Some(packed) => match zlib_inflated(packed) {
            None => Err(StreamError::Compression),
            Some(bytes) => Ok(bytes),
        },
    }
}

/// Decodes and decompresses a stream.
pub fn deserialize_binary_stream_to_bytes(data: &str) -> (r: Result<Vec<u8>, StreamError>)
    ensures
        match r {
            Ok(bytes) => stream_bytes(data@) == Ok::<Seq<u8>, StreamError>(bytes@),
            Err(e) => stream_bytes(data@) == Err::<Seq<u8>, StreamError>(e),
        },
{
    match base64_decode(data) {
        Err(_) => Err(StreamError::Encoding),
        Ok(packed) => match zlib_inflate(&packed) {
            Err(_) => Err(StreamError::Compression),
            Ok(bytes) => Ok(bytes),
        },
    }
}

/// The kind of elements that the sender calls `name`.
pub open spec fn kind_named(name: Seq<char>) -> Option<ElementKind> {
    if name == "int32"@ {
        Some(ElementKind::Int32)
    } else if name == "int64"@ {
        Some(ElementKind::Int64)
    } else if name == "float32"@ {
        Some(ElementKind::Float32)
    } else if name == "float64"@ {
        Some(ElementKind::Float64)
    } else {
        None
    }
}

/// The kind of elements that the sender calls `name`; `None` for a name
/// that is not one of the four.
pub fn map_py_type_name_to_rust(name: &str) -> (r: Option<ElementKind>)
    ensures
        r == kind_named(name@),
{
    let name: String = name.to_owned();
    if name == "int32".to_owned() {
        Some(ElementKind::Int32)
    } else if name == "int64".to_owned() {
        Some(ElementKind::Int64)
    } else if name == "float32".to_owned() {
        Some(ElementKind::Float32)
    } else if name == "float64".to_owned() {
        Some(ElementKind::Float64)
    } else {
        None
    }
}

/// The number of bytes that an element of the kind takes.
pub open spec fn width_of(kind: ElementKind) -> int {
    match kind {
        ElementKind::Int32 | ElementKind::Float32 => 4,
        ElementKind::Int64 | ElementKind::Float64 => 8,
    }
}

/// The number that `width` bytes from position `from` on hold, the lowest
/// byte first.
pub open spec fn le_value(bytes: Seq<u8>, from: int, width: int) -> int
    decreases width,
{
    if width <= 0 {
        0
    } else {
        bytes[from] + 256 * le_value(bytes, from + 1, width - 1)
    }
}

/// Whether `words` are the elements of `width` bytes each that `bytes`
/// hold, one after the other.
pub open spec fn are_elements(bytes: Seq<u8>, width: int, words: Seq<u64>) -> bool {
    &&& words.len() * width == bytes.len()
    &&& forall|k: int| 0 <= k < words.len() ==> #[trigger] words[k] == le_value(bytes, k * width, width)
}

/// Reads the element of the kind that starts at `from`.
fn element_at(bytes: &Vec<u8>, from: usize, kind: ElementKind) -> (r: u64)
    requires
        from + width_of(kind) <= bytes.len(),
    ensures
        r == le_value(bytes@, from as int, width_of(kind)),
{
    proof {
        reveal_with_fuel(le_value, 9);
    }
    let low: u64 = bytes[from] as u64 + bytes[from + 1] as u64 * 0x100 + bytes[from + 2] as u64
        * 0x1_0000 + bytes[from + 3] as u64 * 0x100_0000;
    match kind {
        ElementKind::Int32 | ElementKind::Float32 => low,
        ElementKind::Int64 | ElementKind::Float64 => {
            let high: u64 = bytes[from + 4] as u64 + bytes[from + 5] as u64 * 0x100 + bytes[from
                + 6] as u64 * 0x1_0000 + bytes[from + 7] as u64 * 0x100_0000;
            low + high * 0x1_0000_0000
        },
    }
}

/// Splits bytes into elements of the kind, each held as the number that its
/// bytes spell, the lowest byte first. Fails on bytes that are not a whole
/// number of elements.
pub fn elements_of(bytes: &Vec<u8>, kind: ElementKind) -> (r: Result<Vec<u64>, StreamError>)
    ensures
        match r {
            Ok(words) => are_elements(bytes@, width_of(kind), words@),
            Err(e) => e == StreamError::Ragged && bytes@.len() as int % width_of(kind) != 0,
        },
{
    let width: usize = match kind {
        ElementKind::Int32 | ElementKind::Float32 => 4,
        ElementKind::Int64 | ElementKind::Float64 => 8,
    };
    if bytes.len() % width != 0 {
        return Err(StreamError::Ragged);
    }
    let count: usize = bytes.len() / width;
    let mut words: Vec<u64> = Vec::new();
    let mut k: usize = 0;
    while k < count
        invariant
            k <= count,
            width == width_of(kind),
            count * width == bytes.len(),
            words.len() == k,
            forall|j: int| 0 <= j < k ==> #[trigger] words[j] == le_value(bytes@, j * width, width as int),
        decreases count - k,
    {
        assert(k * width + width <= count * width) by (nonlinear_arith)
            requires
                k < count,
                width > 0,
        ;
        words.push(element_at(bytes, k * width, kind));
        k = k + 1;
    }
    Ok(words)
}

/// The elements that a stream of the expected kind holds.
pub open spec fn stream_elements(kind: ElementKind, ty: Seq<char>, data: Seq<char>, out: Result<
    Vec<u64>,
    StreamError,
>) -> bool {
    if kind_named(ty) != Some(kind) {
        out == Err::<Vec<u64>, StreamError>(StreamError::TypeMismatch)
    } else {
        match stream_bytes(data) {
            Err(e) => out == Err::<Vec<u64>, StreamError>(e),
            Ok(bytes) => if bytes.len() as int % width_of(kind) != 0 {
                out == Err::<Vec<u64>, StreamError>(StreamError::Ragged)
            } else {
                out is Ok && are_elements(bytes, width_of(kind), out->Ok_0@)
            },
        }
    }
}

/// Decodes a stream that the sender says holds elements of type `ty`, where
/// elements of `kind` are expected.
pub fn deserialize_binary_stream(kind: ElementKind, ty: &str, data: &str) -> (r: Result<
    Vec<u64>,
    StreamError,
>)
    ensures
        stream_elements(kind, ty@, data@, r),
{
    match map_py_type_name_to_rust(ty) {
        Some(named) => {
            if named != kind {
                return Err(StreamError::TypeMismatch);
            }
        },
        None => {
            return Err(StreamError::TypeMismatch);
        },
    }
    match deserialize_binary_stream_to_bytes(data) {
        Err(e) => Err(e),
        Ok(bytes) => elements_of(&bytes, kind),
    }
}

/// The whole number that a 64-bit element holds in two's complement.
pub open spec fn signed_value(word: u64) -> int {
    if word <= i64::MAX as u64 {
        word as int
    } else {
        word - 0x1_0000_0000_0000_0000
    }
}

/// Reads a 64-bit element as a whole number in two's complement.
pub fn discrete_of(word: u64) -> (r: Discrete)
    ensures
        r == signed_value(word),
{
    if word <= i64::MAX as u64 {
        word as i64
    } else {
        ((word - 0x8000_0000_0000_0000) as i64) + i64::MIN
    }
}

} // verus!
