//! The MessagePack encodings that the plugin side of the import protocol
//! produces and accepts itself, through `rmp_serde`.

use vstd::prelude::*;
use vstd::string::StringSliceAdditionalSpecFns;

verus! {

/// `rmp_serde::encode::Error`, the failure of serialization.
#[verifier::external_type_specification]
#[verifier::external_body]
pub struct ExEncodeError(rmp_serde::encode::Error);

/// `rmp_serde::decode::Error`, the failure of deserialization.
#[verifier::external_type_specification]
#[verifier::external_body]
pub struct ExDecodeError(rmp_serde::decode::Error);

/// The MessagePack `str` value that carries the UTF-8 bytes `bytes`: a
/// marker chosen by the length (fixstr, str 8, str 16 or str 32), the length
/// in big-endian order where the marker does not hold it, then the bytes.
/// The length written is the byte count taken modulo 2^32.
pub open spec fn msgpack_str(bytes: Seq<u8>) -> Seq<u8> {
    let n = bytes.len() % 0x1_0000_0000;
    let header = if n < 32 {
        seq![(0xa0 + n) as u8]
    } else if n < 256 {
        seq![0xd9u8, n as u8]
    } else if n < 0x1_0000 {
        seq![0xdau8, (n / 0x100) as u8, (n % 0x100) as u8]
    } else {
        seq![
            0xdbu8,
            (n / 0x100_0000) as u8,
            ((n / 0x1_0000) % 0x100) as u8,
            ((n / 0x100) % 0x100) as u8,
            (n % 0x100) as u8,
        ]
    };
    header + bytes
}

/// The MessagePack `str` value that carries the UTF-8 bytes of `s`.
///
/// This is the whole of what `rmp_serde::to_vec` writes for a string slice,
/// built here so that it cannot fail: the serializer reports a buffer that
/// cannot grow as an error, while pushing onto a vector does not return.
pub fn msgpack_str_bytes(s: &str) -> (v: Vec<u8>)
    ensures
        v@ == msgpack_str(s.spec_bytes()),
{
    let bytes = s.as_bytes();
    let len: usize = bytes.len();
    let n: u64 = (len as u64) % 0x1_0000_0000;
    assert(n == bytes@.len() % 0x1_0000_0000);
    let mut v: Vec<u8> = Vec::new();
    if n < 32 {
        v.push((0xa0 + n) as u8);
    } else if n < 256 {
        v.push(0xd9);
        v.push(n as u8);
    } else if n < 0x1_0000 {
        v.push(0xda);
        v.push((n / 0x100) as u8);
        v.push((n % 0x100) as u8);
    } else {
        v.push(0xdb);
        v.push((n / 0x100_0000) as u8);
        v.push(((n / 0x1_0000) % 0x100) as u8);
        v.push(((n / 0x100) % 0x100) as u8);
        v.push((n % 0x100) as u8);
    }
    let ghost header = v@;
    assert(header + bytes@ == msgpack_str(s.spec_bytes()));
    let mut i: usize = 0;
    while i < len
        invariant
            i <= len,
            len == bytes@.len(),
            v@ == header + bytes@.subrange(0, i as int),
        decreases len - i,
    {
        v.push(bytes[i]);
        i = i + 1;
        assert(v@ =~= header + bytes@.subrange(0, i as int));
    }
    assert(bytes@.subrange(0, len as int) =~= bytes@);
    v
}

/// The MessagePack encoding of the unit value: `nil`.
pub open spec fn msgpack_nil() -> Seq<u8> {
    seq![0xc0u8]
}

/// Whether `bytes` decode as the unit value: their first byte is the `nil`
/// marker; whatever follows it is not looked at.
pub open spec fn decodes_as_unit(bytes: Seq<u8>) -> bool {
    bytes.len() >= 1 && bytes[0] == 0xc0
}

/// Serializes a string slice with `rmp_serde::to_vec`.
///
/// Trusted: when the call succeeds, its bytes are the MessagePack `str`
/// encoding of the slice's UTF-8 bytes, as `rmp::encode::write_str` writes
/// them. The call fails only when the output buffer cannot grow; when it
/// fails is not stated.
#[verifier::external_body]
pub(crate) fn encode_str(s: &str) -> (r: Result<Vec<u8>, rmp_serde::encode::Error>)
    ensures
        r matches Ok(v) ==> v@ == msgpack_str(s.spec_bytes()),
{
    rmp_serde::to_vec(&s)
}

/// Serializes the unit value with `rmp_serde::to_vec`.
///
/// Trusted: when the call succeeds, its bytes are the `nil` marker, as
/// `rmp::encode::write_nil` writes it. The call fails only when the output
/// buffer cannot grow; when it fails is not stated.
#[verifier::external_body]
pub(crate) fn encode_unit() -> (r: Result<Vec<u8>, rmp_serde::encode::Error>)
    ensures
        r matches Ok(v) ==> v@ == msgpack_nil(),
{
    rmp_serde::to_vec(&())
}

/// Deserializes the unit value with `rmp_serde::from_slice::<()>`.
///
/// Trusted: the call succeeds exactly when the first byte is the `nil`
/// marker, which the deserializer's `any_inner` hands to the unit visitor as
/// the unit value; every other marker, and empty input, is an error, and
/// bytes after the marker are not read.
#[verifier::external_body]
pub(crate) fn decode_unit(bytes: &[u8]) -> (r: Result<(), rmp_serde::decode::Error>)
    ensures
        r is Ok <==> decodes_as_unit(bytes@),
{
    rmp_serde::from_slice::<()>(bytes)
}

/// The MessagePack payload that carries the unit value, which every export
/// without a result answers with; `None` when it could not be built.
pub fn unit_payload() -> (r: Option<Vec<u8>>)
    ensures
        r matches Some(v) ==> v@ == msgpack_nil(),
{
    match encode_unit() {
        Ok(v) => Some(v),
        Err(_) => None,
    }
}

} // verus!
