//! Big-endian primitives of the OpenType binary format, read and written
//! through the `otspec` crate.
use vstd::prelude::*;

verus! {

#[verifier::external_type_specification]
#[verifier::external_body]
pub struct ExDeserializationError(otspec::DeserializationError);

#[verifier::external_type_specification]
#[verifier::external_body]
pub struct ExSerializationError(otspec::SerializationError);

/// The big-endian `uint16` whose high byte is `hi` and low byte is `lo`.
pub open spec fn be16(hi: u8, lo: u8) -> u16 {
    (hi as int * 256 + lo as int) as u16
}

/// The `uint16` stored at position `p` of `d`.
pub open spec fn u16_at(d: Seq<u8>, p: int) -> u16 {
    be16(d[p], d[p + 1])
}

/// The two big-endian bytes of `v`.
pub open spec fn u16_bytes(v: u16) -> Seq<u8> {
    seq![(v / 256) as u8, (v % 256) as u8]
}

/// Concatenation of a sequence of byte strings, in order.
pub open spec fn concat(s: Seq<Seq<u8>>) -> Seq<u8>
    decreases s.len(),
{
    if s.len() == 0 {
        Seq::empty()
    } else {
        concat(s.drop_last()) + s.last()
    }
}

/// The encoding of a list of `uint16` values, each as two big-endian bytes.
pub open spec fn u16s_bytes(items: Seq<u16>) -> Seq<u8> {
    concat(items.map_values(|v: u16| u16_bytes(v)))
}

/// Reads a big-endian `uint16` from the start of `bytes` with
/// `otspec::de::from_bytes::<u16>`. otspec's `u16::from_bytes` consumes two
/// bytes from a fresh `ReaderContext`: it fails with "End of file" when fewer
/// than two bytes are there, and otherwise returns `u16::from_be_bytes` of them.
#[verifier::external_body]
pub(crate) fn otspec_read_u16(bytes: &[u8]) -> (r: Result<u16, otspec::DeserializationError>)
    ensures
        r is Ok <==> bytes@.len() >= 2,
        r matches Ok(v) ==> v == u16_at(bytes@, 0),
{
    otspec::de::from_bytes::<u16>(bytes)
}

/// Reads a four-byte tag from the start of `bytes` with
/// `otspec::de::from_bytes::<otspec::types::Tag>`, which consumes four bytes
/// (failing when fewer are there) and returns them as an array.
#[verifier::external_body]
pub(crate) fn otspec_read_tag(bytes: &[u8]) -> (r: Result<[u8; 4], otspec::DeserializationError>)
    ensures
        r is Ok <==> bytes@.len() >= 4,
        r matches Ok(t) ==> t@ == bytes@.subrange(0, 4),
{
    otspec::de::from_bytes::<otspec::types::Tag>(bytes)
}

/// Reads a counted list of `uint16` with
/// `otspec::de::from_bytes::<otspec::Counted<u16>>`: a `uint16` count, then that
/// many big-endian `uint16` values. It fails when the bytes run out before the
/// count or any of the values.
#[verifier::external_body]
pub(crate) fn otspec_read_counted_u16(bytes: &[u8]) -> (r: Result<Vec<u16>, otspec::DeserializationError>)
    ensures
        r is Ok <==> (bytes@.len() >= 2 && bytes@.len() >= 2 + 2 * u16_at(bytes@, 0)),
        r matches Ok(v) ==> {
            &&& v@.len() == u16_at(bytes@, 0)
            &&& forall|j: int| 0 <= j < v@.len() ==> #[trigger] v@[j] == u16_at(bytes@, 2 + 2 * j)
        },
{
    otspec::de::from_bytes::<otspec::Counted<u16>>(bytes).map(|c| c.0)
}

/// Appends `v` with `<u16 as otspec::Serialize>::to_bytes`, which extends the
/// buffer with `v.to_be_bytes()` and always returns `Ok`.
#[verifier::external_body]
pub(crate) fn otspec_write_u16(data: &mut Vec<u8>, v: u16) -> (r: Result<(), otspec::SerializationError>)
    ensures
        r is Ok,
        final(data)@ == old(data)@ + u16_bytes(v),
{
    otspec::Serialize::to_bytes(&v, data)
}

/// Appends a tag with `<otspec::types::Tag as otspec::Serialize>::to_bytes`,
/// which writes its four bytes in order and always returns `Ok`.
#[verifier::external_body]
pub(crate) fn otspec_write_tag(data: &mut Vec<u8>, tag: &[u8; 4]) -> (r: Result<(), otspec::SerializationError>)
    ensures
        r is Ok,
        final(data)@ == old(data)@ + tag@,
{
    otspec::Serialize::to_bytes(tag, data)
}

/// Appends a counted list with `<otspec::Counted<u16> as otspec::Serialize>::to_bytes`:
/// the length cast to `uint16` (so taken modulo 65536), then every value as
/// two big-endian bytes. It always returns `Ok`.
#[verifier::external_body]
pub(crate) fn otspec_write_counted_u16(data: &mut Vec<u8>, items: Vec<u16>) -> (r: Result<(), otspec::SerializationError>)
    ensures
        r is Ok,
        final(data)@ == old(data)@ + u16_bytes((items@.len() % 65536) as u16) + u16s_bytes(items@),
{
    otspec::Serialize::to_bytes(&otspec::Counted(items), data)
}

} // verus!
