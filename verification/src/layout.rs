//! The layout of an image, as mathematics.
//!
//! An image is a header, one record per object and a closing mark:
//!
//! ```text
//! u32  image magic
//! u32  format version
//! per object:
//!   u32  object magic
//!   u32  kind
//!   u64  number of content bytes
//!   name, closed by a zero byte
//!   description, closed by a zero byte
//!   zero bytes up to the next multiple of 4
//!   u32  number of properties
//!   each property, closed by a zero byte
//!   zero bytes up to the next multiple of 8
//!   the content bytes
//!   zero bytes up to the next multiple of 8
//! u32  the number of the kind that closes the list
//! ```
//!
//! The first half of this file says which bytes a list of objects becomes;
//! the second half says which objects a sequence of bytes holds.

use crate::object::{ContentModel, ManifestError, ManifestObjectType, ObjectModel};
use crate::wire::{
    align_up, first_nul, lemma_first_nul, padding, string_at, string_end, terminated, u32_at,
    u32_bytes, u32_value, u64_at, u64_bytes, zeros, ByteOrder,
};
use vstd::prelude::*;
use vstd::utf8::{decode_utf8_encode_utf8, encode_utf8};

verus! {

/// An image starts with this number.
pub const MANIFEST_MAGIC: u32 = 0xD105C001;

/// Every object record starts with this number.
pub const MANIFEST_OBJECT_MAGIC: u32 = 0xD1015D4D;

/// The format version that this library writes, and the latest that it reads.
pub const MANIFEST_VERSION: u32 = 2;

/// The number of bytes in the header of an image.
pub const HEADER_LEN: usize = 8;

/// The header of an image.
pub open spec fn header_bytes(order: ByteOrder) -> Seq<u8> {
    u32_bytes(MANIFEST_MAGIC, order) + u32_bytes(MANIFEST_VERSION, order)
}

/// `buf`, filled with zero bytes up to the next multiple of `align`.
pub open spec fn padded(buf: Seq<u8>, align: int) -> Seq<u8> {
    buf + zeros(padding(buf.len() as int, align))
}

/// A list of strings as fields, one behind the other.
pub open spec fn strings_bytes(strings: Seq<Seq<char>>) -> Seq<u8>
    decreases strings.len(),
{
    if strings.len() == 0 {
        Seq::empty()
    } else {
        strings_bytes(strings.drop_last()) + terminated(strings.last())
    }
}

/// The bytes that an object brings along; a region brings none.
pub open spec fn content_bytes(data: ContentModel) -> Seq<u8> {
    match data {
        ContentModel::Bytes(bytes) => bytes,
        ContentModel::Region { .. } => Seq::empty(),
    }
}

/// The number of properties as the 32-bit field of a record holds it.
pub open spec fn property_count(object: ObjectModel) -> u32 {
    (object.properties.len() % 0x1_0000_0000) as u32
}

/// `buf`, followed by the fixed fields, the name and the description of
/// `object`.
pub open spec fn with_names(buf: Seq<u8>, object: ObjectModel, order: ByteOrder) -> Seq<u8> {
    buf + u32_bytes(MANIFEST_OBJECT_MAGIC, order) + u32_bytes(object.kind.code(), order)
        + u64_bytes(object.data.len() as u64, order) + terminated(object.name) + terminated(
        object.description,
    )
}

/// `buf`, followed by the record of `object` up to the last of its
/// properties.
pub open spec fn with_properties(buf: Seq<u8>, object: ObjectModel, order: ByteOrder) -> Seq<u8> {
    padded(with_names(buf, object, order), 4) + u32_bytes(property_count(object), order)
        + strings_bytes(object.properties)
}

/// `buf`, followed by the whole record of `object`. The padding counts from
/// the start of `buf`.
#[verifier::opaque]
pub open spec fn with_record(buf: Seq<u8>, object: ObjectModel, order: ByteOrder) -> Seq<u8> {
    padded(padded(with_properties(buf, object, order), 8) + content_bytes(object.data), 8)
}

/// `buf`, followed by the records of `objects` in their order.
pub open spec fn with_records(buf: Seq<u8>, objects: Seq<ObjectModel>, order: ByteOrder) -> Seq<u8>
    decreases objects.len(),
{
    if objects.len() == 0 {
        buf
    } else {
        with_record(with_records(buf, objects.drop_last(), order), objects.last(), order)
    }
}

/// The image of a list of objects: the header, their records in their order,
/// and the closing mark.
pub open spec fn image_bytes(objects: Seq<ObjectModel>, order: ByteOrder) -> Seq<u8> {
    with_records(header_bytes(order), objects, order) + u32_bytes(
        ManifestObjectType::EndOfList.code(),
        order,
    )
}

/// Every object of the list holds its contents itself.
pub open spec fn all_owned(objects: Seq<ObjectModel>) -> bool {
    forall|i: int| 0 <= i < objects.len() ==> (#[trigger] objects[i]).data is Bytes
}

/// What opening `bytes` as an image comes to: the header is too short, or
/// starts with another number than the magic, or declares a later version,
/// or is in order.
pub open spec fn header_check(bytes: Seq<u8>, order: ByteOrder) -> Result<(), ManifestError> {
    if bytes.len() < HEADER_LEN {
        Err(ManifestError::MalformedHeader)
    } else if u32_value(bytes.subrange(0, 4), order) != MANIFEST_MAGIC {
        Err(ManifestError::BadMagic)
    } else if u32_value(bytes.subrange(4, 8), order) > MANIFEST_VERSION {
        Err(ManifestError::VersionMismatch)
    } else {
        Ok(())
    }
}

/// `count` string fields, one behind the other from offset `at` on, and the
/// offset behind the last; `None` where one of them is missing.
pub open spec fn strings_at(bytes: Seq<u8>, at: int, count: nat) -> Option<(Seq<Seq<char>>, int)>
    decreases count,
{
    if count == 0 {
        Some((Seq::empty(), at))
    } else {
        match strings_at(bytes, at, (count - 1) as nat) {
            Some((strings, end)) => match string_at(bytes, end) {
                Some(s) => Some((strings.push(s), string_end(end, s))),
                None => None,
            },
            None => None,
        }
    }
}

/// The object whose record starts at offset `at`, and the offset of the
/// record behind it.
///
/// There is none where the record does not start with the object magic,
/// where its kind is the closing mark, where a field reaches past the end of
/// `bytes`, or where the record ends at an offset that no `usize` holds. The
/// contents are not looked at: they are the region that the record says,
/// whether or not `bytes` reaches that far.
#[verifier::opaque]
pub open spec fn record_at(bytes: Seq<u8>, at: int, order: ByteOrder) -> Option<(ObjectModel, int)> {
    if u32_at(bytes, at, order) != Some(MANIFEST_OBJECT_MAGIC) {
        None
    } else if u32_at(bytes, at + 4, order) is None || ManifestObjectType::from_code(
        u32_at(bytes, at + 4, order)->0,
    ) is EndOfList {
        None
    } else if u64_at(bytes, at + 8, order) is None || string_at(bytes, at + 16) is None {
        None
    } else {
        let kind = ManifestObjectType::from_code(u32_at(bytes, at + 4, order)->0);
        let size = u64_at(bytes, at + 8, order)->0;
        let name = string_at(bytes, at + 16)->0;
        let name_end = string_end(at + 16, name);
        match string_at(bytes, name_end) {
            None => None,
            Some(description) => {
                let count_at = align_up(string_end(name_end, description), 4);
                match u32_at(bytes, count_at, order) {
                    None => None,
                    Some(count) => match strings_at(bytes, count_at + 4, count as nat) {
                        None => None,
                        Some((properties, properties_end)) => {
                            let start = align_up(properties_end, 8);
                            let end = start + size;
                            let next = align_up(end, 8);
                            if next <= usize::MAX {
                                Some(
                                    (
                                        ObjectModel {
                                            kind,
                                            name,
                                            description,
                                            properties,
                                            data: ContentModel::Region { start, end },
                                        },
                                        next,
                                    ),
                                )
                            } else {
                                None
                            }
                        },
                    },
                }
            },
        }
    }
}

/// The objects that a walk from offset `at` yields before it stops: the
/// object at `at`, then those from the offset behind its record on.
pub open spec fn objects_from(bytes: Seq<u8>, at: int, order: ByteOrder) -> Seq<ObjectModel>
    decreases
            (if at < bytes.len() {
                bytes.len() - at
            } else {
                0
            }),
    via objects_from_decreases
{
    match record_at(bytes, at, order) {
        None => Seq::empty(),
        Some((object, next)) => seq![object] + objects_from(bytes, next, order),
    }
}

#[via_fn]
proof fn objects_from_decreases(bytes: Seq<u8>, at: int, order: ByteOrder) {
    lemma_record_at_advances(bytes, at, order);
}

/// A string field that is there ends behind its closing zero byte, inside
/// `bytes`.
pub proof fn lemma_string_at_end(bytes: Seq<u8>, at: int)
    requires
        string_at(bytes, at) is Some,
    ensures
        at < string_end(at, string_at(bytes, at)->0) <= bytes.len(),
        string_end(at, string_at(bytes, at)->0) == at + encode_utf8(string_at(bytes, at)->0).len()
            + 1,
{
    reveal(string_at);
    reveal(string_end);
    let end = first_nul(bytes, at);
    lemma_first_nul(bytes, at);
    decode_utf8_encode_utf8(bytes.subrange(at, end));
}

/// String fields that are there are as many as were asked for, and end
/// inside `bytes`.
pub proof fn lemma_strings_at_end(bytes: Seq<u8>, at: int, count: nat)
    requires
        0 <= at <= bytes.len(),
        strings_at(bytes, at, count) is Some,
    ensures
        strings_at(bytes, at, count) matches Some((strings, end)) && strings.len() == count && at
            + count <= end <= bytes.len(),
    decreases count,
{
    if count > 0 {
        lemma_strings_at_end(bytes, at, (count - 1) as nat);
        if let Some((strings, end)) = strings_at(bytes, at, (count - 1) as nat) {
            lemma_string_at_end(bytes, end);
        }
    }
}

/// Where fewer string fields are missing one, more are too.
pub proof fn lemma_strings_at_missing(bytes: Seq<u8>, at: int, fewer: nat, count: nat)
    requires
        fewer <= count,
        strings_at(bytes, at, fewer) is None,
    ensures
        strings_at(bytes, at, count) is None,
    decreases count,
{
    if fewer < count {
        lemma_strings_at_missing(bytes, at, fewer, (count - 1) as nat);
    }
}

/// A record that is there starts inside `bytes`, and the record behind it
/// starts further on, at a multiple of eight. Its contents are a region that
/// starts at a multiple of eight too, behind the start of the record.
pub proof fn lemma_record_at_advances(bytes: Seq<u8>, at: int, order: ByteOrder)
    ensures
        record_at(bytes, at, order) matches Some((object, next)) ==> {
            &&& 0 <= at
            &&& at + 16 < bytes.len()
            &&& at + 16 < next <= usize::MAX
            &&& next % 8 == 0
            &&& object.kind != ManifestObjectType::EndOfList
            &&& object.data matches ContentModel::Region { start, end }
            &&& at + 16 < start <= end <= next
            &&& start % 8 == 0
        },
{
    reveal(record_at);
    if let Some((object, next)) = record_at(bytes, at, order) {
        let name = string_at(bytes, at + 16)->0;
        let name_end = string_end(at + 16, name);
        lemma_string_at_end(bytes, at + 16);
        let description = string_at(bytes, name_end)->0;
        lemma_string_at_end(bytes, name_end);
        let count_at = align_up(string_end(name_end, description), 4);
        let count = u32_at(bytes, count_at, order)->0;
        lemma_strings_at_end(bytes, count_at + 4, count as nat);
    }
}

} // verus!
