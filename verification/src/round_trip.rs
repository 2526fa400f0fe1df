//! What is laid out is what a walk reads back: the same objects in the same
//! order, each with its kind, name, description and properties, and with its
//! contents as the region of the image that holds them.

use crate::layout::{
    content_bytes, header_bytes, header_check, image_bytes, objects_from, padded, property_count,
    record_at, strings_at, strings_bytes, with_names, with_properties, with_record, with_records,
    HEADER_LEN, MANIFEST_MAGIC, MANIFEST_OBJECT_MAGIC, MANIFEST_VERSION,
};
use crate::object::{ContentModel, ManifestObjectType, ObjectModel};
use crate::wire::{
    align_up, lemma_string_at_placed, lemma_u32_at_placed, lemma_u32_round_trip,
    lemma_u64_at_placed, lemma_u64_round_trip, no_nul, padding, placed, string_end, terminated,
    u32_bytes, u64_bytes, zeros, ByteOrder,
};
use vstd::prelude::*;

verus! {

/// An object that an image can hand back as it went in: it is not the mark
/// that closes the list, it holds its contents itself, none of its strings
/// holds the zero character, and the number of its properties fits 32 bits.
pub open spec fn readable(object: ObjectModel) -> bool {
    &&& object.kind != ManifestObjectType::EndOfList
    &&& object.data is Bytes
    &&& no_nul(object.name)
    &&& no_nul(object.description)
    &&& forall|i: int|
        0 <= i < object.properties.len() ==> no_nul(#[trigger] object.properties[i])
    &&& object.properties.len() <= u32::MAX
}

/// `read` is what became of `written` on its way through `image`: all is as
/// it was, but that the contents are now the region of `image` that holds
/// them.
pub open spec fn read_back(written: ObjectModel, read: ObjectModel, image: Seq<u8>) -> bool {
    &&& read.kind == written.kind
    &&& read.name == written.name
    &&& read.description == written.description
    &&& read.properties == written.properties
    &&& read.data matches ContentModel::Region { start, end }
    &&& end == start + content_bytes(written.data).len()
    &&& placed(image, start, content_bytes(written.data))
}

/// The offset at which the contents of `object` start when its record is
/// written behind `buf`.
#[verifier::opaque]
pub open spec fn content_start(buf: Seq<u8>, object: ObjectModel, order: ByteOrder) -> int {
    padded(with_properties(buf, object, order), 8).len() as int
}

/// `object` as a walk hands it out when its record is written behind `buf`.
pub open spec fn as_read(buf: Seq<u8>, object: ObjectModel, order: ByteOrder) -> ObjectModel {
    ObjectModel {
        kind: object.kind,
        name: object.name,
        description: object.description,
        properties: object.properties,
        data: ContentModel::Region {
            start: content_start(buf, object, order),
            end: content_start(buf, object, order) + content_bytes(object.data).len(),
        },
    }
}

/// `objects` as a walk hands them out when their records are written behind
/// `buf`.
pub open spec fn all_as_read(buf: Seq<u8>, objects: Seq<ObjectModel>, order: ByteOrder) -> Seq<
    ObjectModel,
>
    decreases objects.len(),
{
    if objects.len() == 0 {
        Seq::empty()
    } else {
        all_as_read(buf, objects.drop_last(), order).push(
            as_read(with_records(buf, objects.drop_last(), order), objects.last(), order),
        )
    }
}

/// Where two fields stand one behind the other, each of them stands.
pub proof fn lemma_placed_split(bytes: Seq<u8>, at: int, a: Seq<u8>, b: Seq<u8>)
    requires
        placed(bytes, at, a + b),
    ensures
        placed(bytes, at, a),
        placed(bytes, at + a.len(), b),
{
    let both = bytes.subrange(at, at + (a + b).len());
    assert(bytes.subrange(at, at + a.len()) =~= a) by {
        assert forall|i: int| 0 <= i < a.len() implies bytes.subrange(at, at + a.len())[i]
            == a[i] by {
            assert(both[i] == (a + b)[i]);
        }
    }
    assert(bytes.subrange(at + a.len(), at + a.len() + b.len()) =~= b) by {
        assert forall|i: int| 0 <= i < b.len() implies bytes.subrange(
            at + a.len(),
            at + a.len() + b.len(),
        )[i] == b[i] by {
            assert(both[a.len() + i] == (a + b)[a.len() + i]);
        }
    }
}

/// Where the fields of a list of strings without the zero character stand,
/// those strings are read, and the fields end where the reader says.
pub proof fn lemma_strings_at_placed(bytes: Seq<u8>, at: int, strings: Seq<Seq<char>>)
    requires
        forall|i: int| 0 <= i < strings.len() ==> no_nul(#[trigger] strings[i]),
        placed(bytes, at, strings_bytes(strings)),
    ensures
        strings_at(bytes, at, strings.len()) == Some((strings, at + strings_bytes(strings).len())),
    decreases strings.len(),
{
    if strings.len() > 0 {
        let before = strings.drop_last();
        lemma_placed_split(bytes, at, strings_bytes(before), terminated(strings.last()));
        lemma_strings_at_placed(bytes, at, before);
        lemma_string_at_placed(bytes, at + strings_bytes(before).len(), strings.last());
        assert(before.push(strings.last()) =~= strings);
    }
}

/// Each of the fields that make up a sequence of bytes stands where the
/// fields before it end.
proof fn lemma_fields_placed(
    buf: Seq<u8>,
    magic: Seq<u8>,
    kind: Seq<u8>,
    size: Seq<u8>,
    name: Seq<u8>,
    description: Seq<u8>,
    pad4: Seq<u8>,
    count: Seq<u8>,
    strings: Seq<u8>,
    pad8: Seq<u8>,
    content: Seq<u8>,
    tail: Seq<u8>,
    rest: Seq<u8>,
)
    ensures
        ({
            let image = buf + magic + kind + size + name + description + pad4 + count + strings
                + pad8 + content + tail + rest;
            &&& placed(image, 0, buf)
            &&& placed(image, buf.len() as int, magic)
            &&& placed(image, (buf + magic).len() as int, kind)
            &&& placed(image, (buf + magic + kind).len() as int, size)
            &&& placed(image, (buf + magic + kind + size).len() as int, name)
            &&& placed(image, (buf + magic + kind + size + name).len() as int, description)
            &&& placed(
                image,
                (buf + magic + kind + size + name + description + pad4).len() as int,
                count,
            )
            &&& placed(
                image,
                (buf + magic + kind + size + name + description + pad4 + count).len() as int,
                strings,
            )
            &&& placed(
                image,
                (buf + magic + kind + size + name + description + pad4 + count + strings
                    + pad8).len() as int,
                content,
            )
        }),
{
    let image = buf + magic + kind + size + name + description + pad4 + count + strings + pad8
        + content + tail + rest;
    assert(image.subrange(0, image.len() as int) =~= image);
    let to_tail = buf + magic + kind + size + name + description + pad4 + count + strings + pad8
        + content + tail;
    lemma_placed_split(image, 0, to_tail, rest);
    let to_content = buf + magic + kind + size + name + description + pad4 + count + strings + pad8
        + content;
    lemma_placed_split(image, 0, to_content, tail);
    let to_pad8 = buf + magic + kind + size + name + description + pad4 + count + strings + pad8;
    lemma_placed_split(image, 0, to_pad8, content);
    let to_strings = buf + magic + kind + size + name + description + pad4 + count + strings;
    lemma_placed_split(image, 0, to_strings, pad8);
    let to_count = buf + magic + kind + size + name + description + pad4 + count;
    lemma_placed_split(image, 0, to_count, strings);
    let to_pad4 = buf + magic + kind + size + name + description + pad4;
    lemma_placed_split(image, 0, to_pad4, count);
    let to_description = buf + magic + kind + size + name + description;
    lemma_placed_split(image, 0, to_description, pad4);
    let to_name = buf + magic + kind + size + name;
    lemma_placed_split(image, 0, to_name, description);
    let to_size = buf + magic + kind + size;
    lemma_placed_split(image, 0, to_size, name);
    let to_kind = buf + magic + kind;
    lemma_placed_split(image, 0, to_kind, size);
    let to_magic = buf + magic;
    lemma_placed_split(image, 0, to_magic, kind);
    lemma_placed_split(image, 0, buf, magic);
}

/// The record of a readable object is read back where it was written,
/// whatever stands before and behind it.
pub proof fn lemma_record_read_back(
    buf: Seq<u8>,
    object: ObjectModel,
    rest: Seq<u8>,
    order: ByteOrder,
)
    requires
        readable(object),
        with_record(buf, object, order).len() <= usize::MAX,
    ensures
        record_at(with_record(buf, object, order) + rest, buf.len() as int, order) == Some(
            (as_read(buf, object, order), with_record(buf, object, order).len() as int),
        ),
        read_back(object, as_read(buf, object, order), with_record(buf, object, order) + rest),
        placed(with_record(buf, object, order) + rest, 0, buf),
        buf.len() <= with_record(buf, object, order).len(),
{
    reveal(with_record);
    reveal(content_start);
    let image = with_record(buf, object, order) + rest;
    let magic = u32_bytes(MANIFEST_OBJECT_MAGIC, order);
    let kind = u32_bytes(object.kind.code(), order);
    let size = u64_bytes(object.data.len() as u64, order);
    let name = terminated(object.name);
    let description = terminated(object.description);
    let names = with_names(buf, object, order);
    let pad4 = zeros(padding(names.len() as int, 4));
    let count = u32_bytes(property_count(object), order);
    let strings = strings_bytes(object.properties);
    let properties = with_properties(buf, object, order);
    let pad8 = zeros(padding(properties.len() as int, 8));
    let content = content_bytes(object.data);
    let filled = properties + pad8 + content;
    let tail = zeros(padding(filled.len() as int, 8));

    lemma_u32_round_trip(MANIFEST_OBJECT_MAGIC, order);
    lemma_u32_round_trip(object.kind.code(), order);
    lemma_u64_round_trip(object.data.len() as u64, order);
    lemma_u32_round_trip(property_count(object), order);
    ManifestObjectType::lemma_code_is_lossless(object.kind);

    assert(image == buf + magic + kind + size + name + description + pad4 + count + strings + pad8
        + content + tail + rest);
    lemma_fields_placed(
        buf,
        magic,
        kind,
        size,
        name,
        description,
        pad4,
        count,
        strings,
        pad8,
        content,
        tail,
        rest,
    );

    let at = buf.len() as int;
    lemma_u32_at_placed(image, at, MANIFEST_OBJECT_MAGIC, order);
    lemma_u32_at_placed(image, at + 4, object.kind.code(), order);
    lemma_u64_at_placed(image, at + 8, object.data.len() as u64, order);
    lemma_string_at_placed(image, at + 16, object.name);
    let name_end = string_end(at + 16, object.name);
    lemma_string_at_placed(image, name_end, object.description);
    let description_end = string_end(name_end, object.description);
    let count_at = align_up(description_end, 4);
    lemma_u32_at_placed(image, count_at, property_count(object), order);
    lemma_strings_at_placed(image, count_at + 4, object.properties);
    let start = align_up(properties.len() as int, 8);
    assert(start == content_start(buf, object, order));
    assert(image.len() >= content.len());
    assert((object.data.len() as u64) as int == content.len());
    let end = start + content.len();
    assert(align_up(end, 8) == with_record(buf, object, order).len());
    reveal(record_at);
}

/// Where the mark that closes the list stands, there is no record.
proof fn lemma_no_record_at_mark(bytes: Seq<u8>, at: int, order: ByteOrder)
    requires
        placed(bytes, at, u32_bytes(ManifestObjectType::EndOfList.code(), order)),
    ensures
        record_at(bytes, at, order) is None,
{
    reveal(record_at);
    lemma_u32_at_placed(bytes, at, ManifestObjectType::EndOfList.code(), order);
}

/// The records of readable objects are read back where they were written,
/// one after the other, and the walk goes on behind the last of them.
pub proof fn lemma_records_read_back(
    buf: Seq<u8>,
    objects: Seq<ObjectModel>,
    rest: Seq<u8>,
    order: ByteOrder,
)
    requires
        forall|i: int| 0 <= i < objects.len() ==> readable(#[trigger] objects[i]),
        with_records(buf, objects, order).len() <= usize::MAX,
    ensures
        objects_from(with_records(buf, objects, order) + rest, buf.len() as int, order)
            == all_as_read(buf, objects, order) + objects_from(
            with_records(buf, objects, order) + rest,
            with_records(buf, objects, order).len() as int,
            order,
        ),
        all_as_read(buf, objects, order).len() == objects.len(),
        forall|i: int|
            0 <= i < objects.len() ==> read_back(
                objects[i],
                #[trigger] all_as_read(buf, objects, order)[i],
                with_records(buf, objects, order) + rest,
            ),
        placed(with_records(buf, objects, order) + rest, 0, buf),
    decreases objects.len(),
{
    let image = with_records(buf, objects, order) + rest;
    if objects.len() == 0 {
        assert(image.subrange(0, buf.len() as int) =~= buf);
        assert(all_as_read(buf, objects, order) + objects_from(image, buf.len() as int, order)
            =~= objects_from(image, buf.len() as int, order));
    } else {
        let before = objects.drop_last();
        let last = objects.last();
        let written = with_records(buf, before, order);
        lemma_record_read_back(written, last, rest, order);
        let behind = image.subrange(written.len() as int, image.len() as int);
        assert(written + behind =~= image) by {
            assert(image.subrange(0, written.len() as int) == written);
        }
        assert forall|i: int| 0 <= i < before.len() implies readable(#[trigger] before[i]) by {
            assert(before[i] == objects[i]);
        }
        lemma_records_read_back(buf, before, behind, order);
        let read_before = all_as_read(buf, before, order);
        let read_last = as_read(written, last, order);
        let end = with_record(written, last, order).len() as int;
        assert(objects_from(image, written.len() as int, order) == seq![read_last] + objects_from(
            image,
            end,
            order,
        ));
        assert(all_as_read(buf, objects, order) == read_before.push(read_last));
        assert(read_before + (seq![read_last] + objects_from(image, end, order))
            =~= read_before.push(read_last) + objects_from(image, end, order));
        assert forall|i: int| 0 <= i < objects.len() implies read_back(
            objects[i],
            #[trigger] all_as_read(buf, objects, order)[i],
            image,
        ) by {
            if i < before.len() {
                assert(objects[i] == before[i]);
                assert(all_as_read(buf, objects, order)[i] == read_before[i]);
            }
        }
    }
}

/// Laying out readable objects and walking their image gives the objects
/// back: the header is in order, the walk yields as many objects as went in,
/// in the same order, each with the kind, name, description and properties
/// that it had, and with its contents as the region of the image that holds
/// the bytes that it had; then the walk stops.
pub proof fn lemma_image_round_trip(objects: Seq<ObjectModel>, order: ByteOrder)
    requires
        forall|i: int| 0 <= i < objects.len() ==> readable(#[trigger] objects[i]),
        image_bytes(objects, order).len() <= usize::MAX,
    ensures
        header_check(image_bytes(objects, order), order) is Ok,
        objects_from(image_bytes(objects, order), HEADER_LEN as int, order).len() == objects.len(),
        forall|i: int|
            0 <= i < objects.len() ==> read_back(
                objects[i],
                #[trigger] objects_from(image_bytes(objects, order), HEADER_LEN as int, order)[i],
                image_bytes(objects, order),
            ),
{
    let image = image_bytes(objects, order);
    let header = header_bytes(order);
    let records = with_records(header, objects, order);
    let mark = u32_bytes(ManifestObjectType::EndOfList.code(), order);
    lemma_u32_round_trip(MANIFEST_MAGIC, order);
    lemma_u32_round_trip(MANIFEST_VERSION, order);
    lemma_u32_round_trip(ManifestObjectType::EndOfList.code(), order);
    lemma_records_read_back(header, objects, mark, order);
    lemma_placed_split(
        image,
        0,
        u32_bytes(MANIFEST_MAGIC, order),
        u32_bytes(MANIFEST_VERSION, order),
    );
    assert(image.subrange(0, image.len() as int) =~= image);
    lemma_placed_split(image, 0, records, mark);
    lemma_no_record_at_mark(image, records.len() as int, order);
    assert(objects_from(image, records.len() as int, order) =~= Seq::empty());
    assert(objects_from(image, HEADER_LEN as int, order) =~= all_as_read(header, objects, order));
}

} // verus!
