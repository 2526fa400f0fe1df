//! Walking an image: a cursor that starts behind the header and hands out one
//! object per step.

use crate::layout::{
    header_check, lemma_record_at_advances, lemma_string_at_end, lemma_strings_at_end,
    lemma_strings_at_missing, objects_from, record_at, strings_at, HEADER_LEN, MANIFEST_MAGIC,
    MANIFEST_OBJECT_MAGIC, MANIFEST_VERSION,
};
use crate::object::{
    strings_view, ContentModel, ManifestError, ManifestObject, ManifestObjectData,
    ManifestObjectType, ObjectModel,
};
use crate::wire::{
    align_to_next_u32, align_to_next_u64, read_string, read_u32, read_u64, ByteOrder,
};
use std::ops::Range;
use vstd::prelude::*;

verus! {

/// A walk over the objects of an image. It borrows the image, which it only
/// reads, and owns the offset of the record to read next.
pub struct ManifestImageIter<'a> {
    offset: usize,
    bytes: &'a [u8],
    order: ByteOrder,
}

/// Reads `count` string fields from `at` on, and says where the last ends.
fn read_strings(bytes: &[u8], at: usize, count: u32) -> (r: Option<(Vec<String>, usize)>)
    requires
        at <= bytes@.len(),
    ensures
        match r {
            Some((strings, end)) => strings_at(bytes@, at as int, count as nat) == Some(
                (strings_view(strings@), end as int),
            ),
            None => strings_at(bytes@, at as int, count as nat) is None,
        },
{
    let len: usize = bytes.len();
    let mut strings: Vec<String> = Vec::new();
    let mut offset: usize = at;
    let mut i: u32 = 0;
    assert(strings_view(strings@) =~= Seq::empty());
    while i < count
        invariant
            i <= count,
            len == bytes@.len(),
            at <= offset <= len,
            strings_at(bytes@, at as int, i as nat) == Some(
                (strings_view(strings@), offset as int),
            ),
        decreases count - i,
    {
        let s: String = match read_string(bytes, offset) {
            Some(s) => s,
            None => {
                proof {
                    lemma_strings_at_missing(bytes@, at as int, (i + 1) as nat, count as nat);
                }
                return None;
            },
        };
        proof {
            lemma_string_at_end(bytes@, offset as int);
        }
        let ghost before = strings_view(strings@);
        offset = offset + s.as_str().len() + 1;
        strings.push(s);
        i += 1;
        assert(strings_view(strings@) =~= before.push(s@));
    }
    Some((strings, offset))
}

/// Reads the record at `at`, and says where the record behind it starts.
fn read_record(bytes: &[u8], at: usize, order: ByteOrder) -> (r: Option<(ManifestObject, usize)>)
    ensures
        match r {
            Some((object, next)) => record_at(bytes@, at as int, order) == Some(
                (object@, next as int),
            ),
            None => record_at(bytes@, at as int, order) is None,
        },
{
    proof {
        reveal(record_at);
    }
    let len: usize = bytes.len();
    match read_u32(bytes, at, order) {
        Some(magic) => if magic != MANIFEST_OBJECT_MAGIC {
            return None;
        },
        None => {
            return None;
        },
    }
    let code: u32 = match read_u32(bytes, at + 4, order) {
        Some(code) => code,
        None => {
            return None;
        },
    };
    let kind = ManifestObjectType::from_integer(code);
    if kind == ManifestObjectType::EndOfList {
        return None;
    }
    let size: u64 = match read_u64(bytes, at + 8, order) {
        Some(size) => size,
        None => {
            return None;
        },
    };
    let name: String = match read_string(bytes, at + 16) {
        Some(name) => name,
        None => {
            return None;
        },
    };
    proof {
        lemma_string_at_end(bytes@, at + 16);
    }
    let name_end: usize = at + 16 + name.as_str().len() + 1;
    let description: String = match read_string(bytes, name_end) {
        Some(description) => description,
        None => {
            return None;
        },
    };
    proof {
        lemma_string_at_end(bytes@, name_end as int);
    }
    let description_end: usize = name_end + description.as_str().len() + 1;
    let count_at: usize = match align_to_next_u32(description_end) {
        Some(count_at) => count_at,
        None => {
            return None;
        },
    };
    let count: u32 = match read_u32(bytes, count_at, order) {
        Some(count) => count,
        None => {
            return None;
        },
    };
    let (properties, properties_end) = match read_strings(bytes, count_at + 4, count) {
        Some(found) => found,
        None => {
            return None;
        },
    };
    proof {
        lemma_strings_at_end(bytes@, count_at + 4, count as nat);
    }
    let start: usize = match align_to_next_u64(properties_end) {
        Some(start) => start,
        None => {
            return None;
        },
    };
    if size > usize::MAX as u64 {
        return None;
    }
    let end: usize = match start.checked_add(size as usize) {
        Some(end) => end,
        None => {
            return None;
        },
    };
    let next: usize = match align_to_next_u64(end) {
        Some(next) => next,
        None => {
            return None;
        },
    };
    let object = ManifestObject::new(
        kind,
        name,
        description,
        ManifestObjectData::Region(Range { start, end }),
        Some(properties),
    );
    Some((object, next))
}

impl<'a> ManifestImageIter<'a> {
    /// The image that is walked.
    pub closed spec fn image(&self) -> Seq<u8> {
        self.bytes@
    }

    /// The offset of the record to read next.
    pub closed spec fn offset(&self) -> int {
        self.offset as int
    }

    /// The order in which the integers of the image are read.
    pub closed spec fn byte_order(&self) -> ByteOrder {
        self.order
    }

    /// The objects that the walk has yet to yield.
    pub open spec fn remaining(&self) -> Seq<ObjectModel> {
        objects_from(self.image(), self.offset(), self.byte_order())
    }

    /// What opening `blob` in the given order comes to: the error that its
    /// header calls for, or a walk over it that starts behind the header.
    pub open spec fn opened(
        blob: Seq<u8>,
        order: ByteOrder,
        result: Result<ManifestImageIter<'a>, ManifestError>,
    ) -> bool {
        match result {
            Ok(walk) => {
                &&& header_check(blob, order) is Ok
                &&& walk.image() == blob
                &&& walk.offset() == HEADER_LEN
                &&& walk.byte_order() == order
            },
            Err(e) => header_check(blob, order) == Err::<(), ManifestError>(e),
        }
    }

    /// A walk in state `self` that takes one step is in state `after`: the
    /// image and the byte order stay, and the offset moves behind the record
    /// that was read, or stays where there was none.
    pub open spec fn steps_to(&self, after: &ManifestImageIter<'a>) -> bool {
        &&& after.image() == self.image()
        &&& after.byte_order() == self.byte_order()
        &&& after.offset() == match record_at(self.image(), self.offset(), self.byte_order()) {
            Some((_, next)) => next,
            None => self.offset(),
        }
    }

    /// A walk that has stopped stays stopped: where a step yields nothing,
    /// the step after it yields nothing either, and so does every later one,
    /// since the walk is then where it was.
    pub proof fn lemma_stopped_stays_stopped(
        before: &ManifestImageIter<'a>,
        after: &ManifestImageIter<'a>,
    )
        requires
            before.remaining().len() == 0,
            before.steps_to(after),
        ensures
            after.remaining().len() == 0,
            after.offset() == before.offset(),
            after.steps_to(after),
    {
    }

    /// Opens `blob` as an image whose integers are stored in the given order.
    /// The header is checked here, once; the records are read step by step.
    ///
    /// A blob shorter than the eight bytes of a header is malformed, whatever
    /// it starts with. Then the magic is looked at, and then the version:
    /// every version up to the one that this library writes is opened.
    pub fn from_slice_with(blob: &'a [u8], order: ByteOrder) -> (result: Result<
        ManifestImageIter<'a>,
        ManifestError,
    >)
        ensures
            ManifestImageIter::opened(blob@, order, result),
    {
        if blob.len() < HEADER_LEN {
            return Err(ManifestError::MalformedHeader);
        }
        match read_u32(blob, 0, order) {
            Some(magic) => if magic != MANIFEST_MAGIC {
                return Err(ManifestError::BadMagic);
            },
            None => {
                return Err(ManifestError::MalformedHeader);
            },
        }
        match read_u32(blob, 4, order) {
            Some(version) => if version > MANIFEST_VERSION {
                return Err(ManifestError::VersionMismatch);
            },
            None => {
                return Err(ManifestError::MalformedHeader);
            },
        }
        Ok(ManifestImageIter { offset: HEADER_LEN, bytes: blob, order })
    }

    /// Opens `blob` as an image whose integers are stored as this machine
    /// stores them.
    pub fn from_slice(blob: &'a [u8]) -> (result: Result<ManifestImageIter<'a>, ManifestError>)
        ensures
            ManifestImageIter::opened(blob@, ByteOrder::Little, result) || ManifestImageIter::opened(
                blob@,
                ByteOrder::Big,
                result,
            ),
    {
        ManifestImageIter::from_slice_with(blob, ByteOrder::native())
    }

    /// Yields the next object and moves on behind its record, or yields
    /// nothing and stays.
    ///
    /// The walk stops, for good, at the mark that closes the list, and as
    /// quietly at anything that is not a whole record: another number where
    /// the object magic belongs, a field that reaches past the end of the
    /// image, a string that is not UTF-8, or a record that ends at an offset
    /// that no `usize` holds. A stop of the one kind cannot be told from a
    /// stop of the other. The contents of an object are handed out as the
    /// region of the image that the record says, which starts at a multiple
    /// of eight; no byte of them is read or copied, and the region may reach
    /// past the end of an image that was cut short.
    pub fn next(&mut self) -> (r: Option<ManifestObject>)
        ensures
            old(self).steps_to(final(self)),
            match r {
                Some(object) => {
                    &&& record_at(old(self).image(), old(self).offset(), old(self).byte_order())
                        == Some((object@, final(self).offset()))
                    &&& old(self).remaining() == seq![object@] + final(self).remaining()
                    &&& object@.kind != ManifestObjectType::EndOfList
                    &&& object@.data matches ContentModel::Region { start, end }
                    &&& start % 8 == 0
                    &&& start <= end
                },
                None => {
                    &&& record_at(old(self).image(), old(self).offset(), old(self).byte_order())
                        is None
                    &&& old(self).remaining() == Seq::<ObjectModel>::empty()
                    &&& final(self).offset() == old(self).offset()
                },
            },
    {
        proof {
            lemma_record_at_advances(self.bytes@, self.offset as int, self.order);
        }
        match read_record(self.bytes, self.offset, self.order) {
            Some((object, next)) => {
                self.offset = next;
                Some(object)
            },
            None => None,
        }
    }
}

} // verus!
