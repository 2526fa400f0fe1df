//! Building an image: a manifest collects objects and lays them out.

use crate::layout::{
    all_owned, header_bytes, image_bytes, strings_bytes, with_names, with_properties, with_record,
    with_records, MANIFEST_MAGIC, MANIFEST_OBJECT_MAGIC, MANIFEST_VERSION,
};
use crate::object::{
    strings_view, ContentModel, ManifestError, ManifestObject, ManifestObjectData,
    ManifestObjectType, ObjectModel,
};
use crate::wire::{
    pad_to_u32, pad_to_u64, push_bytes, push_string, push_u32, push_u64, ByteOrder,
};
use vstd::prelude::*;

verus! {

/// The objects to put into an image, in the order in which they were added.
pub struct Manifest {
    objects: Vec<ManifestObject>,
}

impl View for Manifest {
    type V = Seq<ObjectModel>;

    closed spec fn view(&self) -> Seq<ObjectModel> {
        Seq::new(self.objects@.len(), |i: int| self.objects@[i]@)
    }
}

/// What laying out `objects` in the given order comes to: their image where
/// every one of them holds its contents itself, and else the refusal of a
/// region.
pub open spec fn laid_out(
    objects: Seq<ObjectModel>,
    order: ByteOrder,
    result: Result<Vec<u8>, ManifestError>,
) -> bool {
    match result {
        Ok(image) => all_owned(objects) && image@ == image_bytes(objects, order),
        Err(e) => !all_owned(objects) && e == ManifestError::CantUseRegionHere,
    }
}

/// Appends the properties of a record, each as a string field.
fn push_strings(image: &mut Vec<u8>, strings: &Vec<String>)
    ensures
        final(image)@ == old(image)@ + strings_bytes(strings_view(strings@)),
{
    let mut i: usize = 0;
    assert(strings_view(strings@.take(0)) =~= Seq::empty());
    assert(image@ =~= old(image)@ + strings_bytes(strings_view(strings@.take(0))));
    while i < strings.len()
        invariant
            i <= strings.len(),
            image@ == old(image)@ + strings_bytes(strings_view(strings@.take(i as int))),
        decreases strings.len() - i,
    {
        push_string(image, strings[i].as_str());
        i += 1;
        proof {
            let longer = strings_view(strings@.take(i as int));
            assert(longer.drop_last() =~= strings_view(strings@.take(i - 1)));
            assert(longer.last() == strings@[i - 1]@);
            assert(image@ =~= old(image)@ + strings_bytes(longer));
        }
    }
    assert(strings@.take(i as int) =~= strings@);
}

/// Appends the record of `object`, whose contents are `content`.
fn push_record(image: &mut Vec<u8>, object: &ManifestObject, content: &Vec<u8>, order: ByteOrder)
    requires
        object@.data == ContentModel::Bytes(content@),
    ensures
        final(image)@ == with_record(old(image)@, object@, order),
{
    push_u32(image, MANIFEST_OBJECT_MAGIC, order);
    push_u32(image, object.get_type().to_integer(), order);
    push_u64(image, content.len() as u64, order);
    push_string(image, object.name_ref().as_str());
    push_string(image, object.description_ref().as_str());
    assert(image@ == with_names(old(image)@, object@, order));
    pad_to_u32(image);
    let properties: &Vec<String> = object.properties_ref();
    let count: u32 = ((properties.len() as u64) % 0x1_0000_0000u64) as u32;
    push_u32(image, count, order);
    push_strings(image, properties);
    assert(image@ == with_properties(old(image)@, object@, order));
    pad_to_u64(image);
    push_bytes(image, content.as_slice());
    pad_to_u64(image);
    proof {
        reveal(with_record);
    }
}

impl Manifest {
    /// A manifest without objects.
    pub fn new() -> (manifest: Manifest)
        ensures
            manifest@ == Seq::<ObjectModel>::empty(),
    {
        let manifest = Manifest { objects: Vec::new() };
        assert(manifest@ =~= Seq::<ObjectModel>::empty());
        manifest
    }

    /// Adds an object behind those that are there. Names are not compared:
    /// an object whose name another one bears is added like any other, and
    /// keeping names apart is left to the caller. Do not add an object of
    /// the kind that closes the list: laying out the manifest writes that
    /// mark, and a walk over the image would stop at the object.
    pub fn add(&mut self, to_add: ManifestObject)
        ensures
            final(self)@ == old(self)@.push(to_add@),
    {
        self.objects.push(to_add);
        assert(self@ =~= old(self)@.push(to_add@));
    }

    /// Lays the objects out as an image whose integers are stored in the
    /// given order. An object whose contents are a region is refused, and
    /// then there is no image.
    pub fn to_image_with(&self, order: ByteOrder) -> (result: Result<Vec<u8>, ManifestError>)
        ensures
            laid_out(self@, order, result),
    {
        let mut image: Vec<u8> = Vec::new();
        push_u32(&mut image, MANIFEST_MAGIC, order);
        push_u32(&mut image, MANIFEST_VERSION, order);
        assert(image@ =~= header_bytes(order));
        let mut i: usize = 0;
        while i < self.objects.len()
            invariant
                i <= self.objects.len(),
                all_owned(self@.take(i as int)),
                image@ == with_records(header_bytes(order), self@.take(i as int), order),
            decreases self.objects.len() - i,
        {
            let object: &ManifestObject = &self.objects[i];
            assert(object@ == self@[i as int]);
            match object.get_contents() {
                ManifestObjectData::Bytes(content) => {
                    push_record(&mut image, object, content, order);
                },
                ManifestObjectData::Region(_) => {
                    return Err(ManifestError::CantUseRegionHere);
                },
            }
            i += 1;
            proof {
                let longer = self@.take(i as int);
                assert(longer.drop_last() =~= self@.take(i - 1));
                assert(longer.last() == self@[i - 1]);
            }
        }
        assert(self@.take(i as int) =~= self@);
        push_u32(&mut image, ManifestObjectType::EndOfList.to_integer(), order);
        Ok(image)
    }

    /// Lays the objects out as an image whose integers are stored as this
    /// machine stores them. An object whose contents are a region is refused,
    /// and then there is no image.
    pub fn to_image(&self) -> (result: Result<Vec<u8>, ManifestError>)
        ensures
            laid_out(self@, ByteOrder::Little, result) || laid_out(self@, ByteOrder::Big, result),
    {
        self.to_image_with(ByteOrder::native())
    }
}

} // verus!
