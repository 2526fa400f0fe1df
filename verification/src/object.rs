//! The objects that a manifest holds: what kind each one is, where its
//! contents live, and the record that names and describes it.

use std::ops::Range;
use vstd::prelude::*;

verus! {

/// Why an image could not be produced or opened.
#[derive(Debug, Clone, Copy, PartialEq, Eq, Structural)]
pub enum ManifestError {
    /// The buffer is too short to hold an image header.
    MalformedHeader,
    /// The buffer does not start with the magic number of an image.
    BadMagic,
    /// The image declares a later format version than this library knows.
    VersionMismatch,
    /// An object whose contents are a region of some image cannot be laid
    /// out: there are no bytes to copy from.
    CantUseRegionHere,
}

/// What an object is for.
#[derive(Debug, Clone, Copy, PartialEq, Eq, Structural)]
pub enum ManifestObjectType {
    /// Text to show on the debug channel during start-up.
    BootMsg,
    /// An executable to run at start-up.
    SystemService,
    /// A guest operating system to load later.
    GuestOS,
    /// Any kind that this library does not know.
    Unknown,
    /// Not an object: the mark that closes the list of objects in an image.
    EndOfList,
}

impl ManifestObjectType {
    /// The number that stands for this kind in an image.
    pub open spec fn code(self) -> u32 {
        match self {
            ManifestObjectType::EndOfList => 0,
            ManifestObjectType::BootMsg => 1,
            ManifestObjectType::SystemService => 2,
            ManifestObjectType::GuestOS => 3,
            ManifestObjectType::Unknown => 4,
        }
    }

    /// The kind that a number found in an image stands for. Every number
    /// stands for one: those without a kind of their own stand for `Unknown`.
    pub open spec fn from_code(nr: u32) -> ManifestObjectType {
        if nr == 0 {
            ManifestObjectType::EndOfList
        } else if nr == 1 {
            ManifestObjectType::BootMsg
        } else if nr == 2 {
            ManifestObjectType::SystemService
        } else if nr == 3 {
            ManifestObjectType::GuestOS
        } else {
            ManifestObjectType::Unknown
        }
    }

    /// The number that stands for this kind in an image.
    pub fn to_integer(&self) -> (nr: u32)
        ensures
            nr == self.code(),
    {
        match self {
            ManifestObjectType::EndOfList => 0,
            ManifestObjectType::BootMsg => 1,
            ManifestObjectType::SystemService => 2,
            ManifestObjectType::GuestOS => 3,
            ManifestObjectType::Unknown => 4,
        }
    }

    /// The kind that `nr` stands for; `Unknown` for a number that has none.
    pub fn from_integer(nr: u32) -> (kind: ManifestObjectType)
        ensures
            kind == ManifestObjectType::from_code(nr),
    {
        match nr {
            0 => ManifestObjectType::EndOfList,
            1 => ManifestObjectType::BootMsg,
            2 => ManifestObjectType::SystemService,
            3 => ManifestObjectType::GuestOS,
            _ => ManifestObjectType::Unknown,
        }
    }

    /// No kind is lost on the way through its number: reading the number of a
    /// kind gives that kind back, and the five numbers are the first five.
    pub proof fn lemma_code_is_lossless(kind: ManifestObjectType)
        ensures
            ManifestObjectType::from_code(kind.code()) == kind,
            kind.code() <= 4,
    {
    }

    /// A number that stands for no kind of its own reads as `Unknown`.
    pub proof fn lemma_other_codes_are_unknown(nr: u32)
        requires
            nr > 4,
        ensures
            ManifestObjectType::from_code(nr) == ManifestObjectType::Unknown,
    {
    }
}

/// Where the contents of an object are, as a mathematical value.
pub enum ContentModel {
    /// The contents themselves.
    Bytes(Seq<u8>),
    /// The offsets `start` (included) to `end` (excluded) of an image held
    /// elsewhere.
    Region { start: int, end: int },
}

impl ContentModel {
    /// The number of content bytes. A region that ends before it starts is
    /// empty.
    pub open spec fn len(self) -> nat {
        match self {
            ContentModel::Bytes(bytes) => bytes.len(),
            ContentModel::Region { start, end } => if start <= end {
                (end - start) as nat
            } else {
                0
            },
        }
    }
}

/// Where the contents of an object are: in a vector of their own, or in a
/// region of the image that the object was read from.
#[derive(Debug, PartialEq, Eq)]
pub enum ManifestObjectData {
    /// The contents, held apart from any image.
    Bytes(Vec<u8>),
    /// The offsets into the image at which the contents start and end.
    Region(Range<usize>),
}

impl View for ManifestObjectData {
    type V = ContentModel;

    open spec fn view(&self) -> ContentModel {
        match self {
            ManifestObjectData::Bytes(bytes) => ContentModel::Bytes(bytes@),
            ManifestObjectData::Region(range) => ContentModel::Region {
                start: range.start as int,
                end: range.end as int,
            },
        }
    }
}

impl ManifestObjectData {
    /// The number of content bytes.
    pub fn len(&self) -> (n: usize)
        ensures
            n == self@.len(),
    {
        match self {
            ManifestObjectData::Bytes(bytes) => bytes.len(),
            ManifestObjectData::Region(range) => if range.start <= range.end {
                range.end - range.start
            } else {
                0
            },
        }
    }
}

/// The characters of each string of a list.
pub open spec fn strings_view(strings: Seq<String>) -> Seq<Seq<char>> {
    Seq::new(strings.len(), |i: int| strings[i]@)
}

/// An object as a mathematical value.
pub struct ObjectModel {
    pub kind: ManifestObjectType,
    pub name: Seq<char>,
    pub description: Seq<char>,
    pub properties: Seq<Seq<char>>,
    pub data: ContentModel,
}

/// One object of a manifest: its kind, the name that identifies it, a
/// description for people, the properties granted to it, and its contents.
#[derive(Debug)]
pub struct ManifestObject {
    objtype: ManifestObjectType,
    name: String,
    descr: String,
    properties: Vec<String>,
    data: ManifestObjectData,
}

impl View for ManifestObject {
    type V = ObjectModel;

    closed spec fn view(&self) -> ObjectModel {
        ObjectModel {
            kind: self.objtype,
            name: self.name@,
            description: self.descr@,
            properties: strings_view(self.properties@),
            data: self.data@,
        }
    }
}

impl ManifestObject {
    /// Makes an object. Without a list of properties it has none.
    pub fn new(
        objtype: ManifestObjectType,
        name: String,
        descr: String,
        data: ManifestObjectData,
        properties: Option<Vec<String>>,
    ) -> (object: ManifestObject)
        ensures
            object@ == (ObjectModel {
                kind: objtype,
                name: name@,
                description: descr@,
                properties: match properties {
                    Some(list) => strings_view(list@),
                    None => Seq::empty(),
                },
                data: data@,
            }),
    {
        match properties {
            Some(list) => ManifestObject { objtype, name, descr, properties: list, data },
            None => {
                let list: Vec<String> = Vec::new();
                assert(strings_view(list@) =~= Seq::empty());
                ManifestObject { objtype, name, descr, properties: list, data }
            },
        }
    }

    /// The kind of the object.
    pub fn get_type(&self) -> (kind: ManifestObjectType)
        ensures
            kind == self@.kind,
    {
        self.objtype
    }

    /// A copy of the name.
    pub fn get_name(&self) -> (name: String)
        ensures
            name@ == self@.name,
    {
        self.name.clone()
    }

    /// A copy of the description.
    pub fn get_description(&self) -> (descr: String)
        ensures
            descr@ == self@.description,
    {
        self.descr.clone()
    }

    /// A copy of the properties, in their order.
    pub fn get_properties(&self) -> (properties: Vec<String>)
        ensures
            strings_view(properties@) == self@.properties,
    {
        let mut properties: Vec<String> = Vec::new();
        let mut i: usize = 0;
        while i < self.properties.len()
            invariant
                i <= self.properties.len(),
                properties@.len() == i,
                forall|j: int| 0 <= j < i ==> properties@[j]@ == self.properties@[j]@,
            decreases self.properties.len() - i,
        {
            properties.push(self.properties[i].clone());
            i += 1;
        }
        assert(strings_view(properties@) =~= strings_view(self.properties@));
        properties
    }

    /// The contents of the object.
    pub fn get_contents(&self) -> (data: &ManifestObjectData)
        ensures
            data@ == self@.data,
    {
        &self.data
    }

    /// The number of content bytes.
    pub fn get_contents_size(&self) -> (n: usize)
        ensures
            n == self@.data.len(),
    {
        self.data.len()
    }

    /// The name, borrowed.
    pub(crate) fn name_ref(&self) -> (name: &String)
        ensures
            name@ == self@.name,
    {
        &self.name
    }

    /// The description, borrowed.
    pub(crate) fn description_ref(&self) -> (descr: &String)
        ensures
            descr@ == self@.description,
    {
        &self.descr
    }

    /// The properties, borrowed.
    pub(crate) fn properties_ref(&self) -> (properties: &Vec<String>)
        ensures
            strings_view(properties@) == self@.properties,
    {
        &self.properties
    }
}

} // verus!
