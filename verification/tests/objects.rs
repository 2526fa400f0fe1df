use dmfs::{ManifestError, ManifestObject, ManifestObjectData, ManifestObjectType};

#[test]
fn it_works() {
    assert_eq!(2 + 2, 4);
}

#[test]
fn every_kind_has_its_number() {
    assert_eq!(ManifestObjectType::EndOfList.to_integer(), 0);
    assert_eq!(ManifestObjectType::BootMsg.to_integer(), 1);
    assert_eq!(ManifestObjectType::SystemService.to_integer(), 2);
    assert_eq!(ManifestObjectType::GuestOS.to_integer(), 3);
    assert_eq!(ManifestObjectType::Unknown.to_integer(), 4);
}

#[test]
fn every_number_has_its_kind() {
    assert_eq!(ManifestObjectType::from_integer(0), ManifestObjectType::EndOfList);
    assert_eq!(ManifestObjectType::from_integer(1), ManifestObjectType::BootMsg);
    assert_eq!(ManifestObjectType::from_integer(2), ManifestObjectType::SystemService);
    assert_eq!(ManifestObjectType::from_integer(3), ManifestObjectType::GuestOS);
    assert_eq!(ManifestObjectType::from_integer(4), ManifestObjectType::Unknown);
}

#[test]
fn numbers_without_a_kind_are_unknown() {
    assert_eq!(ManifestObjectType::from_integer(5), ManifestObjectType::Unknown);
    assert_eq!(ManifestObjectType::from_integer(0xD1015D4D), ManifestObjectType::Unknown);
    assert_eq!(ManifestObjectType::from_integer(u32::MAX), ManifestObjectType::Unknown);
}

#[test]
fn a_kind_comes_back_from_its_number() {
    let kinds = [
        ManifestObjectType::BootMsg,
        ManifestObjectType::SystemService,
        ManifestObjectType::GuestOS,
        ManifestObjectType::Unknown,
        ManifestObjectType::EndOfList,
    ];
    for kind in kinds {
        assert_eq!(ManifestObjectType::from_integer(kind.to_integer()), kind);
    }
}

#[test]
fn owned_contents_are_as_long_as_their_bytes() {
    assert_eq!(ManifestObjectData::Bytes(vec![]).len(), 0);
    assert_eq!(ManifestObjectData::Bytes(vec![7, 8, 9]).len(), 3);
}

#[test]
fn a_region_is_as_long_as_its_span() {
    assert_eq!(ManifestObjectData::Region(48..53).len(), 5);
    assert_eq!(ManifestObjectData::Region(8..8).len(), 0);
    assert_eq!(ManifestObjectData::Region(0..usize::MAX).len(), usize::MAX);
}

#[test]
fn a_region_that_ends_before_it_starts_is_empty() {
    assert_eq!(ManifestObjectData::Region(53..48).len(), 0);
}

#[test]
fn an_object_hands_back_what_it_was_made_of() {
    let object = ManifestObject::new(
        ManifestObjectType::SystemService,
        String::from("init"),
        String::from("Init service"),
        ManifestObjectData::Bytes(vec![0; 10]),
        Some(vec![String::from("exec"), String::from("priv")]),
    );
    assert_eq!(object.get_type(), ManifestObjectType::SystemService);
    assert_eq!(object.get_name(), "init");
    assert_eq!(object.get_description(), "Init service");
    assert_eq!(object.get_properties(), vec![String::from("exec"), String::from("priv")]);
    assert_eq!(*object.get_contents(), ManifestObjectData::Bytes(vec![0; 10]));
    assert_eq!(object.get_contents_size(), 10);
}

#[test]
fn an_object_without_a_property_list_has_no_properties() {
    let object = ManifestObject::new(
        ManifestObjectType::BootMsg,
        String::from("welcome.txt"),
        String::from("Welcome"),
        ManifestObjectData::Bytes(b"Hello".to_vec()),
        None,
    );
    assert_eq!(object.get_properties(), Vec::<String>::new());
    assert_eq!(object.get_contents_size(), 5);
}

#[test]
fn an_object_over_a_region_reports_the_span() {
    let object = ManifestObject::new(
        ManifestObjectType::GuestOS,
        String::from("linux"),
        String::new(),
        ManifestObjectData::Region(112..122),
        Some(Vec::new()),
    );
    assert_eq!(*object.get_contents(), ManifestObjectData::Region(112..122));
    assert_eq!(object.get_contents_size(), 10);
    assert_eq!(object.get_description(), "");
}

#[test]
fn errors_tell_each_other_apart() {
    assert_ne!(ManifestError::MalformedHeader, ManifestError::BadMagic);
    assert_ne!(ManifestError::BadMagic, ManifestError::VersionMismatch);
    assert_ne!(ManifestError::VersionMismatch, ManifestError::CantUseRegionHere);
    assert_eq!(format!("{:?}", ManifestError::CantUseRegionHere), "CantUseRegionHere");
}
