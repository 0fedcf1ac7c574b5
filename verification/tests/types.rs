use osz2::error::{Checkpoint, DecodeError};
use osz2::types::{MapMetaType, Metadata, PackageFile};

const KINDS: [(MapMetaType, u16); 23] = [
    (MapMetaType::Title, 0),
    (MapMetaType::Artist, 1),
    (MapMetaType::Creator, 2),
    (MapMetaType::Version, 3),
    (MapMetaType::Source, 4),
    (MapMetaType::Tags, 5),
    (MapMetaType::VideoDataOffset, 6),
    (MapMetaType::VideoDataLength, 7),
    (MapMetaType::VideoHash, 8),
    (MapMetaType::BeatmapSetId, 9),
    (MapMetaType::Genre, 10),
    (MapMetaType::Language, 11),
    (MapMetaType::TitleUnicode, 12),
    (MapMetaType::ArtistUnicode, 13),
    (MapMetaType::Unknown, 9999),
    (MapMetaType::Difficulty, 1000),
    (MapMetaType::PreviewTime, 10001),
    (MapMetaType::ArtistFullName, 10002),
    (MapMetaType::ArtistTwitter, 10003),
    (MapMetaType::SourceUnicode, 10004),
    (MapMetaType::ArtistUrl, 10005),
    (MapMetaType::Revision, 10006),
    (MapMetaType::PackId, 10007),
];

#[test]
fn every_kind_has_its_code() {
    for (kind, code) in KINDS {
        assert_eq!(kind.code(), code);
        assert_eq!(MapMetaType::from_code(code), kind);
    }
}

#[test]
fn codes_without_a_name_are_unknown() {
    let named: Vec<u16> = KINDS.iter().map(|(_, code)| *code).collect();
    for code in 0..=u16::MAX {
        let kind = MapMetaType::from_code(code);
        if named.contains(&code) {
            assert_eq!(kind.code(), code);
        } else {
            assert_eq!(kind, MapMetaType::Unknown);
        }
    }
}

#[test]
fn metadata_keep_one_text_for_each_kind() {
    let mut metadata = Metadata::new();
    assert_eq!(metadata.len(), 0);
    assert_eq!(metadata.get(MapMetaType::Title), None);
    assert!(!metadata.contains_key(MapMetaType::Title));
    metadata.insert(MapMetaType::Title, "one".to_string());
    metadata.insert(MapMetaType::Artist, "two".to_string());
    assert_eq!(metadata.len(), 2);
    metadata.insert(MapMetaType::Title, "three".to_string());
    assert_eq!(metadata.len(), 2);
    assert_eq!(metadata.get(MapMetaType::Title), Some(&"three".to_string()));
    assert_eq!(metadata.get(MapMetaType::Artist), Some(&"two".to_string()));
    assert!(metadata.contains_key(MapMetaType::Artist));
    assert!(!metadata.contains_key(MapMetaType::Creator));
}

#[test]
fn package_files_are_plain_records() {
    let file = PackageFile { length: 7, hash: [3u8; 16] };
    let copy = file;
    assert_eq!(copy.length, 7);
    assert_eq!(copy.hash, file.hash);
}

#[test]
fn errors_compare_by_kind_and_payload() {
    assert_eq!(DecodeError::Truncated, DecodeError::Truncated);
    assert_ne!(
        DecodeError::DigestMismatch { which: Checkpoint::Metadata },
        DecodeError::DigestMismatch { which: Checkpoint::FileInfo }
    );
    assert_ne!(
        DecodeError::MissingMetadataField { field: MapMetaType::Creator },
        DecodeError::MissingMetadataField { field: MapMetaType::BeatmapSetId }
    );
    assert_ne!(DecodeError::BadMagic, DecodeError::KeyMismatch);
}

#[test]
fn name_tables_keep_one_value_for_each_name() {
    let mut table: osz2::types::NameTable<u32> = osz2::types::NameTable::new();
    assert!(table.is_empty());
    assert_eq!(table.len(), 0);
    assert_eq!(table.get("a"), None);
    table.insert("a".to_string(), 1);
    table.insert("b".to_string(), 2);
    table.insert("a".to_string(), 3);
    table.insert("".to_string(), 4);
    assert!(!table.is_empty());
    assert_eq!(table.len(), 3);
    assert_eq!(table.get("a"), Some(&3));
    assert_eq!(table.get("b"), Some(&2));
    assert_eq!(table.get(""), Some(&4));
    assert_eq!(table.get("A"), None);
    assert!(table.contains_key("b"));
    assert!(!table.contains_key("c"));
    let listed: Vec<(&str, u32)> =
        table.entries().iter().map(|(name, value)| (name.as_str(), *value)).collect();
    assert_eq!(listed, vec![("a", 3), ("b", 2), ("", 4)]);
}

#[test]
fn metadata_can_be_gone_through() {
    let mut metadata = Metadata::new();
    metadata.insert(MapMetaType::Tags, "x".to_string());
    metadata.insert(MapMetaType::Title, "y".to_string());
    metadata.insert(MapMetaType::Tags, "z".to_string());
    assert_eq!(
        metadata.entries(),
        &vec![(MapMetaType::Tags, "z".to_string()), (MapMetaType::Title, "y".to_string())]
    );
}

#[test]
fn tables_can_be_copied_and_printed() {
    let mut table: osz2::types::NameTable<u32> = osz2::types::NameTable::new();
    table.insert("a".to_string(), 1);
    let copy = table.clone();
    table.insert("a".to_string(), 2);
    assert_eq!(copy.get("a"), Some(&1));
    assert_eq!(table.get("a"), Some(&2));
    assert!(format!("{:?}", copy).contains("\"a\""));
    let mut metadata = Metadata::new();
    metadata.insert(MapMetaType::Title, "t".to_string());
    assert!(format!("{:?}", metadata.clone()).contains("Title"));
}
