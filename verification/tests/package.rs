use osz2::error::{Checkpoint, DecodeError};
use osz2::ext::{ByteReader, WriteExt};
use osz2::fastrandom::FastRandom;
use osz2::key::derive_key;
use osz2::file_table::{read_file_info, read_file_table};
use osz2::header::{read_header, HEADER_LEN};
use osz2::package::{body_hash, key_from_metadata, read_files};
use osz2::types::{MapMetaType, Metadata};
use osz2::xxtea::encrypt;
use osz2::{
    calc_osz2_hash, parse, read_data_length, read_difficulty_data, read_magic, read_metadata,
};
use xtea::cipher::array::Array;
use xtea::cipher::{BlockCipherEncrypt, KeyInit};

struct Sample {
    version: u8,
    metadata: Vec<(u16, String)>,
    difficulties: Vec<(String, u32)>,
    files: Vec<(String, Vec<u8>)>,
    first_offset: u32,
    cipher_creator: String,
    cipher_set_id: String,
}

impl Sample {
    fn new() -> Sample {
        Sample {
            version: 0,
            metadata: vec![
                (0, "Tear Rain".to_string()),
                (1, "cYsmix feat. Emmy".to_string()),
                (2, "peppy".to_string()),
                (9, "12345".to_string()),
                (13, "cYsmix feat. えみぃ".to_string()),
                (4242, "from the future".to_string()),
            ],
            difficulties: vec![("Insane".to_string(), 351189), ("Normal".to_string(), 351190)],
            files: vec![
                ("tearrain.mp3".to_string(), (0..1000u32).map(|i| (i * 7) as u8).collect()),
                ("Tear Rain [Insane].osu".to_string(), b"osu file format v14\n".to_vec()),
                ("bg.jpg".to_string(), vec![0xff, 0xd8, 0xff]),
            ],
            first_offset: 0,
            cipher_creator: "peppy".to_string(),
            cipher_set_id: "12345".to_string(),
        }
    }

    fn metadata_section(&self) -> Vec<u8> {
        let mut out: Vec<u8> = Vec::new();
        out.extend_from_slice(&(self.metadata.len() as i32).to_le_bytes());
        for (code, text) in &self.metadata {
            out.extend_from_slice(&code.to_le_bytes());
            out.write_net_string(text);
        }
        out
    }

    fn difficulty_section(&self) -> Vec<u8> {
        let mut out: Vec<u8> = Vec::new();
        out.extend_from_slice(&(self.difficulties.len() as i32).to_le_bytes());
        for (name, id) in &self.difficulties {
            out.write_net_string(name);
            out.extend_from_slice(&id.to_le_bytes());
        }
        out
    }

    fn table_plain(&self) -> Vec<u8> {
        let mut out: Vec<u8> = Vec::new();
        let mut offset = self.first_offset;
        out.extend_from_slice(&offset.to_le_bytes());
        for (i, (name, content)) in self.files.iter().enumerate() {
            out.write_net_string(name);
            out.extend_from_slice(&md5::compute(content).0);
            out.extend_from_slice(&0x0123_4567_89ab_cdefu64.to_le_bytes());
            out.extend_from_slice(&0x0fed_cba9_8765_4321u64.to_le_bytes());
            offset += content.len() as u32;
            if i + 1 < self.files.len() {
                out.extend_from_slice(&offset.to_le_bytes());
            }
        }
        out
    }

    fn file_info_block(&self) -> Vec<u8> {
        let key = derive_key(&self.cipher_creator, &self.cipher_set_id);
        let mut count = (self.files.len() as i32).to_le_bytes().to_vec();
        encrypt(&key, &mut count);
        let mut table = self.table_plain();
        encrypt(&key, &mut table);
        count.extend_from_slice(&table);
        count
    }

    fn known_block(&self) -> [u8; 64] {
        let key = derive_key(&self.cipher_creator, &self.cipher_set_id);
        let mut key_bytes = [0u8; 16];
        for (i, word) in key.iter().enumerate() {
            key_bytes[4 * i..4 * i + 4].copy_from_slice(&word.to_le_bytes());
        }
        let cipher = xtea::Xtea::new(&Array(key_bytes));
        let mut stored: [u8; 64] = FastRandom::new(1990).next_bytes();
        for block in stored.chunks_mut(8) {
            let mut plain = [0u8; 8];
            plain.copy_from_slice(block);
            let mut data = Array(plain);
            cipher.encrypt_block(&mut data);
            block.copy_from_slice(&data.0);
        }
        stored
    }

    fn hash_info(&self) -> [u8; 16] {
        let mut block = self.file_info_block();
        calc_osz2_hash(&mut block, self.files.len() * 4, 0xd1)
    }

    fn length_field(&self) -> i32 {
        let hash_info = self.hash_info();
        let mut length = self.file_info_block().len() as i32;
        for pair in hash_info.chunks(2) {
            length += pair[0] as i32 | (pair[1] as i32) << 17;
        }
        length
    }

    fn data_section(&self) -> Vec<u8> {
        let mut out: Vec<u8> = Vec::new();
        for (_, content) in &self.files {
            out.extend_from_slice(content);
        }
        out
    }

    fn head(&self) -> Vec<u8> {
        let mut meta = self.metadata_section();
        let hash_meta = calc_osz2_hash(&mut meta, 3 * self.metadata.len(), 0xa7);
        let mut out: Vec<u8> = vec![0xEC, b'H', b'O', self.version];
        out.extend_from_slice(&[0x11; 16]);
        out.extend_from_slice(&hash_meta);
        out.extend_from_slice(&self.hash_info());
        out.extend_from_slice(&[0x22; 16]);
        out.extend_from_slice(&meta);
        out.extend_from_slice(&self.difficulty_section());
        out.extend_from_slice(&self.known_block());
        out.extend_from_slice(&self.length_field().to_le_bytes());
        out.extend_from_slice(&self.file_info_block());
        out
    }

    fn archive(&self) -> Vec<u8> {
        let mut out = self.head();
        out.extend_from_slice(&self.data_section());
        out
    }
}

fn decode(bytes: &[u8]) -> Result<osz2::types::BeatmapPackage, DecodeError> {
    parse(&mut ByteReader::new(bytes), bytes.len() as u32)
}

fn decode_error(bytes: &[u8]) -> DecodeError {
    match decode(bytes) {
        Ok(_) => panic!("the package was accepted"),
        Err(e) => e,
    }
}

#[test]
fn a_good_package_decodes() {
    let sample = Sample::new();
    let bytes = sample.archive();
    let package = decode(&bytes).unwrap();

    assert_eq!(package.metadata.len(), 6);
    assert_eq!(package.metadata.get(MapMetaType::Creator), Some(&"peppy".to_string()));
    assert_eq!(package.metadata.get(MapMetaType::BeatmapSetId), Some(&"12345".to_string()));
    assert_eq!(package.metadata.get(MapMetaType::Title), Some(&"Tear Rain".to_string()));
    assert_eq!(
        package.metadata.get(MapMetaType::ArtistUnicode),
        Some(&"cYsmix feat. えみぃ".to_string())
    );
    assert_eq!(package.metadata.get(MapMetaType::Unknown), Some(&"from the future".to_string()));
    assert_eq!(package.metadata.get(MapMetaType::Tags), None);
    assert_eq!(&package.metadata_hash[..], &bytes[20..36]);

    assert_eq!(package.difficulties.len(), 2);
    assert_eq!(package.difficulties.get("Insane"), Some(&351189));
    assert_eq!(package.difficulties.get("Normal"), Some(&351190));
    assert_eq!(package.difficulties.get("Easy"), None);

    assert_eq!(package.files.len(), 3);
    let mut total = 0u32;
    for (name, content) in &sample.files {
        let entry = package.files.get(name).unwrap();
        assert_eq!(entry.length as usize, content.len());
        assert_eq!(entry.hash, md5::compute(content).0);
        total += entry.length;
    }
    assert_eq!(total as usize, sample.data_section().len());
}

#[test]
fn the_data_section_need_not_be_in_the_buffer() {
    let sample = Sample::new();
    let head = sample.head();
    let total = sample.archive().len() as u32;
    let package = parse(&mut ByteReader::new(&head), total).unwrap();
    assert_eq!(package.files.get("bg.jpg").unwrap().length, 3);
    assert_eq!(package.files.get("tearrain.mp3").unwrap().length, 1000);
}

#[test]
fn every_version_byte_is_accepted() {
    for version in [0u8, 1, 7, 0xff] {
        let mut sample = Sample::new();
        sample.version = version;
        assert!(decode(&sample.archive()).is_ok());
    }
}

#[test]
fn a_package_without_files_decodes() {
    let mut sample = Sample::new();
    sample.files.clear();
    let package = decode(&sample.archive()).unwrap();
    assert_eq!(package.files.len(), 0);
    assert!(package.files.is_empty());
}

#[test]
fn a_package_without_difficulties_decodes() {
    let mut sample = Sample::new();
    sample.difficulties.clear();
    let package = decode(&sample.archive()).unwrap();
    assert!(package.difficulties.is_empty());
    assert_eq!(package.files.len(), 3);
}

#[test]
fn a_later_entry_of_a_kind_replaces_an_earlier() {
    let mut sample = Sample::new();
    sample.metadata.push((0, "Second Title".to_string()));
    sample.metadata.push((5000, "also unknown".to_string()));
    let package = decode(&sample.archive()).unwrap();
    assert_eq!(package.metadata.len(), 6);
    assert_eq!(package.metadata.get(MapMetaType::Title), Some(&"Second Title".to_string()));
    assert_eq!(package.metadata.get(MapMetaType::Unknown), Some(&"also unknown".to_string()));
}

#[test]
fn the_last_file_reaches_the_end_of_the_package() {
    let mut sample = Sample::new();
    sample.files = vec![("a".to_string(), vec![1, 2, 3, 4, 5])];
    let bytes = sample.archive();
    let package = parse(&mut ByteReader::new(&bytes), bytes.len() as u32 + 10).unwrap();
    assert_eq!(package.files.get("a").unwrap().length, 15);
}

#[test]
fn the_first_offset_and_the_lengths_fill_the_data_section() {
    let mut sample = Sample::new();
    sample.first_offset = 7;
    let head = sample.head();
    let data_len = 7 + sample.data_section().len();
    let package = parse(&mut ByteReader::new(&head), (head.len() + data_len) as u32).unwrap();
    assert_eq!(package.files.len(), sample.files.len());
    let mut total = 0usize;
    for (name, content) in &sample.files {
        let entry = package.files.get(name).unwrap();
        assert_eq!(entry.length as usize, content.len());
        assert_eq!(entry.hash, md5::compute(content).0);
        total += entry.length as usize;
    }
    assert_eq!(7 + total, data_len);
}

#[test]
fn a_foreign_signature_is_bad_magic() {
    let mut bytes = Sample::new().archive();
    bytes[1] = b'X';
    assert_eq!(decode_error(&bytes), DecodeError::BadMagic);
    assert_eq!(decode_error(b"PK\x03\x04"), DecodeError::BadMagic);
    assert_eq!(decode_error(&[0xEC, b'H', b'o']), DecodeError::BadMagic);
}

#[test]
fn an_input_that_ends_early_is_truncated() {
    let bytes = Sample::new().head();
    assert_eq!(decode_error(&[]), DecodeError::Truncated);
    assert_eq!(decode_error(&bytes[..2]), DecodeError::Truncated);
    assert_eq!(decode_error(&bytes[..3]), DecodeError::Truncated);
    assert_eq!(decode_error(&bytes[..67]), DecodeError::Truncated);
    assert_eq!(decode_error(&bytes[..68]), DecodeError::Truncated);
    for cut in 0..bytes.len() {
        assert_eq!(
            parse(&mut ByteReader::new(&bytes[..cut]), 100_000).err(),
            Some(DecodeError::Truncated),
            "cut at {}",
            cut
        );
    }
}

#[test]
fn a_package_that_ends_before_its_last_file_begins_is_truncated() {
    let sample = Sample::new();
    let bytes = sample.archive();
    let head_len = sample.head().len() as u32;
    assert!(parse(&mut ByteReader::new(&bytes), head_len + 1020).is_ok());
    assert_eq!(
        parse(&mut ByteReader::new(&bytes), head_len + 1019).err(),
        Some(DecodeError::Truncated)
    );
    assert_eq!(parse(&mut ByteReader::new(&bytes), head_len - 1).err(), Some(DecodeError::Truncated));
    assert_eq!(parse(&mut ByteReader::new(&bytes), 0).err(), Some(DecodeError::Truncated));
}

#[test]
fn a_changed_metadata_text_fails_the_metadata_checkpoint() {
    let sample = Sample::new();
    let good = sample.archive();
    let section_len = sample.metadata_section().len();
    let title_at = HEADER_LEN + 4 + 2 + 1;
    for i in 0.."Tear Rain".len() {
        let mut bytes = good.clone();
        bytes[title_at + i] ^= 0x01;
        assert_eq!(
            decode_error(&bytes),
            DecodeError::DigestMismatch { which: Checkpoint::Metadata }
        );
    }
    for at in HEADER_LEN..HEADER_LEN + section_len {
        let mut bytes = good.clone();
        bytes[at] ^= 0x40;
        assert!(decode(&bytes).is_err(), "flip at {}", at);
    }
}

#[test]
fn a_changed_metadata_digest_fails_the_metadata_checkpoint() {
    let mut bytes = Sample::new().archive();
    bytes[20] ^= 0x80;
    assert_eq!(decode_error(&bytes), DecodeError::DigestMismatch { which: Checkpoint::Metadata });
}

#[test]
fn a_changed_file_info_block_fails_the_info_checkpoint() {
    let sample = Sample::new();
    let mut bytes = sample.head();
    let last = bytes.len() - 1;
    bytes[last] ^= 0x01;
    assert_eq!(
        parse(&mut ByteReader::new(&bytes), 100_000).err(),
        Some(DecodeError::DigestMismatch { which: Checkpoint::FileInfo })
    );
}

#[test]
fn metadata_of_another_creator_fail_the_key_check() {
    let mut sample = Sample::new();
    sample.metadata[2] = (2, "someone else".to_string());
    assert_eq!(decode_error(&sample.archive()), DecodeError::KeyMismatch);
    let mut sample = Sample::new();
    sample.metadata[3] = (9, "12346".to_string());
    assert_eq!(decode_error(&sample.archive()), DecodeError::KeyMismatch);
}

#[test]
fn the_key_check_comes_before_the_file_table() {
    let mut sample = Sample::new();
    sample.metadata[2] = (2, "someone else".to_string());
    let mut bytes = sample.head();
    let keep = bytes.len() - sample.file_info_block().len() - 4;
    bytes.truncate(keep);
    assert_eq!(decode_error(&bytes), DecodeError::KeyMismatch);
}

#[test]
fn metadata_without_creator_or_set_id_cannot_give_a_key() {
    let mut sample = Sample::new();
    sample.metadata.remove(2);
    assert_eq!(
        decode_error(&sample.archive()),
        DecodeError::MissingMetadataField { field: MapMetaType::Creator }
    );
    let mut sample = Sample::new();
    sample.metadata.remove(3);
    assert_eq!(
        decode_error(&sample.archive()),
        DecodeError::MissingMetadataField { field: MapMetaType::BeatmapSetId }
    );
    let mut sample = Sample::new();
    sample.metadata.clear();
    assert_eq!(
        decode_error(&sample.archive()),
        DecodeError::MissingMetadataField { field: MapMetaType::Creator }
    );
}

#[test]
fn metadata_text_that_is_not_utf8_is_refused() {
    let sample = Sample::new();
    let mut bytes = sample.archive();
    bytes[HEADER_LEN + 4 + 2 + 1] = 0xff;
    assert_eq!(decode_error(&bytes), DecodeError::InvalidUtf8);
}

#[test]
fn key_from_metadata_uses_creator_and_set_id() {
    let mut metadata = Metadata::new();
    assert_eq!(
        key_from_metadata(&metadata),
        Err(DecodeError::MissingMetadataField { field: MapMetaType::Creator })
    );
    metadata.insert(MapMetaType::Creator, "peppy".to_string());
    assert_eq!(
        key_from_metadata(&metadata),
        Err(DecodeError::MissingMetadataField { field: MapMetaType::BeatmapSetId })
    );
    metadata.insert(MapMetaType::BeatmapSetId, "12345".to_string());
    assert_eq!(
        key_from_metadata(&metadata),
        Ok([0xc6522f4c, 0xa8340fe5, 0x2669962f, 0x8af01189])
    );
}

#[test]
fn read_magic_says_whether_the_signature_is_there() {
    let mut reader = ByteReader::new(&[0xEC, b'H', b'O', 1]);
    assert_eq!(read_magic(&mut reader), Ok(true));
    assert_eq!(reader.stream_position(), 3);
    assert_eq!(read_magic(&mut ByteReader::new(&[0xEC, b'H', b'P'])), Ok(false));
    assert_eq!(read_magic(&mut ByteReader::new(&[0xEC, b'H'])), Err(DecodeError::Truncated));
}

#[test]
fn read_header_splits_the_fields() {
    let mut bytes = vec![0xEC, b'H', b'O', 9];
    bytes.extend((0..64).map(|i| i as u8));
    bytes.push(0x77);
    let mut reader = ByteReader::new(&bytes);
    let header = read_header(&mut reader).unwrap();
    assert_eq!(header.version, 9);
    assert_eq!(header.xor_iv.to_vec(), (0..16).collect::<Vec<u8>>());
    assert_eq!(header.hash_meta.to_vec(), (16..32).collect::<Vec<u8>>());
    assert_eq!(header.hash_info.to_vec(), (32..48).collect::<Vec<u8>>());
    assert_eq!(header.hash_body.to_vec(), (48..64).collect::<Vec<u8>>());
    assert_eq!(reader.stream_position(), HEADER_LEN);
}

#[test]
fn read_metadata_gives_the_map_and_the_digest() {
    let sample = Sample::new();
    let mut section = sample.metadata_section();
    let expected = calc_osz2_hash(&mut section, 18, 0xa7);
    section.push(0xaa);
    let mut reader = ByteReader::new(&section);
    let (metadata, hash) = read_metadata(&mut reader).unwrap();
    assert_eq!(hash, expected);
    assert_eq!(metadata.len(), 6);
    assert!(metadata.contains_key(MapMetaType::Artist));
    assert!(!metadata.contains_key(MapMetaType::Genre));
    assert_eq!(reader.remaining_len(), 1);
}

#[test]
fn read_metadata_takes_the_digest_over_the_bytes_read() {
    let mut section: Vec<u8> = Vec::new();
    section.extend_from_slice(&1i32.to_le_bytes());
    section.extend_from_slice(&2u16.to_le_bytes());
    section.extend_from_slice(&[0x82, 0x03]);
    section.extend_from_slice(b"peppy");
    let mut read = section.clone();
    let expected = calc_osz2_hash(&mut read, 3, 0xa7);
    section.extend_from_slice(&[0xaa, 0xbb]);
    let mut reader = ByteReader::new(&section);
    let (metadata, hash) = read_metadata(&mut reader).unwrap();
    assert_eq!(metadata.get(MapMetaType::Creator), Some(&"peppy".to_string()));
    assert_eq!(hash, expected);
    assert_eq!(reader.remaining_len(), 2);
    let mut written: Vec<u8> = Vec::new();
    written.extend_from_slice(&1i32.to_le_bytes());
    written.extend_from_slice(&2u16.to_le_bytes());
    written.write_net_string("peppy");
    assert_ne!(hash, calc_osz2_hash(&mut written, 3, 0xa7));
}

#[test]
fn read_metadata_takes_the_digest_at_three_times_the_entry_count() {
    let mut section: Vec<u8> = Vec::new();
    section.extend_from_slice(&2i32.to_le_bytes());
    for text in ["first", "second"] {
        section.extend_from_slice(&0u16.to_le_bytes());
        section.write_net_string(text);
    }
    let mut read = section.clone();
    let at_six = calc_osz2_hash(&mut read, 6, 0xa7);
    let at_three = calc_osz2_hash(&mut read, 3, 0xa7);
    let (metadata, hash) = read_metadata(&mut ByteReader::new(&section)).unwrap();
    assert_eq!(metadata.len(), 1);
    assert_eq!(metadata.get(MapMetaType::Title), Some(&"second".to_string()));
    assert_eq!(hash, at_six);
    assert_ne!(hash, at_three);
}

#[test]
fn a_package_with_long_texts_decodes() {
    for len in [127usize, 128, 254, 255, 381, 382, 508] {
        let mut sample = Sample::new();
        sample.metadata[0] = (0, "t".repeat(len));
        sample.difficulties[0] = ("d".repeat(len), 7);
        sample.files[2] = ("f".repeat(len), vec![1, 2, 3]);
        let package = decode(&sample.archive()).unwrap();
        assert_eq!(package.metadata.get(MapMetaType::Title), Some(&"t".repeat(len)));
        assert_eq!(package.difficulties.get(&"d".repeat(len)), Some(&7));
        assert_eq!(package.files.get(&"f".repeat(len)).unwrap().length, 3);
    }
}

#[test]
fn after_a_package_the_reader_stands_at_the_data_section() {
    let sample = Sample::new();
    let bytes = sample.archive();
    let mut reader = ByteReader::new(&bytes);
    assert!(parse(&mut reader, bytes.len() as u32).is_ok());
    assert_eq!(reader.stream_position(), sample.head().len());
    assert_eq!(reader.remaining_len(), sample.data_section().len());
}

#[test]
fn after_a_wrong_key_the_reader_stands_behind_the_known_block() {
    let mut sample = Sample::new();
    sample.metadata[2] = (2, "someone else".to_string());
    let bytes = sample.archive();
    let mut reader = ByteReader::new(&bytes);
    assert_eq!(parse(&mut reader, bytes.len() as u32).err(), Some(DecodeError::KeyMismatch));
    let known_block_end =
        HEADER_LEN + sample.metadata_section().len() + sample.difficulty_section().len() + 64;
    assert_eq!(reader.stream_position(), known_block_end);
}

#[test]
fn a_count_below_one_means_no_entries() {
    for count in [0i32, -1, i32::MIN] {
        let mut section = count.to_le_bytes().to_vec();
        let expected = calc_osz2_hash(&mut section, 0, 0xa7);
        section.extend_from_slice(&[1, 2, 3]);
        let mut reader = ByteReader::new(&section);
        let (metadata, hash) = read_metadata(&mut reader).unwrap();
        assert_eq!(metadata.len(), 0);
        assert_eq!(hash, expected);
        assert_eq!(reader.stream_position(), 4);

        let mut reader = ByteReader::new(&section);
        let table = read_difficulty_data(&mut reader).unwrap();
        assert!(table.is_empty());
        assert_eq!(reader.stream_position(), 4);
    }
}

#[test]
fn read_difficulty_data_keeps_the_last_id_of_a_name() {
    let mut section: Vec<u8> = Vec::new();
    section.extend_from_slice(&3i32.to_le_bytes());
    for (name, id) in [("Hard", 1u32), ("Easy", 2), ("Hard", 0xffff_ffff)] {
        section.write_net_string(name);
        section.extend_from_slice(&id.to_le_bytes());
    }
    let mut reader = ByteReader::new(&section);
    let table = read_difficulty_data(&mut reader).unwrap();
    assert_eq!(table.len(), 2);
    assert_eq!(table.get("Hard"), Some(&0xffff_ffff));
    assert_eq!(table.get("Easy"), Some(&2));
    assert_eq!(reader.remaining_len(), 0);
    let cut = &section[..section.len() - 1];
    assert_eq!(read_difficulty_data(&mut ByteReader::new(cut)).err(), Some(DecodeError::Truncated));
}

#[test]
fn read_data_length_takes_the_digest_pairs_off() {
    let hash_info: [u8; 16] = [1, 0, 2, 0, 3, 0, 4, 0, 5, 0, 6, 0, 7, 0, 8, 1];
    let stored: i32 = 36 + (1 << 17) + 100;
    let stored_bytes = stored.to_le_bytes();
    let mut reader = ByteReader::new(&stored_bytes);
    assert_eq!(read_data_length(&mut reader, &hash_info), Ok(100));
    assert_eq!(reader.stream_position(), 4);
    let all: [u8; 16] = [0xff; 16];
    let mask: i32 = 8 * (255 + (255 << 17));
    assert_eq!(read_data_length(&mut ByteReader::new(&mask.to_le_bytes()), &all), Ok(0));
    let below = mask - 1;
    assert_eq!(
        read_data_length(&mut ByteReader::new(&below.to_le_bytes()), &all),
        Err(DecodeError::Truncated)
    );
    assert_eq!(
        read_data_length(&mut ByteReader::new(&i32::MIN.to_le_bytes()), &all),
        Err(DecodeError::Truncated)
    );
    assert_eq!(
        read_data_length(&mut ByteReader::new(&[1, 2, 3]), &hash_info),
        Err(DecodeError::Truncated)
    );
    let zero = [0u8; 16];
    assert_eq!(
        read_data_length(&mut ByteReader::new(&i32::MAX.to_le_bytes()), &zero),
        Ok(i32::MAX as usize)
    );
}

#[test]
fn read_file_table_gives_each_file_its_length() {
    let sample = Sample::new();
    let plain = sample.table_plain();
    let files = read_file_table(&plain, 3, Some(1023)).unwrap();
    assert_eq!(files.get("tearrain.mp3").unwrap().length, 1000);
    assert_eq!(files.get("Tear Rain [Insane].osu").unwrap().length, 20);
    assert_eq!(files.get("bg.jpg").unwrap().length, 3);
    let files = read_file_table(&plain, 3, Some(2000)).unwrap();
    assert_eq!(files.get("bg.jpg").unwrap().length, 980);
    assert_eq!(read_file_table(&plain, 3, Some(1019)).err(), Some(DecodeError::Truncated));
    assert_eq!(read_file_table(&plain, 3, None).err(), Some(DecodeError::Truncated));
    assert_eq!(read_file_table(&plain, 0, None).unwrap().len(), 0);
    assert_eq!(read_file_table(&plain[..3], 0, None).err(), Some(DecodeError::Truncated));
}

#[test]
fn read_file_table_refuses_offsets_that_go_back() {
    let mut plain: Vec<u8> = Vec::new();
    plain.extend_from_slice(&100u32.to_le_bytes());
    plain.write_net_string("a");
    plain.extend_from_slice(&[0u8; 32]);
    plain.extend_from_slice(&99u32.to_le_bytes());
    plain.write_net_string("b");
    plain.extend_from_slice(&[0u8; 32]);
    assert_eq!(read_file_table(&plain, 2, Some(500)).err(), Some(DecodeError::Truncated));
    assert_eq!(read_file_table(&plain, 1, Some(100)).unwrap().get("a").unwrap().length, 0);
}

#[test]
fn read_file_table_keeps_the_last_record_of_a_name() {
    let mut plain: Vec<u8> = Vec::new();
    plain.extend_from_slice(&0u32.to_le_bytes());
    plain.write_net_string("a");
    plain.extend_from_slice(&[1u8; 32]);
    plain.extend_from_slice(&10u32.to_le_bytes());
    plain.write_net_string("a");
    plain.extend_from_slice(&[2u8; 32]);
    let files = read_file_table(&plain, 2, Some(15)).unwrap();
    assert_eq!(files.len(), 1);
    assert_eq!(files.get("a").unwrap().length, 5);
    assert_eq!(files.get("a").unwrap().hash, [2u8; 16]);
}

#[test]
fn read_file_info_checks_the_count_against_the_block() {
    let sample = Sample::new();
    let key = derive_key("peppy", "12345");
    let block = sample.file_info_block();
    let hash_info = sample.hash_info();
    let files = read_file_info(&block, &key, &hash_info, Some(1023)).unwrap();
    assert_eq!(files.len(), 3);
    assert_eq!(
        read_file_info(&block, &key, &[0u8; 16], Some(1023)).err(),
        Some(DecodeError::DigestMismatch { which: Checkpoint::FileInfo })
    );
    assert_eq!(
        read_file_info(&block[..3], &key, &hash_info, Some(1023)).err(),
        Some(DecodeError::Truncated)
    );
    let mut negative = (-1i32).to_le_bytes().to_vec();
    encrypt(&key, &mut negative);
    negative.extend_from_slice(&[0u8; 40]);
    assert_eq!(
        read_file_info(&negative, &key, &hash_info, Some(1023)).err(),
        Some(DecodeError::Truncated)
    );
    let mut large = 10i32.to_le_bytes().to_vec();
    encrypt(&key, &mut large);
    large.extend_from_slice(&[0u8; 36]);
    assert_eq!(
        read_file_info(&large, &key, &hash_info, Some(1023)).err(),
        Some(DecodeError::Truncated)
    );
}

#[test]
fn read_files_reads_from_the_known_block_on() {
    let sample = Sample::new();
    let key = derive_key("peppy", "12345");
    let head = sample.head();
    let at = HEADER_LEN + sample.metadata_section().len() + sample.difficulty_section().len();
    let total = sample.archive().len() as u32;
    let files = read_files(&mut ByteReader::new(&head[at..]), total - at as u32, &sample.hash_info(), &key)
        .unwrap();
    assert_eq!(files.get("bg.jpg").unwrap().length, 3);
}

#[test]
fn body_hash_is_the_checkpoint_digest_of_what_is_left() {
    let bytes: Vec<u8> = (0..50).collect();
    let metadata = Metadata::new();
    let mut reader = ByteReader::new(&bytes);
    reader.take(10).unwrap();
    let mut body = bytes[10..].to_vec();
    let expected = calc_osz2_hash(&mut body, 20, 0x9f);
    assert_eq!(body_hash(&mut reader, &metadata, 50, 20, 0x9f), Ok(expected));
    assert_eq!(reader.remaining_len(), 0);
    let mut reader = ByteReader::new(&bytes);
    assert_eq!(body_hash(&mut reader, &metadata, 51, 0, 0x9f), Err(DecodeError::Truncated));
}
