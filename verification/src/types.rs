//! The records that a decoded package is made of.

use crate::assoc::{
    distinct_keys, has_key, lemma_pairs_map_distinct, lemma_pairs_map_keys, lemma_pairs_map_push,
    lemma_pairs_map_update, pairs_map,
};
use crate::text::str_eq;
use vstd::prelude::*;

verus! {

/// The kinds of metadata that a package can carry, each with the numeric
/// code that stands for it in the container.
#[derive(Debug, Clone, Copy, PartialEq, Eq, Hash, Structural)]
pub enum MapMetaType {
    Title,
    Artist,
    Creator,
    Version,
    Source,
    Tags,
    VideoDataOffset,
    VideoDataLength,
    VideoHash,
    BeatmapSetId,
    Genre,
    Language,
    TitleUnicode,
    ArtistUnicode,
    /// Stands for every code without a name of its own.
    Unknown,
    Difficulty,
    PreviewTime,
    ArtistFullName,
    ArtistTwitter,
    SourceUnicode,
    ArtistUrl,
    Revision,
    PackId,
}

impl MapMetaType {
    /// The code that stands for this kind in the container.
    pub open spec fn spec_code(self) -> u16 {
        match self {
            MapMetaType::Title => 0,
            MapMetaType::Artist => 1,
            MapMetaType::Creator => 2,
            MapMetaType::Version => 3,
            MapMetaType::Source => 4,
            MapMetaType::Tags => 5,
            MapMetaType::VideoDataOffset => 6,
            MapMetaType::VideoDataLength => 7,
            MapMetaType::VideoHash => 8,
            MapMetaType::BeatmapSetId => 9,
            MapMetaType::Genre => 10,
            MapMetaType::Language => 11,
            MapMetaType::TitleUnicode => 12,
            MapMetaType::ArtistUnicode => 13,
            MapMetaType::Unknown => 9999,
            MapMetaType::Difficulty => 1000,
            MapMetaType::PreviewTime => 10001,
            MapMetaType::ArtistFullName => 10002,
            MapMetaType::ArtistTwitter => 10003,
            MapMetaType::SourceUnicode => 10004,
            MapMetaType::ArtistUrl => 10005,
            MapMetaType::Revision => 10006,
            MapMetaType::PackId => 10007,
        }
    }

    /// The kind that a code stands for; `Unknown` for a code without a name.
    pub open spec fn spec_from_code(code: u16) -> MapMetaType {
        if code == 0 {
            MapMetaType::Title
        } else if code == 1 {
            MapMetaType::Artist
        } else if code == 2 {
            MapMetaType::Creator
        } else if code == 3 {
            MapMetaType::Version
        } else if code == 4 {
            MapMetaType::Source
        } else if code == 5 {
            MapMetaType::Tags
        } else if code == 6 {
            MapMetaType::VideoDataOffset
        } else if code == 7 {
            MapMetaType::VideoDataLength
        } else if code == 8 {
            MapMetaType::VideoHash
        } else if code == 9 {
            MapMetaType::BeatmapSetId
        } else if code == 10 {
            MapMetaType::Genre
        } else if code == 11 {
            MapMetaType::Language
        } else if code == 12 {
            MapMetaType::TitleUnicode
        } else if code == 13 {
            MapMetaType::ArtistUnicode
        } else if code == 1000 {
            MapMetaType::Difficulty
        } else if code == 10001 {
            MapMetaType::PreviewTime
        } else if code == 10002 {
            MapMetaType::ArtistFullName
        } else if code == 10003 {
            MapMetaType::ArtistTwitter
        } else if code == 10004 {
            MapMetaType::SourceUnicode
        } else if code == 10005 {
            MapMetaType::ArtistUrl
        } else if code == 10006 {
            MapMetaType::Revision
        } else if code == 10007 {
            MapMetaType::PackId
        } else {
            MapMetaType::Unknown
        }
    }

    /// The code that stands for this kind in the container.
    pub fn code(self) -> (c: u16)
        ensures
            c == self.spec_code(),
    {
        match self {
            MapMetaType::Title => 0,
            MapMetaType::Artist => 1,
            MapMetaType::Creator => 2,
            MapMetaType::Version => 3,
            MapMetaType::Source => 4,
            MapMetaType::Tags => 5,
            MapMetaType::VideoDataOffset => 6,
            MapMetaType::VideoDataLength => 7,
            MapMetaType::VideoHash => 8,
            MapMetaType::BeatmapSetId => 9,
            MapMetaType::Genre => 10,
            MapMetaType::Language => 11,
            MapMetaType::TitleUnicode => 12,
            MapMetaType::ArtistUnicode => 13,
            MapMetaType::Unknown => 9999,
            MapMetaType::Difficulty => 1000,
            MapMetaType::PreviewTime => 10001,
            MapMetaType::ArtistFullName => 10002,
            MapMetaType::ArtistTwitter => 10003,
            MapMetaType::SourceUnicode => 10004,
            MapMetaType::ArtistUrl => 10005,
            MapMetaType::Revision => 10006,
            MapMetaType::PackId => 10007,
        }
    }

    /// The kind that `code` stands for. A code without a name is no error:
    /// it gives `Unknown`.
    pub fn from_code(code: u16) -> (kind: MapMetaType)
        ensures
            kind == Self::spec_from_code(code),
    {
        match code {
            0 => MapMetaType::Title,
            1 => MapMetaType::Artist,
            2 => MapMetaType::Creator,
            3 => MapMetaType::Version,
            4 => MapMetaType::Source,
            5 => MapMetaType::Tags,
            6 => MapMetaType::VideoDataOffset,
            7 => MapMetaType::VideoDataLength,
            8 => MapMetaType::VideoHash,
            9 => MapMetaType::BeatmapSetId,
            10 => MapMetaType::Genre,
            11 => MapMetaType::Language,
            12 => MapMetaType::TitleUnicode,
            13 => MapMetaType::ArtistUnicode,
            1000 => MapMetaType::Difficulty,
            10001 => MapMetaType::PreviewTime,
            10002 => MapMetaType::ArtistFullName,
            10003 => MapMetaType::ArtistTwitter,
            10004 => MapMetaType::SourceUnicode,
            10005 => MapMetaType::ArtistUrl,
            10006 => MapMetaType::Revision,
            10007 => MapMetaType::PackId,
            _ => MapMetaType::Unknown,
        }
    }

    /// Every kind is what its own code stands for, and a code with a name
    /// is the code of the kind it stands for.
    pub proof fn lemma_code_roundtrip(kind: MapMetaType, code: u16)
        ensures
            Self::spec_from_code(kind.spec_code()) == kind,
            Self::spec_from_code(code) != MapMetaType::Unknown ==> Self::spec_from_code(
                code,
            ).spec_code() == code,
    {
    }
}

/// The metadata of a package: at most one text for each kind.
#[derive(Debug, Clone)]
pub struct Metadata {
    entries: Vec<(MapMetaType, String)>,
}

/// The kinds and texts that a run of entries holds.
pub open spec fn meta_pairs(entries: Seq<(MapMetaType, String)>) -> Seq<(MapMetaType, Seq<char>)> {
    Seq::new(entries.len(), |i: int| (entries[i].0, entries[i].1@))
}

impl View for Metadata {
    type V = Map<MapMetaType, Seq<char>>;

    closed spec fn view(&self) -> Map<MapMetaType, Seq<char>> {
        pairs_map(meta_pairs(self.entries@))
    }
}

impl Metadata {
    /// Whether no kind stands twice among the entries: what every value
    /// made by `new` and changed by `insert` is.
    pub closed spec fn wf(&self) -> bool {
        distinct_keys(meta_pairs(self.entries@))
    }

    /// Metadata without any entry.
    pub fn new() -> (m: Self)
        ensures
            m.wf(),
            m@ == Map::<MapMetaType, Seq<char>>::empty(),
    {
        Metadata { entries: Vec::new() }
    }

    /// The number of kinds that have a text.
    pub fn len(&self) -> (n: usize)
        requires
            self.wf(),
        ensures
            self@.dom().finite(),
            n == self@.len(),
    {
        proof {
            lemma_pairs_map_distinct(meta_pairs(self.entries@));
        }
        self.entries.len()
    }

    /// Where the entry of `key` stands, if it has one.
    fn position(&self, key: MapMetaType) -> (at: Option<usize>)
        requires
            self.wf(),
        ensures
            match at {
                Some(i) => i < self.entries@.len() && self.entries@[i as int].0 == key,
                None => !self@.contains_key(key),
            },
    {
        let mut i: usize = 0;
        while i < self.entries.len()
            invariant
                i <= self.entries@.len(),
                forall|j: int| 0 <= j < i ==> (#[trigger] self.entries@[j]).0 != key,
            decreases self.entries@.len() - i,
        {
            if self.entries[i].0 == key {
                return Some(i);
            }
            i += 1;
        }
        proof {
            let pairs = meta_pairs(self.entries@);
            lemma_pairs_map_keys(pairs, key);
            if has_key(pairs, key) {
                let j = choose|j: int| 0 <= j < pairs.len() && (#[trigger] pairs[j]).0 == key;
                assert(self.entries@[j].0 == key);
            }
        }
        None
    }

    /// The text of `key`, if it has one.
    pub fn get(&self, key: MapMetaType) -> (text: Option<&String>)
        requires
            self.wf(),
        ensures
            match text {
                Some(s) => self@.contains_key(key) && s@ == self@[key],
                None => !self@.contains_key(key),
            },
    {
        match self.position(key) {
            Some(i) => {
                proof {
                    let pairs = meta_pairs(self.entries@);
                    lemma_pairs_map_distinct(pairs);
                    assert(pairs[i as int] == (key, self.entries@[i as int].1@));
                }
                Some(&self.entries[i].1)
            },
            None => None,
        }
    }

    /// Whether `key` has a text.
    pub fn contains_key(&self, key: MapMetaType) -> (b: bool)
        requires
            self.wf(),
        ensures
            b == self@.contains_key(key),
    {
        match self.position(key) {
            Some(i) => {
                proof {
                    let pairs = meta_pairs(self.entries@);
                    lemma_pairs_map_distinct(pairs);
                    assert(pairs[i as int].0 == key);
                }
                true
            },
            None => false,
        }
    }

    /// The kinds with their texts, in the order in which the kinds came in:
    /// every kind that has a text once, with its text.
    pub fn entries(&self) -> (entries: &Vec<(MapMetaType, String)>)
        requires
            self.wf(),
        ensures
            distinct_keys(meta_pairs(entries@)),
            self@ == pairs_map(meta_pairs(entries@)),
            entries@.len() == self@.len(),
    {
        proof {
            lemma_pairs_map_distinct(meta_pairs(self.entries@));
        }
        &self.entries
    }

    /// Gives `key` the text `value`, in place of the text it had, if any.
    pub fn insert(&mut self, key: MapMetaType, value: String)
        requires
            old(self).wf(),
        ensures
            final(self).wf(),
            final(self)@ == old(self)@.insert(key, value@),
    {
        let ghost text = value@;
        let ghost before = meta_pairs(self.entries@);
        match self.position(key) {
            Some(i) => {
                self.entries[i] = (key, value);
                proof {
                    lemma_pairs_map_update(before, i as int, text);
                    assert(meta_pairs(self.entries@) =~= before.update(i as int, (key, text)));
                }
            },
            None => {
                self.entries.push((key, value));
                proof {
                    lemma_pairs_map_push(before, key, text);
                    lemma_pairs_map_keys(before, key);
                    let now = meta_pairs(self.entries@);
                    assert(now =~= before.push((key, text)));
                    assert forall|i: int, j: int| 0 <= i < j < now.len() implies (
                    #[trigger] now[i]).0 != (#[trigger] now[j]).0 by {
                        assert(now[i] == before[i]);
                        if j < before.len() {
                            assert(now[j] == before[j]);
                        }
                    }
                }
            },
        }
    }
}

/// A table by name: at most one value for each name. It stands where a
/// hash map would; what it holds can also be gone through in the order in
/// which the names came in.
#[derive(Debug, Clone)]
pub struct NameTable<V> {
    entries: Vec<(String, V)>,
}

/// The names and values that a run of entries holds.
pub open spec fn name_pairs<V>(entries: Seq<(String, V)>) -> Seq<(Seq<char>, V)> {
    Seq::new(entries.len(), |i: int| (entries[i].0@, entries[i].1))
}

impl<V> View for NameTable<V> {
    type V = Map<Seq<char>, V>;

    closed spec fn view(&self) -> Map<Seq<char>, V> {
        pairs_map(name_pairs(self.entries@))
    }
}

impl<V> NameTable<V> {
    /// Whether no name stands twice among the entries: what every value
    /// made by `new` and changed by `insert` is.
    pub closed spec fn wf(&self) -> bool {
        distinct_keys(name_pairs(self.entries@))
    }

    /// A table without any entry.
    pub fn new() -> (table: Self)
        ensures
            table.wf(),
            table@ == Map::<Seq<char>, V>::empty(),
    {
        NameTable { entries: Vec::new() }
    }

    /// The number of names that have a value.
    pub fn len(&self) -> (n: usize)
        requires
            self.wf(),
        ensures
            self@.dom().finite(),
            n == self@.len(),
    {
        proof {
            lemma_pairs_map_distinct(name_pairs(self.entries@));
        }
        self.entries.len()
    }

    /// Whether no name has a value.
    pub fn is_empty(&self) -> (empty: bool)
        requires
            self.wf(),
        ensures
            empty == (self@ == Map::<Seq<char>, V>::empty()),
    {
        proof {
            let pairs = name_pairs(self.entries@);
            lemma_pairs_map_distinct(pairs);
            if pairs.len() > 0 {
                assert(self@.contains_key(pairs[0].0));
            }
        }
        self.entries.len() == 0
    }

    /// Where the entry of `name` stands, if it has one.
    fn position(&self, name: &str) -> (at: Option<usize>)
        requires
            self.wf(),
        ensures
            match at {
                Some(i) => i < self.entries@.len() && self.entries@[i as int].0@ == name@,
                None => !self@.contains_key(name@),
            },
    {
        let mut i: usize = 0;
        while i < self.entries.len()
            invariant
                i <= self.entries@.len(),
                forall|j: int| 0 <= j < i ==> (#[trigger] self.entries@[j]).0@ != name@,
            decreases self.entries@.len() - i,
        {
            if str_eq(self.entries[i].0.as_str(), name) {
                return Some(i);
            }
            i += 1;
        }
        proof {
            let pairs = name_pairs(self.entries@);
            lemma_pairs_map_keys(pairs, name@);
            if has_key(pairs, name@) {
                let j = choose|j: int| 0 <= j < pairs.len() && (#[trigger] pairs[j]).0 == name@;
                assert(self.entries@[j].0@ == name@);
            }
        }
        None
    }

    /// The value of `name`, if it has one.
    pub fn get(&self, name: &str) -> (value: Option<&V>)
        requires
            self.wf(),
        ensures
            match value {
                Some(v) => self@.contains_key(name@) && *v == self@[name@],
                None => !self@.contains_key(name@),
            },
    {
        match self.position(name) {
            Some(i) => {
                proof {
                    let pairs = name_pairs(self.entries@);
                    lemma_pairs_map_distinct(pairs);
                    assert(pairs[i as int] == (name@, self.entries@[i as int].1));
                }
                Some(&self.entries[i].1)
            },
            None => None,
        }
    }

    /// Whether `name` has a value.
    pub fn contains_key(&self, name: &str) -> (b: bool)
        requires
            self.wf(),
        ensures
            b == self@.contains_key(name@),
    {
        match self.position(name) {
            Some(i) => {
                proof {
                    let pairs = name_pairs(self.entries@);
                    lemma_pairs_map_distinct(pairs);
                    assert(pairs[i as int].0 == name@);
                }
                true
            },
            None => false,
        }
    }

    /// The names with their values, in the order in which the names came
    /// in: every name that has a value once, with its value.
    pub fn entries(&self) -> (entries: &Vec<(String, V)>)
        requires
            self.wf(),
        ensures
            distinct_keys(name_pairs(entries@)),
            self@ == pairs_map(name_pairs(entries@)),
            entries@.len() == self@.len(),
    {
        proof {
            lemma_pairs_map_distinct(name_pairs(self.entries@));
        }
        &self.entries
    }

    /// Gives `name` the value `value`, in place of the value it had, if any.
    pub fn insert(&mut self, name: String, value: V)
        requires
            old(self).wf(),
        ensures
            final(self).wf(),
            final(self)@ == old(self)@.insert(name@, value),
    {
        let ghost key = name@;
        let ghost before = name_pairs(self.entries@);
        match self.position(name.as_str()) {
            Some(i) => {
                self.entries[i] = (name, value);
                proof {
                    lemma_pairs_map_update(before, i as int, value);
                    assert(name_pairs(self.entries@) =~= before.update(i as int, (key, value)));
                }
            },
            None => {
                self.entries.push((name, value));
                proof {
                    lemma_pairs_map_push(before, key, value);
                    lemma_pairs_map_keys(before, key);
                    let now = name_pairs(self.entries@);
                    assert(now =~= before.push((key, value)));
                    assert forall|i: int, j: int| 0 <= i < j < now.len() implies (
                    #[trigger] now[i]).0 != (#[trigger] now[j]).0 by {
                        assert(now[i] == before[i]);
                        if j < before.len() {
                            assert(now[j] == before[j]);
                        }
                    }
                }
            },
        }
    }
}

/// One cataloged file of a package.
#[derive(Debug, Clone, Copy)]
pub struct PackageFile {
    /// How many bytes the file takes in the data section.
    pub length: u32,
    /// The digest of the file's content.
    pub hash: [u8; 16],
}

/// A cataloged file as plain values.
pub struct PackageFileView {
    pub length: u32,
    pub hash: Seq<u8>,
}

impl View for PackageFile {
    type V = PackageFileView;

    open spec fn view(&self) -> PackageFileView {
        PackageFileView { length: self.length, hash: self.hash@ }
    }
}

/// A file table as plain values.
pub open spec fn files_view(files: Map<Seq<char>, PackageFile>) -> Map<Seq<char>, PackageFileView> {
    Map::new(|name: Seq<char>| files.contains_key(name), |name: Seq<char>| files[name]@)
}

/// A decoded package.
#[derive(Debug, Clone)]
pub struct BeatmapPackage {
    /// The metadata, by kind.
    pub metadata: Metadata,
    /// The checkpoint digest that the metadata was verified against.
    pub metadata_hash: [u8; 16],
    /// The difficulty variants in the package: an identifier for each name.
    pub difficulties: NameTable<u32>,
    /// The files in the package, by name.
    pub files: NameTable<PackageFile>,
}

/// A decoded package as plain values.
pub struct PackageView {
    pub metadata: Map<MapMetaType, Seq<char>>,
    pub metadata_hash: Seq<u8>,
    pub difficulties: Map<Seq<char>, u32>,
    pub files: Map<Seq<char>, PackageFileView>,
}

impl BeatmapPackage {
    /// Whether the three tables of the package are consistent.
    pub open spec fn wf(&self) -> bool {
        self.metadata.wf() && self.difficulties.wf() && self.files.wf()
    }
}

impl View for BeatmapPackage {
    type V = PackageView;

    open spec fn view(&self) -> PackageView {
        PackageView {
            metadata: self.metadata@,
            metadata_hash: self.metadata_hash@,
            difficulties: self.difficulties@,
            files: files_view(self.files@),
        }
    }
}

} // verus!
