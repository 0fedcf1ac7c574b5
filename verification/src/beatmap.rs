//! The records of a beatmap file: its sections and what they hold.

use crate::text::str_eq;
use std::ops::Range;
use vstd::prelude::*;

verus! {

/// The sections of a beatmap file.
#[derive(Debug, Clone, Copy, PartialEq, Eq, Structural)]
pub enum BeatmapFileSection {
    General,
    Editor,
    Metadata,
    Difficulty,
    Events,
    TimingPoints,
    Colours,
    HitObjects,
}

impl BeatmapFileSection {
    /// The section that a heading names, if it names one. The name is
    /// compared as it stands: case matters, and so does every space.
    pub open spec fn spec_from_str(s: Seq<char>) -> Option<BeatmapFileSection> {
        if s == "General"@ {
            Some(BeatmapFileSection::General)
        } else if s == "Editor"@ {
            Some(BeatmapFileSection::Editor)
        } else if s == "Metadata"@ {
            Some(BeatmapFileSection::Metadata)
        } else if s == "Difficulty"@ {
            Some(BeatmapFileSection::Difficulty)
        } else if s == "Events"@ {
            Some(BeatmapFileSection::Events)
        } else if s == "TimingPoints"@ {
            Some(BeatmapFileSection::TimingPoints)
        } else if s == "Colours"@ {
            Some(BeatmapFileSection::Colours)
        } else if s == "HitObjects"@ {
            Some(BeatmapFileSection::HitObjects)
        } else {
            None
        }
    }

    /// The section that the heading `s` names, if it names one.
    pub fn from_str(s: &str) -> (section: Option<Self>)
        ensures
            section == Self::spec_from_str(s@),
    {
        if str_eq(s, "General") {
            Some(BeatmapFileSection::General)
        } else if str_eq(s, "Editor") {
            Some(BeatmapFileSection::Editor)
        } else if str_eq(s, "Metadata") {
            Some(BeatmapFileSection::Metadata)
        } else if str_eq(s, "Difficulty") {
            Some(BeatmapFileSection::Difficulty)
        } else if str_eq(s, "Events") {
            Some(BeatmapFileSection::Events)
        } else if str_eq(s, "TimingPoints") {
            Some(BeatmapFileSection::TimingPoints)
        } else if str_eq(s, "Colours") {
            Some(BeatmapFileSection::Colours)
        } else if str_eq(s, "HitObjects") {
            Some(BeatmapFileSection::HitObjects)
        } else {
            None
        }
    }
}

/// How fast the countdown before the first object runs.
#[derive(Debug, Clone, Copy, PartialEq, Eq, Structural)]
pub enum Countdown {
    Normal,
    Half,
    Double,
}

/// The sets of hit sounds.
#[derive(Debug, Clone, Copy, PartialEq, Eq, Structural)]
pub enum SampleSet {
    Normal,
    Soft,
    Drum,
}

impl SampleSet {
    /// The sample set that a name stands for, if it stands for one. The
    /// name is compared as it stands.
    pub open spec fn spec_from_str(s: Seq<char>) -> Option<SampleSet> {
        if s == "Normal"@ {
            Some(SampleSet::Normal)
        } else if s == "Soft"@ {
            Some(SampleSet::Soft)
        } else if s == "Drum"@ {
            Some(SampleSet::Drum)
        } else {
            None
        }
    }

    /// The sample set that the name `s` stands for, if it stands for one.
    pub fn from_str(s: &str) -> (set: Option<Self>)
        ensures
            set == Self::spec_from_str(s@),
    {
        if str_eq(s, "Normal") {
            Some(SampleSet::Normal)
        } else if str_eq(s, "Soft") {
            Some(SampleSet::Soft)
        } else if str_eq(s, "Drum") {
            Some(SampleSet::Drum)
        } else {
            None
        }
    }
}

/// The game modes.
#[derive(Debug, Clone, Copy, PartialEq, Eq, Structural)]
pub enum Mode {
    Osu,
    Taiko,
    Catch,
    Mania,
}

/// A colour of three channels.
#[derive(Debug, PartialEq, Eq)]
pub struct RGB<T> {
    pub r: T,
    pub g: T,
    pub b: T,
}

/// The colour of a combo.
pub type ComboColour = RGB<u8>;

/// An entry of the events section.
#[derive(Debug, PartialEq, Eq)]
pub enum Event {
    /// The background image and where it stands on the screen.
    Background { filename: String, offset: (u16, u16) },
    /// A video, when it starts, and where it stands on the screen.
    Video { start_time: u32, filename: String, offset: (u16, u16) },
    /// A break, from its first to before its last millisecond.
    Break(Range<u32>),
}

impl Clone for Event {
    fn clone(&self) -> (copy: Self)
        ensures
            copy == *self,
    {
        match self {
            Event::Background { filename, offset } => Event::Background {
                filename: filename.clone(),
                offset: *offset,
            },
            Event::Video { start_time, filename, offset } => Event::Video {
                start_time: *start_time,
                filename: filename.clone(),
                offset: *offset,
            },
            Event::Break(range) => Event::Break(Range { start: range.start, end: range.end }),
        }
    }
}

/// What kind of object a hit object is.
#[derive(Debug, Clone, Copy, PartialEq)]
pub enum SpecificHitObject {
    Circle,
    Slider {  },
    Spinner {  },
    ManiaHold {  },
}

/// An object to hit.
#[derive(Debug, Clone, Copy, PartialEq)]
pub struct HitObject {
    pub position: (u16, u16),
    pub time: u32,
    pub specific: SpecificHitObject,
    pub hit_sound: u8,
    pub hit_sample: u8,
}

/// The metadata section of a beatmap file.
#[derive(Debug, PartialEq)]
pub struct BeatmapMetadata {
    pub title: String,
    pub title_unicode: String,
    pub artist: String,
    pub artist_unicode: String,
    pub creator: String,
    pub version: String,
    pub source: String,
    pub tags: String,
    pub beatmap_id: i32,
    pub beatmap_set_id: i32,
}

/// Which sounds a hit object plays.
#[derive(Debug, PartialEq, Eq)]
pub struct HitSample {
    /// The sample set of the normal sound; zero for the default.
    pub normal_set: u8,
    /// The sample set of the additional sounds; zero for the default.
    pub addition_set: u8,
    /// The index of the sample; zero for the default.
    pub index: u32,
    /// The volume, in percent; zero for the volume of the timing point.
    pub volume: u8,
    /// The file that is played in place of the sound, if one is named.
    pub filename: Option<String>,
}

} // verus!
