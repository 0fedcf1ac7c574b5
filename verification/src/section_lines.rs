//! The key-and-value sections of a beatmap file: general, editor,
//! difficulty and metadata.
//!
//! Decimal fractions are kept as the text that writes them. Whoever needs
//! the number parses the text.

use crate::beatmap::{BeatmapMetadata, Countdown, Mode, SampleSet};
use crate::parser::{
    bounded_value, i32_value, spec_split_key_value, split_key_value, text_view, OsuParserError,
    OsuParserErrorView,
};
use crate::text::{parse_i32, parse_u32, parse_u8, split_fields, split_spec, str_eq, views};
use vstd::prelude::*;

verus! {

/// The general section of a beatmap file as far as its lines have been
/// read.
pub struct InParseGeneral<'a> {
    pub audio_file_name: Option<&'a str>,
    pub audio_lead_in: Option<u32>,
    pub preview_time: Option<u32>,
    pub countdown: Option<Countdown>,
    pub sample_set: Option<SampleSet>,
    /// The stack leniency, as the text that writes it.
    pub stack_leniency: Option<&'a str>,
    pub mode: Option<Mode>,
    pub letterbox_in_breaks: Option<bool>,
    pub widescreen_storyboard: Option<bool>,
}

/// The general section read so far as plain values.
pub struct InParseGeneralView {
    pub audio_file_name: Option<Seq<char>>,
    pub audio_lead_in: Option<u32>,
    pub preview_time: Option<u32>,
    pub countdown: Option<Countdown>,
    pub sample_set: Option<SampleSet>,
    pub stack_leniency: Option<Seq<char>>,
    pub mode: Option<Mode>,
    pub letterbox_in_breaks: Option<bool>,
    pub widescreen_storyboard: Option<bool>,
}

impl InParseGeneralView {
    /// A general section of which nothing has been read.
    pub open spec fn empty() -> InParseGeneralView {
        InParseGeneralView {
            audio_file_name: None,
            audio_lead_in: None,
            preview_time: None,
            countdown: None,
            sample_set: None,
            stack_leniency: None,
            mode: None,
            letterbox_in_breaks: None,
            widescreen_storyboard: None,
        }
    }
}

impl<'a> View for InParseGeneral<'a> {
    type V = InParseGeneralView;

    open spec fn view(&self) -> InParseGeneralView {
        InParseGeneralView {
            audio_file_name: text_view(self.audio_file_name),
            audio_lead_in: self.audio_lead_in,
            preview_time: self.preview_time,
            countdown: self.countdown,
            sample_set: self.sample_set,
            stack_leniency: text_view(self.stack_leniency),
            mode: self.mode,
            letterbox_in_breaks: self.letterbox_in_breaks,
            widescreen_storyboard: self.widescreen_storyboard,
        }
    }
}

impl<'a> Default for InParseGeneral<'a> {
    /// A general section of which nothing has been read.
    fn default() -> (general: Self)
        ensures
            general@ == InParseGeneralView::empty(),
    {
        InParseGeneral {
            audio_file_name: None,
            audio_lead_in: None,
            preview_time: None,
            countdown: None,
            sample_set: None,
            stack_leniency: None,
            mode: None,
            letterbox_in_breaks: None,
            widescreen_storyboard: None,
        }
    }
}

/// The countdown that a number stands for: none for zero.
pub open spec fn spec_countdown(code: int) -> Result<Option<Countdown>, OsuParserErrorView> {
    if code == 0 {
        Ok(None)
    } else if code == 1 {
        Ok(Some(Countdown::Normal))
    } else if code == 2 {
        Ok(Some(Countdown::Half))
    } else if code == 3 {
        Ok(Some(Countdown::Double))
    } else {
        Err(OsuParserErrorView::BadFormat)
    }
}

/// The mode that a number stands for.
pub open spec fn spec_mode(code: int) -> Result<Mode, OsuParserErrorView> {
    if code == 0 {
        Ok(Mode::Osu)
    } else if code == 1 {
        Ok(Mode::Taiko)
    } else if code == 2 {
        Ok(Mode::Catch)
    } else if code == 3 {
        Ok(Mode::Mania)
    } else {
        Err(OsuParserErrorView::BadFormat)
    }
}

/// The general section after one of its lines has been read. Numbers must
/// be numbers of the width of their field; a countdown, a sample set and a
/// mode must be known ones; the audio hash is passed over.
pub open spec fn spec_read_general_line(general: InParseGeneralView, line: Seq<char>) -> Result<
    InParseGeneralView,
    OsuParserErrorView,
> {
    match spec_split_key_value(line) {
        None => Err(OsuParserErrorView::BadFormat),
        Some((key, value)) => {
            if key == "AudioFilename"@ {
                Ok(InParseGeneralView { audio_file_name: Some(value), ..general })
            } else if key == "AudioLeadIn"@ {
                match bounded_value(value, u32::MAX as int) {
                    Some(v) => Ok(InParseGeneralView { audio_lead_in: Some(v as u32), ..general }),
                    None => Err(OsuParserErrorView::IntegerParse),
                }
            } else if key == "PreviewTime"@ {
                match bounded_value(value, u32::MAX as int) {
                    Some(v) => Ok(InParseGeneralView { preview_time: Some(v as u32), ..general }),
                    None => Err(OsuParserErrorView::IntegerParse),
                }
            } else if key == "Countdown"@ {
                match bounded_value(value, u8::MAX as int) {
                    Some(v) => match spec_countdown(v) {
                        Ok(countdown) => Ok(InParseGeneralView { countdown, ..general }),
                        Err(e) => Err(e),
                    },
                    None => Err(OsuParserErrorView::IntegerParse),
                }
            } else if key == "SampleSet"@ {
                match SampleSet::spec_from_str(value) {
                    Some(set) => Ok(InParseGeneralView { sample_set: Some(set), ..general }),
                    None => Err(OsuParserErrorView::BadFormat),
                }
            } else if key == "StackLeniency"@ {
                Ok(InParseGeneralView { stack_leniency: Some(value), ..general })
            } else if key == "Mode"@ {
                match bounded_value(value, u8::MAX as int) {
                    Some(v) => match spec_mode(v) {
                        Ok(mode) => Ok(InParseGeneralView { mode: Some(mode), ..general }),
                        Err(e) => Err(e),
                    },
                    None => Err(OsuParserErrorView::IntegerParse),
                }
            } else if key == "LetterboxInBreaks"@ {
                match bounded_value(value, u8::MAX as int) {
                    Some(v) => Ok(
                        InParseGeneralView { letterbox_in_breaks: Some(v != 0), ..general },
                    ),
                    None => Err(OsuParserErrorView::IntegerParse),
                }
            } else if key == "WidescreenStoryboard"@ {
                match bounded_value(value, u8::MAX as int) {
                    Some(v) => Ok(
                        InParseGeneralView { widescreen_storyboard: Some(v != 0), ..general },
                    ),
                    None => Err(OsuParserErrorView::IntegerParse),
                }
            } else if key == "AudioHash"@ {
                Ok(general)
            } else {
                Err(OsuParserErrorView::InvalidKey(key))
            }
        },
    }
}

/// Reads a line of the general section into `general`. On an error the
/// section stays as it was.
pub fn read_general_line<'a>(general: &mut InParseGeneral<'a>, line: &'a str) -> (r: Result<
    (),
    OsuParserError,
>)
    ensures
        match r {
            Ok(done) => spec_read_general_line(old(general)@, line@) == Ok::<
                InParseGeneralView,
                OsuParserErrorView,
            >(final(general)@),
            Err(e) => spec_read_general_line(old(general)@, line@) == Err::<
                InParseGeneralView,
                OsuParserErrorView,
            >(e@) && final(general)@ == old(general)@,
        },
{
    let (key, value) = match split_key_value(line) {
        Some(pair) => pair,
        None => {
            return Err(OsuParserError::BadFormat);
        },
    };
    if str_eq(key, "AudioFilename") {
        general.audio_file_name = Some(value);
    } else if str_eq(key, "AudioLeadIn") {
        match parse_u32(value) {
            Ok(v) => {
                general.audio_lead_in = Some(v);
            },
            Err(e) => {
                return Err(OsuParserError::IntegerParse(e));
            },
        }
    } else if str_eq(key, "PreviewTime") {
        match parse_u32(value) {
            Ok(v) => {
                general.preview_time = Some(v);
            },
            Err(e) => {
                return Err(OsuParserError::IntegerParse(e));
            },
        }
    } else if str_eq(key, "Countdown") {
        let code = match parse_u8(value) {
            Ok(v) => v,
            Err(e) => {
                return Err(OsuParserError::IntegerParse(e));
            },
        };
        general.countdown = match code {
            0 => None,
            1 => Some(Countdown::Normal),
            2 => Some(Countdown::Half),
            3 => Some(Countdown::Double),
            _ => {
                return Err(OsuParserError::BadFormat);
            },
        };
    } else if str_eq(key, "SampleSet") {
        match SampleSet::from_str(value) {
            Some(set) => {
                general.sample_set = Some(set);
            },
            None => {
                return Err(OsuParserError::BadFormat);
            },
        }
    } else if str_eq(key, "StackLeniency") {
        general.stack_leniency = Some(value);
    } else if str_eq(key, "Mode") {
        let code = match parse_u8(value) {
            Ok(v) => v,
            Err(e) => {
                return Err(OsuParserError::IntegerParse(e));
            },
        };
        let mode = match code {
            0 => Mode::Osu,
            1 => Mode::Taiko,
            2 => Mode::Catch,
            3 => Mode::Mania,
            _ => {
                return Err(OsuParserError::BadFormat);
            },
        };
        general.mode = Some(mode);
    } else if str_eq(key, "LetterboxInBreaks") {
        match parse_u8(value) {
            Ok(v) => {
                general.letterbox_in_breaks = Some(v != 0);
            },
            Err(e) => {
                return Err(OsuParserError::IntegerParse(e));
            },
        }
    } else if str_eq(key, "WidescreenStoryboard") {
        match parse_u8(value) {
            Ok(v) => {
                general.widescreen_storyboard = Some(v != 0);
            },
            Err(e) => {
                return Err(OsuParserError::IntegerParse(e));
            },
        }
    } else if str_eq(key, "AudioHash") {
    } else {
        return Err(OsuParserError::InvalidKey(key.to_owned()));
    }
    Ok(())
}

/// The difficulty section of a beatmap file as far as its lines have been
/// read: each setting as the text that writes it.
pub struct InParseDifficulty<'a> {
    pub hp: Option<&'a str>,
    pub cs: Option<&'a str>,
    pub od: Option<&'a str>,
    pub ar: Option<&'a str>,
    pub slider_multiplier: Option<&'a str>,
    pub slider_tick_rate: Option<&'a str>,
}

/// The difficulty section read so far as plain values.
pub struct InParseDifficultyView {
    pub hp: Option<Seq<char>>,
    pub cs: Option<Seq<char>>,
    pub od: Option<Seq<char>>,
    pub ar: Option<Seq<char>>,
    pub slider_multiplier: Option<Seq<char>>,
    pub slider_tick_rate: Option<Seq<char>>,
}

impl InParseDifficultyView {
    /// A difficulty section of which nothing has been read.
    pub open spec fn empty() -> InParseDifficultyView {
        InParseDifficultyView {
            hp: None,
            cs: None,
            od: None,
            ar: None,
            slider_multiplier: None,
            slider_tick_rate: None,
        }
    }
}

impl<'a> View for InParseDifficulty<'a> {
    type V = InParseDifficultyView;

    open spec fn view(&self) -> InParseDifficultyView {
        InParseDifficultyView {
            hp: text_view(self.hp),
            cs: text_view(self.cs),
            od: text_view(self.od),
            ar: text_view(self.ar),
            slider_multiplier: text_view(self.slider_multiplier),
            slider_tick_rate: text_view(self.slider_tick_rate),
        }
    }
}

impl<'a> Default for InParseDifficulty<'a> {
    /// A difficulty section of which nothing has been read.
    fn default() -> (difficulty: Self)
        ensures
            difficulty@ == InParseDifficultyView::empty(),
    {
        InParseDifficulty {
            hp: None,
            cs: None,
            od: None,
            ar: None,
            slider_multiplier: None,
            slider_tick_rate: None,
        }
    }
}

/// The difficulty section after one of its lines has been read: the
/// setting that the key names holds the text of the value.
pub open spec fn spec_read_difficulty_line(difficulty: InParseDifficultyView, line: Seq<char>)
    -> Result<InParseDifficultyView, OsuParserErrorView> {
    match spec_split_key_value(line) {
        None => Err(OsuParserErrorView::BadFormat),
        Some((key, value)) => {
            if key == "HPDrainRate"@ {
                Ok(InParseDifficultyView { hp: Some(value), ..difficulty })
            } else if key == "CircleSize"@ {
                Ok(InParseDifficultyView { cs: Some(value), ..difficulty })
            } else if key == "OverallDifficulty"@ {
                Ok(InParseDifficultyView { od: Some(value), ..difficulty })
            } else if key == "ApproachRate"@ {
                Ok(InParseDifficultyView { ar: Some(value), ..difficulty })
            } else if key == "SliderMultiplier"@ {
                Ok(InParseDifficultyView { slider_multiplier: Some(value), ..difficulty })
            } else if key == "SliderTickRate"@ {
                Ok(InParseDifficultyView { slider_tick_rate: Some(value), ..difficulty })
            } else {
                Err(OsuParserErrorView::InvalidKey(key))
            }
        },
    }
}

/// Reads a line of the difficulty section into `difficulty`. On an error
/// the section stays as it was.
pub fn read_difficulty_line<'a>(difficulty: &mut InParseDifficulty<'a>, line: &'a str) -> (r:
    Result<(), OsuParserError>)
    ensures
        match r {
            Ok(done) => spec_read_difficulty_line(old(difficulty)@, line@) == Ok::<
                InParseDifficultyView,
                OsuParserErrorView,
            >(final(difficulty)@),
            Err(e) => spec_read_difficulty_line(old(difficulty)@, line@) == Err::<
                InParseDifficultyView,
                OsuParserErrorView,
            >(e@) && final(difficulty)@ == old(difficulty)@,
        },
{
    let (key, value) = match split_key_value(line) {
        Some(pair) => pair,
        None => {
            return Err(OsuParserError::BadFormat);
        },
    };
    if str_eq(key, "HPDrainRate") {
        difficulty.hp = Some(value);
    } else if str_eq(key, "CircleSize") {
        difficulty.cs = Some(value);
    } else if str_eq(key, "OverallDifficulty") {
        difficulty.od = Some(value);
    } else if str_eq(key, "ApproachRate") {
        difficulty.ar = Some(value);
    } else if str_eq(key, "SliderMultiplier") {
        difficulty.slider_multiplier = Some(value);
    } else if str_eq(key, "SliderTickRate") {
        difficulty.slider_tick_rate = Some(value);
    } else {
        return Err(OsuParserError::InvalidKey(key.to_owned()));
    }
    Ok(())
}

/// The editor section of a beatmap file as far as its lines have been read.
pub struct InParseEditor<'a> {
    pub bookmarks: Vec<u32>,
    /// The distance spacing, as the text that writes it.
    pub distance_spacing: Option<&'a str>,
    pub beat_divisor: Option<u8>,
    pub grid_size: Option<u8>,
    /// The timeline zoom, as the text that writes it.
    pub timeline_zoom: Option<&'a str>,
}

/// The editor section read so far as plain values.
pub struct InParseEditorView {
    pub bookmarks: Seq<u32>,
    pub distance_spacing: Option<Seq<char>>,
    pub beat_divisor: Option<u8>,
    pub grid_size: Option<u8>,
    pub timeline_zoom: Option<Seq<char>>,
}

impl InParseEditorView {
    /// An editor section of which nothing has been read.
    pub open spec fn empty() -> InParseEditorView {
        InParseEditorView {
            bookmarks: Seq::empty(),
            distance_spacing: None,
            beat_divisor: None,
            grid_size: None,
            timeline_zoom: None,
        }
    }
}

impl<'a> View for InParseEditor<'a> {
    type V = InParseEditorView;

    open spec fn view(&self) -> InParseEditorView {
        InParseEditorView {
            bookmarks: self.bookmarks@,
            distance_spacing: text_view(self.distance_spacing),
            beat_divisor: self.beat_divisor,
            grid_size: self.grid_size,
            timeline_zoom: text_view(self.timeline_zoom),
        }
    }
}

impl<'a> Default for InParseEditor<'a> {
    /// An editor section of which nothing has been read.
    fn default() -> (editor: Self)
        ensures
            editor@ == InParseEditorView::empty(),
    {
        InParseEditor {
            bookmarks: Vec::new(),
            distance_spacing: None,
            beat_divisor: None,
            grid_size: None,
            timeline_zoom: None,
        }
    }
}

/// The numbers that the first `count` of the given texts write, if each of
/// them writes one that a `u32` holds.
pub open spec fn spec_numbers(texts: Seq<Seq<char>>, count: int) -> Option<Seq<u32>>
    decreases count,
{
    if count <= 0 {
        Some(Seq::empty())
    } else {
        match spec_numbers(texts, count - 1) {
            None => None,
            Some(before) => match bounded_value(texts[count - 1], u32::MAX as int) {
                None => None,
                Some(v) => Some(before.push(v as u32)),
            },
        }
    }
}

/// The bookmarks that a value writes: numbers between commas.
pub open spec fn spec_bookmarks(value: Seq<char>) -> Option<Seq<u32>> {
    spec_numbers(split_spec(value, ','), split_spec(value, ',').len() as int)
}

/// Once a text is no number, no longer run of the texts gives numbers.
proof fn lemma_numbers_fail(texts: Seq<Seq<char>>, k: int, count: int)
    requires
        k <= count,
        spec_numbers(texts, k) is None,
    ensures
        spec_numbers(texts, count) is None,
    decreases count - k,
{
    if k < count {
        lemma_numbers_fail(texts, k, count - 1);
    }
}

/// Reads the bookmarks from the value of their line.
fn read_bookmarks(value: &str) -> (r: Result<Vec<u32>, OsuParserError>)
    ensures
        match r {
            Ok(bookmarks) => spec_bookmarks(value@) == Some(bookmarks@),
            Err(e) => spec_bookmarks(value@) is None && e@ == OsuParserErrorView::IntegerParse,
        },
{
    let fields = split_fields(value, ',');
    let mut bookmarks: Vec<u32> = Vec::new();
    let mut i: usize = 0;
    while i < fields.len()
        invariant
            i <= fields@.len(),
            views(fields@) == split_spec(value@, ','),
            spec_numbers(views(fields@), i as int) == Some(bookmarks@),
        decreases fields@.len() - i,
    {
        match parse_u32(fields[i]) {
            Ok(v) => {
                bookmarks.push(v);
            },
            Err(e) => {
                proof {
                    lemma_numbers_fail(views(fields@), i + 1, fields@.len() as int);
                }
                return Err(OsuParserError::IntegerParse(e));
            },
        }
        i += 1;
    }
    Ok(bookmarks)
}

/// The editor section after one of its lines has been read.
pub open spec fn spec_read_editor_line(editor: InParseEditorView, line: Seq<char>) -> Result<
    InParseEditorView,
    OsuParserErrorView,
> {
    match spec_split_key_value(line) {
        None => Err(OsuParserErrorView::BadFormat),
        Some((key, value)) => {
            if key == "Bookmarks"@ {
                match spec_bookmarks(value) {
                    Some(bookmarks) => Ok(InParseEditorView { bookmarks, ..editor }),
                    None => Err(OsuParserErrorView::IntegerParse),
                }
            } else if key == "DistanceSpacing"@ {
                Ok(InParseEditorView { distance_spacing: Some(value), ..editor })
            } else if key == "BeatDivisor"@ {
                match bounded_value(value, u8::MAX as int) {
                    Some(v) => Ok(InParseEditorView { beat_divisor: Some(v as u8), ..editor }),
                    None => Err(OsuParserErrorView::IntegerParse),
                }
            } else if key == "GridSize"@ {
                match bounded_value(value, u8::MAX as int) {
                    Some(v) => Ok(InParseEditorView { grid_size: Some(v as u8), ..editor }),
                    None => Err(OsuParserErrorView::IntegerParse),
                }
            } else if key == "TimelineZoom"@ {
                Ok(InParseEditorView { timeline_zoom: Some(value), ..editor })
            } else {
                Err(OsuParserErrorView::InvalidKey(key))
            }
        },
    }
}

/// Reads a line of the editor section into `editor`. On an error the
/// section stays as it was.
pub fn read_editor_line<'a>(editor: &mut InParseEditor<'a>, line: &'a str) -> (r: Result<
    (),
    OsuParserError,
>)
    ensures
        match r {
            Ok(done) => spec_read_editor_line(old(editor)@, line@) == Ok::<
                InParseEditorView,
                OsuParserErrorView,
            >(final(editor)@),
            Err(e) => spec_read_editor_line(old(editor)@, line@) == Err::<
                InParseEditorView,
                OsuParserErrorView,
            >(e@) && final(editor)@ == old(editor)@,
        },
{
    let (key, value) = match split_key_value(line) {
        Some(pair) => pair,
        None => {
            return Err(OsuParserError::BadFormat);
        },
    };
    if str_eq(key, "Bookmarks") {
        match read_bookmarks(value) {
            Ok(bookmarks) => {
                editor.bookmarks = bookmarks;
            },
            Err(e) => {
                return Err(e);
            },
        }
    } else if str_eq(key, "DistanceSpacing") {
        editor.distance_spacing = Some(value);
    } else if str_eq(key, "BeatDivisor") {
        match parse_u8(value) {
            Ok(v) => {
                editor.beat_divisor = Some(v);
            },
            Err(e) => {
                return Err(OsuParserError::IntegerParse(e));
            },
        }
    } else if str_eq(key, "GridSize") {
        match parse_u8(value) {
            Ok(v) => {
                editor.grid_size = Some(v);
            },
            Err(e) => {
                return Err(OsuParserError::IntegerParse(e));
            },
        }
    } else if str_eq(key, "TimelineZoom") {
        editor.timeline_zoom = Some(value);
    } else {
        return Err(OsuParserError::InvalidKey(key.to_owned()));
    }
    Ok(())
}

/// The metadata of a beatmap file as far as its lines have been read.
pub struct InParseMetadata<'a> {
    pub title: Option<&'a str>,
    pub title_unicode: Option<&'a str>,
    pub artist: Option<&'a str>,
    pub artist_unicode: Option<&'a str>,
    pub creator: Option<&'a str>,
    pub version: Option<&'a str>,
    pub source: Option<&'a str>,
    pub tags: Option<&'a str>,
    pub beatmap_id: Option<i32>,
    pub beatmap_set_id: Option<i32>,
}

impl<'a> Default for InParseMetadata<'a> {
    /// Metadata of which nothing has been read.
    fn default() -> (metadata: Self)
        ensures
            metadata@ == InParseMetadataView::empty(),
    {
        InParseMetadata {
            title: None,
            title_unicode: None,
            artist: None,
            artist_unicode: None,
            creator: None,
            version: None,
            source: None,
            tags: None,
            beatmap_id: None,
            beatmap_set_id: None,
        }
    }
}

/// The metadata read so far as plain values.
pub struct InParseMetadataView {
    pub title: Option<Seq<char>>,
    pub title_unicode: Option<Seq<char>>,
    pub artist: Option<Seq<char>>,
    pub artist_unicode: Option<Seq<char>>,
    pub creator: Option<Seq<char>>,
    pub version: Option<Seq<char>>,
    pub source: Option<Seq<char>>,
    pub tags: Option<Seq<char>>,
    pub beatmap_id: Option<i32>,
    pub beatmap_set_id: Option<i32>,
}

impl InParseMetadataView {
    /// Metadata of which nothing has been read.
    pub open spec fn empty() -> InParseMetadataView {
        InParseMetadataView {
            title: None,
            title_unicode: None,
            artist: None,
            artist_unicode: None,
            creator: None,
            version: None,
            source: None,
            tags: None,
            beatmap_id: None,
            beatmap_set_id: None,
        }
    }
}

impl<'a> View for InParseMetadata<'a> {
    type V = InParseMetadataView;

    open spec fn view(&self) -> InParseMetadataView {
        InParseMetadataView {
            title: text_view(self.title),
            title_unicode: text_view(self.title_unicode),
            artist: text_view(self.artist),
            artist_unicode: text_view(self.artist_unicode),
            creator: text_view(self.creator),
            version: text_view(self.version),
            source: text_view(self.source),
            tags: text_view(self.tags),
            beatmap_id: self.beatmap_id,
            beatmap_set_id: self.beatmap_set_id,
        }
    }
}

/// The metadata after a line of the metadata section has been read: the
/// field that the key names holds the value. A line without a colon, a key
/// that names no field, and an identifier that is no number are errors.
pub open spec fn spec_read_metadata_line(metadata: InParseMetadataView, line: Seq<char>) -> Result<
    InParseMetadataView,
    OsuParserErrorView,
> {
    match spec_split_key_value(line) {
        None => Err(OsuParserErrorView::BadFormat),
        Some((key, value)) => {
            if key == "Title"@ {
                Ok(InParseMetadataView { title: Some(value), ..metadata })
            } else if key == "TitleUnicode"@ {
                Ok(InParseMetadataView { title_unicode: Some(value), ..metadata })
            } else if key == "Artist"@ {
                Ok(InParseMetadataView { artist: Some(value), ..metadata })
            } else if key == "ArtistUnicode"@ {
                Ok(InParseMetadataView { artist_unicode: Some(value), ..metadata })
            } else if key == "Creator"@ {
                Ok(InParseMetadataView { creator: Some(value), ..metadata })
            } else if key == "Version"@ {
                Ok(InParseMetadataView { version: Some(value), ..metadata })
            } else if key == "Source"@ {
                Ok(InParseMetadataView { source: Some(value), ..metadata })
            } else if key == "Tags"@ {
                Ok(InParseMetadataView { tags: Some(value), ..metadata })
            } else if key == "BeatmapID"@ {
                match i32_value(value) {
                    Some(id) => Ok(InParseMetadataView { beatmap_id: Some(id), ..metadata }),
                    None => Err(OsuParserErrorView::IntegerParse),
                }
            } else if key == "BeatmapSetID"@ {
                match i32_value(value) {
                    Some(id) => Ok(InParseMetadataView { beatmap_set_id: Some(id), ..metadata }),
                    None => Err(OsuParserErrorView::IntegerParse),
                }
            } else {
                Err(OsuParserErrorView::InvalidKey(key))
            }
        },
    }
}

/// Reads a line of the metadata section into `metadata`. On an error the
/// metadata stay as they were.
pub fn read_metadata_line<'a>(metadata: &mut InParseMetadata<'a>, line: &'a str) -> (r: Result<
    (),
    OsuParserError,
>)
    ensures
        match r {
            Ok(done) => spec_read_metadata_line(old(metadata)@, line@) == Ok::<
                InParseMetadataView,
                OsuParserErrorView,
            >(final(metadata)@),
            Err(e) => spec_read_metadata_line(old(metadata)@, line@) == Err::<
                InParseMetadataView,
                OsuParserErrorView,
            >(e@) && final(metadata)@ == old(metadata)@,
        },
{
    let (key, value) = match split_key_value(line) {
        Some(pair) => pair,
        None => {
            return Err(OsuParserError::BadFormat);
        },
    };
    if str_eq(key, "Title") {
        metadata.title = Some(value);
    } else if str_eq(key, "TitleUnicode") {
        metadata.title_unicode = Some(value);
    } else if str_eq(key, "Artist") {
        metadata.artist = Some(value);
    } else if str_eq(key, "ArtistUnicode") {
        metadata.artist_unicode = Some(value);
    } else if str_eq(key, "Creator") {
        metadata.creator = Some(value);
    } else if str_eq(key, "Version") {
        metadata.version = Some(value);
    } else if str_eq(key, "Source") {
        metadata.source = Some(value);
    } else if str_eq(key, "Tags") {
        metadata.tags = Some(value);
    } else if str_eq(key, "BeatmapID") {
        match parse_i32(value) {
            Ok(id) => {
                metadata.beatmap_id = Some(id);
            },
            Err(e) => {
                return Err(OsuParserError::IntegerParse(e));
            },
        }
    } else if str_eq(key, "BeatmapSetID") {
        match parse_i32(value) {
            Ok(id) => {
                metadata.beatmap_set_id = Some(id);
            },
            Err(e) => {
                return Err(OsuParserError::IntegerParse(e));
            },
        }
    } else {
        return Err(OsuParserError::InvalidKey(key.to_owned()));
    }
    Ok(())
}

/// The metadata of a beatmap as plain values.
pub struct BeatmapMetadataView {
    pub title: Seq<char>,
    pub title_unicode: Seq<char>,
    pub artist: Seq<char>,
    pub artist_unicode: Seq<char>,
    pub creator: Seq<char>,
    pub version: Seq<char>,
    pub source: Seq<char>,
    pub tags: Seq<char>,
    pub beatmap_id: i32,
    pub beatmap_set_id: i32,
}

impl View for BeatmapMetadata {
    type V = BeatmapMetadataView;

    open spec fn view(&self) -> BeatmapMetadataView {
        BeatmapMetadataView {
            title: self.title@,
            title_unicode: self.title_unicode@,
            artist: self.artist@,
            artist_unicode: self.artist_unicode@,
            creator: self.creator@,
            version: self.version@,
            source: self.source@,
            tags: self.tags@,
            beatmap_id: self.beatmap_id,
            beatmap_set_id: self.beatmap_set_id,
        }
    }
}

/// The text of a field, or the given text where the field was not read.
pub open spec fn text_or(field: Option<Seq<char>>, otherwise: Seq<char>) -> Seq<char> {
    match field {
        Some(text) => text,
        None => otherwise,
    }
}

/// The metadata of a beatmap from what was read of them. Title, artist,
/// creator and version must have been read. The other texts have defaults:
/// the title and the artist for their unicode forms, nothing for source
/// and tags. An identifier that was not read is -1.
pub open spec fn spec_finalize_metadata(metadata: InParseMetadataView) -> Result<
    BeatmapMetadataView,
    OsuParserErrorView,
> {
    if metadata.title is None || metadata.artist is None || metadata.creator is None
        || metadata.version is None {
        Err(OsuParserErrorView::BadFormat)
    } else {
        Ok(
            BeatmapMetadataView {
                title: metadata.title->0,
                title_unicode: text_or(metadata.title_unicode, metadata.title->0),
                artist: metadata.artist->0,
                artist_unicode: text_or(metadata.artist_unicode, metadata.artist->0),
                creator: metadata.creator->0,
                version: metadata.version->0,
                source: text_or(metadata.source, Seq::empty()),
                tags: text_or(metadata.tags, Seq::empty()),
                beatmap_id: match metadata.beatmap_id {
                    Some(id) => id,
                    None => -1i32,
                },
                beatmap_set_id: match metadata.beatmap_set_id {
                    Some(id) => id,
                    None => -1i32,
                },
            },
        )
    }
}

/// The text of a field as a string of its own, or the given text where the
/// field was not read.
fn owned_or(field: Option<&str>, otherwise: &str) -> (text: String)
    ensures
        text@ == text_or(text_view(field), otherwise@),
{
    match field {
        Some(text) => text.to_owned(),
        None => otherwise.to_owned(),
    }
}

/// Builds the metadata of a beatmap from what was read of them.
pub fn finalize_metadata(metadata: &InParseMetadata) -> (r: Result<BeatmapMetadata, OsuParserError>)
    ensures
        match r {
            Ok(done) => spec_finalize_metadata(metadata@) == Ok::<
                BeatmapMetadataView,
                OsuParserErrorView,
            >(done@),
            Err(e) => spec_finalize_metadata(metadata@) == Err::<
                BeatmapMetadataView,
                OsuParserErrorView,
            >(e@),
        },
{
    let title = match metadata.title {
        Some(text) => text,
        None => {
            return Err(OsuParserError::BadFormat);
        },
    };
    let artist = match metadata.artist {
        Some(text) => text,
        None => {
            return Err(OsuParserError::BadFormat);
        },
    };
    let creator = match metadata.creator {
        Some(text) => text,
        None => {
            return Err(OsuParserError::BadFormat);
        },
    };
    let version = match metadata.version {
        Some(text) => text,
        None => {
            return Err(OsuParserError::BadFormat);
        },
    };
    let nothing = String::new();
    Ok(
        BeatmapMetadata {
            title: title.to_owned(),
            title_unicode: owned_or(metadata.title_unicode, title),
            artist: artist.to_owned(),
            artist_unicode: owned_or(metadata.artist_unicode, artist),
            creator: creator.to_owned(),
            version: version.to_owned(),
            source: owned_or(metadata.source, nothing.as_str()),
            tags: owned_or(metadata.tags, nothing.as_str()),
            beatmap_id: match metadata.beatmap_id {
                Some(id) => id,
                None => -1,
            },
            beatmap_set_id: match metadata.beatmap_set_id {
                Some(id) => id,
                None => -1,
            },
        },
    )
}

} // verus!
