//! Reading the text of a beatmap file: the errors, and what a line is.

use crate::beatmap::BeatmapFileSection;
use crate::text::{
    first_index, is_prefix, parse_u8, signed_value, split_once, starts_with, strip_prefixes, trim,
    trim_spec, trim_start_matches, unsigned_value,
};
use std::io::Error;
use std::num::{ParseFloatError, ParseIntError};
use vstd::prelude::*;
use vstd::string::StrSliceExecFns;

verus! {

/// The error of a failed read, which this library only hands on.
#[verifier::external_type_specification]
#[verifier::external_body]
pub struct ExIoError(Error);

/// The error of a failed parse of a decimal fraction, which this library
/// only hands on.
#[verifier::external_type_specification]
#[verifier::external_body]
pub struct ExParseFloatError(ParseFloatError);

/// Why a beatmap file could not be read.
#[derive(Debug)]
pub enum OsuParserError {
    /// The file could not be read.
    IOError(Error),
    /// The format version is not supported.
    UnsupportedVersion(u8),
    /// The format version is no number.
    VersionParse(String),
    /// The format version is below the oldest that is read.
    VersionTooOld(u8),
    /// The format version is above the newest that is read.
    VersionTooNew(u8),
    /// A section heading names no section.
    InvalidSection(String),
    /// A line of data stands before the first section heading.
    DataOutsideSection,
    /// A line does not have the form that its section asks for.
    BadFormat,
    /// A key is not known in its section.
    InvalidKey(String),
    /// A whole number is expected and not found.
    IntegerParse(ParseIntError),
    /// A decimal fraction is expected and not found.
    FloatParse(ParseFloatError),
}

/// An error as plain values: the kind, and the text or number that it
/// carries. What the errors of failed reads and parses hold is left out.
pub enum OsuParserErrorView {
    IOError,
    UnsupportedVersion(u8),
    VersionParse(Seq<char>),
    VersionTooOld(u8),
    VersionTooNew(u8),
    InvalidSection(Seq<char>),
    DataOutsideSection,
    BadFormat,
    InvalidKey(Seq<char>),
    IntegerParse,
    FloatParse,
}

impl View for OsuParserError {
    type V = OsuParserErrorView;

    open spec fn view(&self) -> OsuParserErrorView {
        match self {
            OsuParserError::IOError(_) => OsuParserErrorView::IOError,
            OsuParserError::UnsupportedVersion(v) => OsuParserErrorView::UnsupportedVersion(*v),
            OsuParserError::VersionParse(s) => OsuParserErrorView::VersionParse(s@),
            OsuParserError::VersionTooOld(v) => OsuParserErrorView::VersionTooOld(*v),
            OsuParserError::VersionTooNew(v) => OsuParserErrorView::VersionTooNew(*v),
            OsuParserError::InvalidSection(s) => OsuParserErrorView::InvalidSection(s@),
            OsuParserError::DataOutsideSection => OsuParserErrorView::DataOutsideSection,
            OsuParserError::BadFormat => OsuParserErrorView::BadFormat,
            OsuParserError::InvalidKey(s) => OsuParserErrorView::InvalidKey(s@),
            OsuParserError::IntegerParse(_) => OsuParserErrorView::IntegerParse,
            OsuParserError::FloatParse(_) => OsuParserErrorView::FloatParse,
        }
    }
}

/// What a read of a beatmap file gives: the result, or the error with the
/// section in which it arose.
pub type OsuParserResult<T> = Result<T, (Option<BeatmapFileSection>, OsuParserError)>;

/// Which sections of a beatmap file are read.
pub struct BeatmapParseOptions {
    pub read_editor: bool,
    pub read_events: bool,
    pub read_colors: bool,
    pub read_timing_points: bool,
    pub read_hit_objects: bool,
}

impl Default for BeatmapParseOptions {
    /// Every section but the colours.
    fn default() -> (options: Self)
        ensures
            options.read_editor,
            options.read_events,
            !options.read_colors,
            options.read_timing_points,
            options.read_hit_objects,
    {
        BeatmapParseOptions {
            read_editor: true,
            read_events: true,
            read_colors: false,
            read_timing_points: true,
            read_hit_objects: true,
        }
    }
}

/// The key and the value of a line: what stands before and after its first
/// colon, each without the white space around it; nothing for a line
/// without a colon.
pub open spec fn spec_split_key_value(line: Seq<char>) -> Option<(Seq<char>, Seq<char>)> {
    if first_index(line, ':') >= line.len() {
        None
    } else {
        Some(
            (
                trim_spec(line.subrange(0, first_index(line, ':'))),
                trim_spec(line.subrange(first_index(line, ':') + 1, line.len() as int)),
            ),
        )
    }
}

/// Splits a line into its key and its value.
pub fn split_key_value(line: &str) -> (r: Option<(&str, &str)>)
    ensures
        match r {
            Some((key, value)) => spec_split_key_value(line@) == Some((key@, value@)),
            None => spec_split_key_value(line@) is None,
        },
{
    match split_once(line, ':') {
        Some((key, value)) => Some((trim(key), trim(value))),
        None => None,
    }
}

/// The view of an optional string.
pub open spec fn text_view(text: Option<&str>) -> Option<Seq<char>> {
    match text {
        Some(s) => Some(s@),
        None => None,
    }
}

/// The number that `s` writes, where it writes one that an `i32` holds.
pub open spec fn i32_value(s: Seq<char>) -> Option<i32> {
    match signed_value(s) {
        Some(v) => if i32::MIN <= v <= i32::MAX {
            Some(v as i32)
        } else {
            None
        },
        None => None,
    }
}

/// The number that `s` writes, where it writes one that is at most `max`
/// and has no minus sign.
pub open spec fn bounded_value(s: Seq<char>, max: int) -> Option<int> {
    match unsigned_value(s) {
        Some(v) => if v <= max {
            Some(v)
        } else {
            None
        },
        None => None,
    }
}

/// The oldest format version that is read.
pub const OLDEST_VERSION: u8 = 3;

/// The newest format version that is read.
pub const NEWEST_VERSION: u8 = 14;

/// The format version that the first line of a file states: the number
/// that is left when the words before it are taken off.
pub open spec fn spec_parse_version(line: Seq<char>) -> Result<u8, OsuParserErrorView> {
    match bounded_value(strip_prefixes(line, "osu file format v"@), u8::MAX as int) {
        None => Err(OsuParserErrorView::IntegerParse),
        Some(v) => {
            if v < OLDEST_VERSION {
                Err(OsuParserErrorView::VersionTooOld(v as u8))
            } else if v > NEWEST_VERSION {
                Err(OsuParserErrorView::VersionTooNew(v as u8))
            } else {
                Ok(v as u8)
            }
        },
    }
}

/// Reads the format version from the first line of a file.
pub fn parse_version(line: &str) -> (r: Result<u8, OsuParserError>)
    ensures
        match r {
            Ok(version) => spec_parse_version(line@) == Ok::<u8, OsuParserErrorView>(version),
            Err(e) => spec_parse_version(line@) == Err::<u8, OsuParserErrorView>(e@),
        },
{
    let version_string = trim_start_matches(line, "osu file format v");
    let version = match parse_u8(version_string) {
        Ok(v) => v,
        Err(e) => {
            return Err(OsuParserError::IntegerParse(e));
        },
    };
    if version < OLDEST_VERSION {
        Err(OsuParserError::VersionTooOld(version))
    } else if version > NEWEST_VERSION {
        Err(OsuParserError::VersionTooNew(version))
    } else {
        Ok(version)
    }
}

/// Whether a line of a file is read at all: not a line of white space
/// only, and not a line that begins with two slashes.
pub open spec fn spec_keeps_line(line: Seq<char>) -> bool {
    trim_spec(line).len() > 0 && !is_prefix("//"@, line)
}

/// Whether a line of a file is read at all.
pub fn keeps_line(line: &str) -> (keep: bool)
    ensures
        keep == spec_keeps_line(line@),
{
    !trim(line).is_empty() && !starts_with(line, "//")
}

/// What a line says of sections: nothing, unless it begins with `[` and
/// ends with `]`; else the section that stands between the two, or the
/// error that there is no section of that name.
pub open spec fn spec_section_heading(line: Seq<char>) -> Option<
    Result<BeatmapFileSection, OsuParserErrorView>,
> {
    if line.len() >= 2 && line[0] == '[' && line.last() == ']' {
        match BeatmapFileSection::spec_from_str(line.subrange(1, line.len() - 1)) {
            Some(section) => Some(Ok(section)),
            None => Some(
                Err(OsuParserErrorView::InvalidSection(line.subrange(1, line.len() - 1))),
            ),
        }
    } else {
        None
    }
}

/// Reads a line as a section heading, if it is one.
pub fn read_section_heading(line: &str) -> (r: Option<Result<BeatmapFileSection, OsuParserError>>)
    ensures
        match r {
            Some(Ok(section)) => spec_section_heading(line@) == Some(
                Ok::<BeatmapFileSection, OsuParserErrorView>(section),
            ),
            Some(Err(e)) => spec_section_heading(line@) == Some(
                Err::<BeatmapFileSection, OsuParserErrorView>(e@),
            ),
            None => spec_section_heading(line@) is None,
        },
{
    let len = line.unicode_len();
    if len < 2 || line.get_char(0) != '[' || line.get_char(len - 1) != ']' {
        return None;
    }
    let section_string = line.substring_char(1, len - 1);
    match BeatmapFileSection::from_str(section_string) {
        Some(section) => Some(Ok(section)),
        None => Some(Err(OsuParserError::InvalidSection(section_string.to_owned()))),
    }
}

/// What a line of a file is for.
#[derive(Debug, Clone, Copy, PartialEq, Eq, Structural)]
pub enum LineRoute {
    /// The line is a heading: the section that it names begins.
    Heading(BeatmapFileSection),
    /// The line is data of the section that is being read.
    Data(BeatmapFileSection),
}

/// What a line is for while the section `current` is being read, if any
/// is: a heading opens its section, anything else is data of the current
/// section. A heading of an unknown name and data before the first heading
/// are errors that belong to no section.
pub open spec fn spec_route_line(current: Option<BeatmapFileSection>, line: Seq<char>) -> Result<
    LineRoute,
    (Option<BeatmapFileSection>, OsuParserErrorView),
> {
    match spec_section_heading(line) {
        Some(Ok(section)) => Ok(LineRoute::Heading(section)),
        Some(Err(e)) => Err((None, e)),
        None => match current {
            Some(section) => Ok(LineRoute::Data(section)),
            None => Err((None, OsuParserErrorView::DataOutsideSection)),
        },
    }
}

/// Says what a line is for while the section `current` is being read.
pub fn route_line(current: Option<BeatmapFileSection>, line: &str) -> (r: OsuParserResult<
    LineRoute,
>)
    ensures
        match r {
            Ok(route) => spec_route_line(current, line@) == Ok::<
                LineRoute,
                (Option<BeatmapFileSection>, OsuParserErrorView),
            >(route),
            Err((section, e)) => spec_route_line(current, line@) == Err::<
                LineRoute,
                (Option<BeatmapFileSection>, OsuParserErrorView),
            >((section, e@)),
        },
{
    match read_section_heading(line) {
        Some(Ok(section)) => Ok(LineRoute::Heading(section)),
        Some(Err(e)) => Err((None, e)),
        None => match current {
            Some(section) => Ok(LineRoute::Data(section)),
            None => Err((None, OsuParserError::DataOutsideSection)),
        },
    }
}

/// Whether the data of a section are read under the given options: the
/// general, metadata and difficulty sections always, the others as the
/// options say.
pub open spec fn spec_reads_section(options: BeatmapParseOptions, section: BeatmapFileSection)
    -> bool {
    match section {
        BeatmapFileSection::General => true,
        BeatmapFileSection::Editor => options.read_editor,
        BeatmapFileSection::Metadata => true,
        BeatmapFileSection::Difficulty => true,
        BeatmapFileSection::Events => options.read_events,
        BeatmapFileSection::TimingPoints => options.read_timing_points,
        BeatmapFileSection::Colours => options.read_colors,
        BeatmapFileSection::HitObjects => options.read_hit_objects,
    }
}

/// Whether the data of a section are read under the given options.
pub fn reads_section(options: &BeatmapParseOptions, section: BeatmapFileSection) -> (read: bool)
    ensures
        read == spec_reads_section(*options, section),
{
    match section {
        BeatmapFileSection::General => true,
        BeatmapFileSection::Editor => options.read_editor,
        BeatmapFileSection::Metadata => true,
        BeatmapFileSection::Difficulty => true,
        BeatmapFileSection::Events => options.read_events,
        BeatmapFileSection::TimingPoints => options.read_timing_points,
        BeatmapFileSection::Colours => options.read_colors,
        BeatmapFileSection::HitObjects => options.read_hit_objects,
    }
}

} // verus!
