//! The lines that are lists of fields: events, timing points and hit
//! objects.

use crate::beatmap::{Event, HitSample, SampleSet, SpecificHitObject};
use crate::parser::{bounded_value, OsuParserError, OsuParserErrorView};
use crate::text::{parse_u16, parse_u32, parse_u8, split_fields, split_spec, str_eq, views};
use std::ops::Range;
use vstd::prelude::*;
use vstd::string::StrSliceExecFns;

verus! {

/// An event as plain values.
pub enum EventView {
    Background { filename: Seq<char>, offset: (u16, u16) },
    Video { start_time: u32, filename: Seq<char>, offset: (u16, u16) },
    Break { start: u32, end: u32 },
}

impl View for Event {
    type V = EventView;

    open spec fn view(&self) -> EventView {
        match self {
            Event::Background { filename, offset } => EventView::Background {
                filename: filename@,
                offset: *offset,
            },
            Event::Video { start_time, filename, offset } => EventView::Video {
                start_time: *start_time,
                filename: filename@,
                offset: *offset,
            },
            Event::Break(range) => EventView::Break { start: range.start, end: range.end },
        }
    }
}

/// The number in field `i`, which must be at most `max` where the field is
/// there; zero where the line has no such field.
pub open spec fn optional_number(f: Seq<Seq<char>>, i: int, max: int) -> Result<
    int,
    OsuParserErrorView,
> {
    if i < f.len() {
        match bounded_value(f[i], max) {
            Some(v) => Ok(v),
            None => Err(OsuParserErrorView::IntegerParse),
        }
    } else {
        Ok(0)
    }
}

/// The background event that the fields of a line write: the file name is
/// the third field, the offsets are the fourth and fifth.
pub open spec fn spec_background(f: Seq<Seq<char>>) -> Result<EventView, OsuParserErrorView> {
    if f.len() < 3 {
        Err(OsuParserErrorView::BadFormat)
    } else {
        match optional_number(f, 3, u16::MAX as int) {
            Err(e) => Err(e),
            Ok(x) => match optional_number(f, 4, u16::MAX as int) {
                Err(e) => Err(e),
                Ok(y) => Ok(
                    EventView::Background { filename: f[2], offset: (x as u16, y as u16) },
                ),
            },
        }
    }
}

/// The video event that the fields of a line write: start time, file name
/// and the two offsets, all of which must be there.
pub open spec fn spec_video(f: Seq<Seq<char>>) -> Result<EventView, OsuParserErrorView> {
    if f.len() < 5 {
        Err(OsuParserErrorView::BadFormat)
    } else {
        match bounded_value(f[1], u32::MAX as int) {
            None => Err(OsuParserErrorView::IntegerParse),
            Some(start) => match bounded_value(f[3], u16::MAX as int) {
                None => Err(OsuParserErrorView::IntegerParse),
                Some(x) => match bounded_value(f[4], u16::MAX as int) {
                    None => Err(OsuParserErrorView::IntegerParse),
                    Some(y) => Ok(
                        EventView::Video {
                            start_time: start as u32,
                            filename: f[2],
                            offset: (x as u16, y as u16),
                        },
                    ),
                },
            },
        }
    }
}

/// The break that the fields of a line write: its start and its end. The
/// start is read before the end is looked for.
pub open spec fn spec_break(f: Seq<Seq<char>>) -> Result<EventView, OsuParserErrorView> {
    if f.len() < 2 {
        Err(OsuParserErrorView::BadFormat)
    } else {
        match bounded_value(f[1], u32::MAX as int) {
            None => Err(OsuParserErrorView::IntegerParse),
            Some(start) => {
                if f.len() < 3 {
                    Err(OsuParserErrorView::BadFormat)
                } else {
                    match bounded_value(f[2], u32::MAX as int) {
                        None => Err(OsuParserErrorView::IntegerParse),
                        Some(end) => Ok(
                            EventView::Break { start: start as u32, end: end as u32 },
                        ),
                    }
                }
            },
        }
    }
}

/// The event that a line of the events section writes. Its fields stand
/// between commas; the first says what kind of event it is. A storyboard
/// line is read as an empty break.
pub open spec fn spec_read_event_line(line: Seq<char>) -> Result<EventView, OsuParserErrorView> {
    let f = split_spec(line, ',');
    if f[0] == "0"@ {
        spec_background(f)
    } else if f[0] == "1"@ || f[0] == "Video"@ {
        spec_video(f)
    } else if f[0] == "2"@ || f[0] == "Break"@ {
        spec_break(f)
    } else if f[0] == "3"@ {
        Ok(EventView::Break { start: 0, end: 0 })
    } else {
        Err(OsuParserErrorView::BadFormat)
    }
}

/// Reads the 16-bit number in field `i`, or zero where there is no such
/// field.
fn read_optional_u16(fields: &Vec<&str>, i: usize) -> (r: Result<u16, OsuParserError>)
    ensures
        match r {
            Ok(v) => optional_number(views(fields@), i as int, u16::MAX as int) == Ok::<
                int,
                OsuParserErrorView,
            >(v as int),
            Err(e) => optional_number(views(fields@), i as int, u16::MAX as int) == Err::<
                int,
                OsuParserErrorView,
            >(e@),
        },
{
    if i < fields.len() {
        match parse_u16(fields[i]) {
            Ok(v) => Ok(v),
            Err(e) => Err(OsuParserError::IntegerParse(e)),
        }
    } else {
        Ok(0)
    }
}

/// Reads a background event from the fields of a line.
fn read_background(fields: &Vec<&str>) -> (r: Result<Event, OsuParserError>)
    ensures
        match r {
            Ok(event) => spec_background(views(fields@)) == Ok::<EventView, OsuParserErrorView>(
                event@,
            ),
            Err(e) => spec_background(views(fields@)) == Err::<EventView, OsuParserErrorView>(e@),
        },
{
    if fields.len() < 3 {
        return Err(OsuParserError::BadFormat);
    }
    let filename = fields[2];
    let x_offset = match read_optional_u16(fields, 3) {
        Ok(v) => v,
        Err(e) => {
            return Err(e);
        },
    };
    let y_offset = match read_optional_u16(fields, 4) {
        Ok(v) => v,
        Err(e) => {
            return Err(e);
        },
    };
    Ok(Event::Background { filename: filename.to_owned(), offset: (x_offset, y_offset) })
}

/// Reads a video event from the fields of a line.
fn read_video(fields: &Vec<&str>) -> (r: Result<Event, OsuParserError>)
    ensures
        match r {
            Ok(event) => spec_video(views(fields@)) == Ok::<EventView, OsuParserErrorView>(event@),
            Err(e) => spec_video(views(fields@)) == Err::<EventView, OsuParserErrorView>(e@),
        },
{
    if fields.len() < 5 {
        return Err(OsuParserError::BadFormat);
    }
    let filename = fields[2];
    let start_time = match parse_u32(fields[1]) {
        Ok(v) => v,
        Err(e) => {
            return Err(OsuParserError::IntegerParse(e));
        },
    };
    let x_offset = match parse_u16(fields[3]) {
        Ok(v) => v,
        Err(e) => {
            return Err(OsuParserError::IntegerParse(e));
        },
    };
    let y_offset = match parse_u16(fields[4]) {
        Ok(v) => v,
        Err(e) => {
            return Err(OsuParserError::IntegerParse(e));
        },
    };
    Ok(Event::Video { start_time, filename: filename.to_owned(), offset: (x_offset, y_offset) })
}

/// Reads a break from the fields of a line.
fn read_break(fields: &Vec<&str>) -> (r: Result<Event, OsuParserError>)
    ensures
        match r {
            Ok(event) => spec_break(views(fields@)) == Ok::<EventView, OsuParserErrorView>(event@),
            Err(e) => spec_break(views(fields@)) == Err::<EventView, OsuParserErrorView>(e@),
        },
{
    if fields.len() < 2 {
        return Err(OsuParserError::BadFormat);
    }
    let start_time = match parse_u32(fields[1]) {
        Ok(v) => v,
        Err(e) => {
            return Err(OsuParserError::IntegerParse(e));
        },
    };
    if fields.len() < 3 {
        return Err(OsuParserError::BadFormat);
    }
    let end_time = match parse_u32(fields[2]) {
        Ok(v) => v,
        Err(e) => {
            return Err(OsuParserError::IntegerParse(e));
        },
    };
    Ok(Event::Break(Range { start: start_time, end: end_time }))
}

/// Reads a line of the events section.
pub fn read_event_line(line: &str) -> (r: Result<Event, OsuParserError>)
    ensures
        match r {
            Ok(event) => spec_read_event_line(line@) == Ok::<EventView, OsuParserErrorView>(
                event@,
            ),
            Err(e) => spec_read_event_line(line@) == Err::<EventView, OsuParserErrorView>(e@),
        },
{
    let fields = split_fields(line, ',');
    let event_type = fields[0];
    if str_eq(event_type, "0") {
        read_background(&fields)
    } else if str_eq(event_type, "1") || str_eq(event_type, "Video") {
        read_video(&fields)
    } else if str_eq(event_type, "2") || str_eq(event_type, "Break") {
        read_break(&fields)
    } else if str_eq(event_type, "3") {
        Ok(Event::Break(Range { start: 0, end: 0 }))
    } else {
        Err(OsuParserError::BadFormat)
    }
}

/// A hit sample as plain values.
pub struct HitSampleView {
    pub normal_set: u8,
    pub addition_set: u8,
    pub index: u32,
    pub volume: u8,
    pub filename: Option<Seq<char>>,
}

impl View for HitSample {
    type V = HitSampleView;

    open spec fn view(&self) -> HitSampleView {
        HitSampleView {
            normal_set: self.normal_set,
            addition_set: self.addition_set,
            index: self.index,
            volume: self.volume,
            filename: match self.filename {
                Some(name) => Some(name@),
                None => None,
            },
        }
    }
}

/// The number in field `i`, which must be there and be at most `max`. A
/// field that is not there is a bad format; one that is no such number is
/// a failed parse.
pub open spec fn required_number(f: Seq<Seq<char>>, i: int, max: int) -> Result<
    int,
    OsuParserErrorView,
> {
    if i >= f.len() {
        Err(OsuParserErrorView::BadFormat)
    } else {
        match bounded_value(f[i], max) {
            Some(v) => Ok(v),
            None => Err(OsuParserErrorView::IntegerParse),
        }
    }
}

/// The hit sample that a text writes: four numbers and a file name between
/// colons. The numbers are read in order, each before the next is looked
/// for; the file name may be left out and is then empty.
pub open spec fn spec_parse_hit_sample(part: Seq<char>) -> Result<
    HitSampleView,
    OsuParserErrorView,
> {
    let f = split_spec(part, ':');
    match required_number(f, 0, u8::MAX as int) {
        Err(e) => Err(e),
        Ok(normal_set) => match required_number(f, 1, u8::MAX as int) {
            Err(e) => Err(e),
            Ok(addition_set) => match required_number(f, 2, u32::MAX as int) {
                Err(e) => Err(e),
                Ok(index) => match required_number(f, 3, u8::MAX as int) {
                    Err(e) => Err(e),
                    Ok(volume) => Ok(
                        HitSampleView {
                            normal_set: normal_set as u8,
                            addition_set: addition_set as u8,
                            index: index as u32,
                            volume: volume as u8,
                            filename: Some(
                                if f.len() > 4 {
                                    f[4]
                                } else {
                                    Seq::empty()
                                },
                            ),
                        },
                    ),
                },
            },
        },
    }
}

/// Reads the 8-bit number in field `i`.
fn read_required_u8(fields: &Vec<&str>, i: usize) -> (r: Result<u8, OsuParserError>)
    ensures
        match r {
            Ok(v) => required_number(views(fields@), i as int, u8::MAX as int) == Ok::<
                int,
                OsuParserErrorView,
            >(v as int),
            Err(e) => required_number(views(fields@), i as int, u8::MAX as int) == Err::<
                int,
                OsuParserErrorView,
            >(e@),
        },
{
    if i >= fields.len() {
        return Err(OsuParserError::BadFormat);
    }
    match parse_u8(fields[i]) {
        Ok(v) => Ok(v),
        Err(e) => Err(OsuParserError::IntegerParse(e)),
    }
}

/// Reads the 32-bit number in field `i`.
fn read_required_u32(fields: &Vec<&str>, i: usize) -> (r: Result<u32, OsuParserError>)
    ensures
        match r {
            Ok(v) => required_number(views(fields@), i as int, u32::MAX as int) == Ok::<
                int,
                OsuParserErrorView,
            >(v as int),
            Err(e) => required_number(views(fields@), i as int, u32::MAX as int) == Err::<
                int,
                OsuParserErrorView,
            >(e@),
        },
{
    if i >= fields.len() {
        return Err(OsuParserError::BadFormat);
    }
    match parse_u32(fields[i]) {
        Ok(v) => Ok(v),
        Err(e) => Err(OsuParserError::IntegerParse(e)),
    }
}

/// Reads a hit sample.
pub fn parse_hit_sample(part: &str) -> (r: Result<HitSample, OsuParserError>)
    ensures
        match r {
            Ok(sample) => spec_parse_hit_sample(part@) == Ok::<HitSampleView, OsuParserErrorView>(
                sample@,
            ),
            Err(e) => spec_parse_hit_sample(part@) == Err::<HitSampleView, OsuParserErrorView>(e@),
        },
{
    let fields = split_fields(part, ':');
    let normal_set = match read_required_u8(&fields, 0) {
        Ok(v) => v,
        Err(e) => {
            return Err(e);
        },
    };
    let addition_set = match read_required_u8(&fields, 1) {
        Ok(v) => v,
        Err(e) => {
            return Err(e);
        },
    };
    let index = match read_required_u32(&fields, 2) {
        Ok(v) => v,
        Err(e) => {
            return Err(e);
        },
    };
    let volume = match read_required_u8(&fields, 3) {
        Ok(v) => v,
        Err(e) => {
            return Err(e);
        },
    };
    let filename = if fields.len() > 4 {
        fields[4].to_owned()
    } else {
        String::new()
    };
    Ok(HitSample { normal_set, addition_set, index, volume, filename: Some(filename) })
}

/// The whole-number settings of a timing point: what stands in its line
/// after the time and the beat length.
#[derive(Debug, Clone, Copy, PartialEq, Eq)]
pub struct TimingPointSettings {
    pub meter: u8,
    pub sample_set: Option<SampleSet>,
    pub sample_index: u8,
    pub volume: u8,
    pub uninherited: bool,
    pub effects: u8,
}

/// The sample set that a number stands for: none for zero.
pub open spec fn spec_sample_set(code: int) -> Result<Option<SampleSet>, OsuParserErrorView> {
    if code == 0 {
        Ok(None)
    } else if code == 1 {
        Ok(Some(SampleSet::Normal))
    } else if code == 2 {
        Ok(Some(SampleSet::Soft))
    } else if code == 3 {
        Ok(Some(SampleSet::Drum))
    } else {
        Err(OsuParserErrorView::BadFormat)
    }
}

/// The settings that the fields of a timing point line write. The first
/// two fields, time and beat length, are not looked at. Each of the six
/// settings after them is zero where its field is not there. The numbers
/// are read in order; that the sample set is a known one is asked last.
pub open spec fn spec_timing_point_settings(f: Seq<Seq<char>>) -> Result<
    TimingPointSettings,
    OsuParserErrorView,
> {
    match optional_number(f, 2, u8::MAX as int) {
        Err(e) => Err(e),
        Ok(meter) => match optional_number(f, 3, u32::MAX as int) {
            Err(e) => Err(e),
            Ok(set_code) => match optional_number(f, 4, u8::MAX as int) {
                Err(e) => Err(e),
                Ok(sample_index) => match optional_number(f, 5, u8::MAX as int) {
                    Err(e) => Err(e),
                    Ok(volume) => match optional_number(f, 6, u32::MAX as int) {
                        Err(e) => Err(e),
                        Ok(uninherited) => match optional_number(f, 7, u8::MAX as int) {
                            Err(e) => Err(e),
                            Ok(effects) => match spec_sample_set(set_code) {
                                Err(e) => Err(e),
                                Ok(sample_set) => Ok(
                                    TimingPointSettings {
                                        meter: meter as u8,
                                        sample_set,
                                        sample_index: sample_index as u8,
                                        volume: volume as u8,
                                        uninherited: uninherited != 0,
                                        effects: effects as u8,
                                    },
                                ),
                            },
                        },
                    },
                },
            },
        },
    }
}

/// Reads the 8-bit number in field `i`, or zero where there is no such
/// field.
fn read_optional_u8(fields: &Vec<&str>, i: usize) -> (r: Result<u8, OsuParserError>)
    ensures
        match r {
            Ok(v) => optional_number(views(fields@), i as int, u8::MAX as int) == Ok::<
                int,
                OsuParserErrorView,
            >(v as int),
            Err(e) => optional_number(views(fields@), i as int, u8::MAX as int) == Err::<
                int,
                OsuParserErrorView,
            >(e@),
        },
{
    if i < fields.len() {
        match parse_u8(fields[i]) {
            Ok(v) => Ok(v),
            Err(e) => Err(OsuParserError::IntegerParse(e)),
        }
    } else {
        Ok(0)
    }
}

/// Reads the 32-bit number in field `i`, or zero where there is no such
/// field.
fn read_optional_u32(fields: &Vec<&str>, i: usize) -> (r: Result<u32, OsuParserError>)
    ensures
        match r {
            Ok(v) => optional_number(views(fields@), i as int, u32::MAX as int) == Ok::<
                int,
                OsuParserErrorView,
            >(v as int),
            Err(e) => optional_number(views(fields@), i as int, u32::MAX as int) == Err::<
                int,
                OsuParserErrorView,
            >(e@),
        },
{
    if i < fields.len() {
        match parse_u32(fields[i]) {
            Ok(v) => Ok(v),
            Err(e) => Err(OsuParserError::IntegerParse(e)),
        }
    } else {
        Ok(0)
    }
}

/// Reads the whole-number settings of a timing point from the fields of
/// its line.
pub fn read_timing_point_settings(fields: &Vec<&str>) -> (r: Result<
    TimingPointSettings,
    OsuParserError,
>)
    ensures
        match r {
            Ok(settings) => spec_timing_point_settings(views(fields@)) == Ok::<
                TimingPointSettings,
                OsuParserErrorView,
            >(settings),
            Err(e) => spec_timing_point_settings(views(fields@)) == Err::<
                TimingPointSettings,
                OsuParserErrorView,
            >(e@),
        },
{
    let meter = match read_optional_u8(fields, 2) {
        Ok(v) => v,
        Err(e) => {
            return Err(e);
        },
    };
    let set_code = match read_optional_u32(fields, 3) {
        Ok(v) => v,
        Err(e) => {
            return Err(e);
        },
    };
    let sample_index = match read_optional_u8(fields, 4) {
        Ok(v) => v,
        Err(e) => {
            return Err(e);
        },
    };
    let volume = match read_optional_u8(fields, 5) {
        Ok(v) => v,
        Err(e) => {
            return Err(e);
        },
    };
    let uninherited = match read_optional_u32(fields, 6) {
        Ok(v) => v,
        Err(e) => {
            return Err(e);
        },
    };
    let effects = match read_optional_u8(fields, 7) {
        Ok(v) => v,
        Err(e) => {
            return Err(e);
        },
    };
    let sample_set = match set_code {
        0 => None,
        1 => Some(SampleSet::Normal),
        2 => Some(SampleSet::Soft),
        3 => Some(SampleSet::Drum),
        _ => {
            return Err(OsuParserError::BadFormat);
        },
    };
    Ok(
        TimingPointSettings {
            meter,
            sample_set,
            sample_index,
            volume,
            uninherited: uninherited != 0,
            effects,
        },
    )
}

/// The kind of hit object that a type number stands for: the lowest of
/// the bits 0, 1, 3 and 7 that is set says whether it is a circle, a
/// slider, a spinner or a hold; a number with none of them set stands for
/// nothing.
pub open spec fn spec_hit_object_kind(ty: u32) -> Option<SpecificHitObject> {
    if ty & 1 != 0 {
        Some(SpecificHitObject::Circle)
    } else if ty & 2 != 0 {
        Some(SpecificHitObject::Slider {  })
    } else if ty & 8 != 0 {
        Some(SpecificHitObject::Spinner {  })
    } else if ty & 128 != 0 {
        Some(SpecificHitObject::ManiaHold {  })
    } else {
        None
    }
}

/// The kind of hit object that the type number `ty` stands for.
pub fn hit_object_kind(ty: u32) -> (kind: Option<SpecificHitObject>)
    ensures
        kind == spec_hit_object_kind(ty),
{
    if ty & 1 != 0 {
        Some(SpecificHitObject::Circle)
    } else if ty & 2 != 0 {
        Some(SpecificHitObject::Slider {  })
    } else if ty & 8 != 0 {
        Some(SpecificHitObject::Spinner {  })
    } else if ty & 128 != 0 {
        Some(SpecificHitObject::ManiaHold {  })
    } else {
        None
    }
}

/// The fields among `f` that hold anything, in their order.
pub open spec fn without_empty(f: Seq<Seq<char>>) -> Seq<Seq<char>>
    decreases f.len(),
{
    if f.len() == 0 {
        Seq::empty()
    } else if f.last().len() == 0 {
        without_empty(f.drop_last())
    } else {
        without_empty(f.drop_last()).push(f.last())
    }
}

/// The fields of a hit-object line: what stands between its commas, empty
/// fields left out.
pub fn hit_object_fields<'a>(line: &'a str) -> (fields: Vec<&'a str>)
    ensures
        views(fields@) == without_empty(split_spec(line@, ',')),
{
    let pieces = split_fields(line, ',');
    let mut fields: Vec<&'a str> = Vec::new();
    let mut i: usize = 0;
    while i < pieces.len()
        invariant
            i <= pieces.len(),
            views(fields@) == without_empty(views(pieces@).take(i as int)),
        decreases pieces.len() - i,
    {
        let ghost before = views(fields@);
        let piece = pieces[i];
        proof {
            assert(views(pieces@).take(i + 1).drop_last() =~= views(pieces@).take(i as int));
            assert(views(pieces@).take(i + 1).last() == piece@);
        }
        if piece.unicode_len() != 0 {
            fields.push(piece);
            assert(views(fields@) =~= before.push(piece@));
        }
        i = i + 1;
    }
    proof {
        assert(views(pieces@).take(i as int) =~= views(pieces@));
    }
    fields
}

/// The position that the fields of a hit-object line give: two 16-bit
/// numbers in its first two fields.
pub open spec fn spec_hit_object_position(f: Seq<Seq<char>>) -> Result<
    (u16, u16),
    OsuParserErrorView,
> {
    match required_number(f, 0, u16::MAX as int) {
        Err(e) => Err(e),
        Ok(x) => match required_number(f, 1, u16::MAX as int) {
            Err(e) => Err(e),
            Ok(y) => Ok((x as u16, y as u16)),
        },
    }
}

/// Reads the 16-bit number in field `i`.
fn read_required_u16(fields: &Vec<&str>, i: usize) -> (r: Result<u16, OsuParserError>)
    ensures
        match r {
            Ok(v) => required_number(views(fields@), i as int, u16::MAX as int) == Ok::<
                int,
                OsuParserErrorView,
            >(v as int),
            Err(e) => required_number(views(fields@), i as int, u16::MAX as int) == Err::<
                int,
                OsuParserErrorView,
            >(e@),
        },
{
    if i >= fields.len() {
        return Err(OsuParserError::BadFormat);
    }
    match parse_u16(fields[i]) {
        Ok(v) => Ok(v),
        Err(e) => Err(OsuParserError::IntegerParse(e)),
    }
}

/// Reads the position of a hit object from the fields of its line.
pub fn read_hit_object_position(fields: &Vec<&str>) -> (r: Result<(u16, u16), OsuParserError>)
    ensures
        match r {
            Ok(position) => spec_hit_object_position(views(fields@)) == Ok::<
                (u16, u16),
                OsuParserErrorView,
            >(position),
            Err(e) => spec_hit_object_position(views(fields@)) == Err::<
                (u16, u16),
                OsuParserErrorView,
            >(e@),
        },
{
    let x = match read_required_u16(fields, 0) {
        Ok(v) => v,
        Err(e) => {
            return Err(e);
        },
    };
    let y = match read_required_u16(fields, 1) {
        Ok(v) => v,
        Err(e) => {
            return Err(e);
        },
    };
    Ok((x, y))
}

/// The whole numbers of a hit object: what stands in its line after the
/// position and the time, as far as it is a whole number.
#[derive(Debug, PartialEq)]
pub struct HitObjectNumbers {
    /// The type number.
    pub ty: u32,
    /// The hit sound.
    pub hit_sound: u8,
    /// The kind that the type number stands for.
    pub specific: SpecificHitObject,
    /// How often a slider is run through.
    pub slides: Option<u8>,
    /// When a spinner or a hold ends.
    pub end_time: Option<u32>,
    /// The hit sample that a hold carries with its end time.
    pub hit_sample: Option<HitSample>,
    /// The field in which the hit sample of the object stands, if the line
    /// has that many fields.
    pub sample_at: usize,
}

/// The whole numbers of a hit object as plain values.
pub struct HitObjectNumbersView {
    pub ty: u32,
    pub hit_sound: u8,
    pub specific: SpecificHitObject,
    pub slides: Option<u8>,
    pub end_time: Option<u32>,
    pub hit_sample: Option<HitSampleView>,
    pub sample_at: usize,
}

impl View for HitObjectNumbers {
    type V = HitObjectNumbersView;

    open spec fn view(&self) -> HitObjectNumbersView {
        HitObjectNumbersView {
            ty: self.ty,
            hit_sound: self.hit_sound,
            specific: self.specific,
            slides: self.slides,
            end_time: self.end_time,
            hit_sample: match self.hit_sample {
                Some(sample) => Some(sample@),
                None => None,
            },
            sample_at: self.sample_at,
        }
    }
}

/// What the field of a hold gives: its end time and its hit sample, with a
/// colon between them.
pub open spec fn spec_hold_field(field: Seq<char>) -> Result<
    (u32, HitSampleView),
    OsuParserErrorView,
> {
    let parts = split_spec(field, ':');
    match required_number(parts, 0, u32::MAX as int) {
        Err(e) => Err(e),
        Ok(end_time) => if parts.len() < 2 {
            Err(OsuParserErrorView::BadFormat)
        } else {
            match spec_parse_hit_sample(parts[1]) {
                Err(e) => Err(e),
                Ok(sample) => Ok((end_time as u32, sample)),
            }
        },
    }
}

/// Reads the field of a hold.
fn read_hold_field(field: &str) -> (r: Result<(u32, HitSample), OsuParserError>)
    ensures
        match r {
            Ok((end_time, sample)) => spec_hold_field(field@) == Ok::<
                (u32, HitSampleView),
                OsuParserErrorView,
            >((end_time, sample@)),
            Err(e) => spec_hold_field(field@) == Err::<(u32, HitSampleView), OsuParserErrorView>(
                e@,
            ),
        },
{
    let parts = split_fields(field, ':');
    let end_time = match read_required_u32(&parts, 0) {
        Ok(v) => v,
        Err(e) => {
            return Err(e);
        },
    };
    if parts.len() < 2 {
        return Err(OsuParserError::BadFormat);
    }
    assert(views(parts@)[1] == parts@[1]@);
    match parse_hit_sample(parts[1]) {
        Ok(sample) => Ok((end_time, sample)),
        Err(e) => Err(e),
    }
}

/// The whole numbers that the fields of a hit-object line give. The type
/// number stands in the fourth field and the hit sound in the fifth; the
/// type number must stand for a kind. What follows depends on the kind: of
/// a slider the curve, which must be there, and the number of slides; of a
/// spinner the end time; of a hold the end time and a hit sample in one
/// field. The fields are read in order, each before the next is looked
/// for.
pub open spec fn spec_hit_object_numbers(f: Seq<Seq<char>>) -> Result<
    HitObjectNumbersView,
    OsuParserErrorView,
> {
    match required_number(f, 3, u32::MAX as int) {
        Err(e) => Err(e),
        Ok(ty) => match required_number(f, 4, u8::MAX as int) {
            Err(e) => Err(e),
            Ok(hit_sound) => {
                let plain = HitObjectNumbersView {
                    ty: ty as u32,
                    hit_sound: hit_sound as u8,
                    specific: SpecificHitObject::Circle,
                    slides: None,
                    end_time: None,
                    hit_sample: None,
                    sample_at: 5,
                };
                match spec_hit_object_kind(ty as u32) {
                    None => Err(OsuParserErrorView::BadFormat),
                    Some(SpecificHitObject::Circle) => Ok(plain),
                    Some(SpecificHitObject::Slider {  }) => if f.len() < 6 {
                        Err(OsuParserErrorView::BadFormat)
                    } else {
                        match required_number(f, 6, u8::MAX as int) {
                            Err(e) => Err(e),
                            Ok(slides) => Ok(
                                HitObjectNumbersView {
                                    specific: SpecificHitObject::Slider {  },
                                    slides: Some(slides as u8),
                                    sample_at: 10,
                                    ..plain
                                },
                            ),
                        }
                    },
                    Some(SpecificHitObject::Spinner {  }) => match required_number(
                        f,
                        5,
                        u32::MAX as int,
                    ) {
                        Err(e) => Err(e),
                        Ok(end_time) => Ok(
                            HitObjectNumbersView {
                                specific: SpecificHitObject::Spinner {  },
                                end_time: Some(end_time as u32),
                                sample_at: 6,
                                ..plain
                            },
                        ),
                    },
                    Some(SpecificHitObject::ManiaHold {  }) => if f.len() < 6 {
                        Err(OsuParserErrorView::BadFormat)
                    } else {
                        match spec_hold_field(f[5]) {
                            Err(e) => Err(e),
                            Ok((end_time, sample)) => Ok(
                                HitObjectNumbersView {
                                    specific: SpecificHitObject::ManiaHold {  },
                                    end_time: Some(end_time),
                                    hit_sample: Some(sample),
                                    sample_at: 6,
                                    ..plain
                                },
                            ),
                        }
                    },
                }
            },
        },
    }
}

/// Reads the whole numbers of a hit object from the fields of its line.
pub fn read_hit_object_numbers(fields: &Vec<&str>) -> (r: Result<
    HitObjectNumbers,
    OsuParserError,
>)
    ensures
        match r {
            Ok(numbers) => spec_hit_object_numbers(views(fields@)) == Ok::<
                HitObjectNumbersView,
                OsuParserErrorView,
            >(numbers@),
            Err(e) => spec_hit_object_numbers(views(fields@)) == Err::<
                HitObjectNumbersView,
                OsuParserErrorView,
            >(e@),
        },
{
    let ty = match read_required_u32(fields, 3) {
        Ok(v) => v,
        Err(e) => {
            return Err(e);
        },
    };
    let hit_sound = match read_required_u8(fields, 4) {
        Ok(v) => v,
        Err(e) => {
            return Err(e);
        },
    };
    let specific = match hit_object_kind(ty) {
        Some(kind) => kind,
        None => {
            return Err(OsuParserError::BadFormat);
        },
    };
    let mut numbers = HitObjectNumbers {
        ty,
        hit_sound,
        specific,
        slides: None,
        end_time: None,
        hit_sample: None,
        sample_at: 5,
    };
    match specific {
        SpecificHitObject::Circle => {},
        SpecificHitObject::Slider {  } => {
            if fields.len() < 6 {
                return Err(OsuParserError::BadFormat);
            }
            let slides = match read_required_u8(fields, 6) {
                Ok(v) => v,
                Err(e) => {
                    return Err(e);
                },
            };
            numbers.slides = Some(slides);
            numbers.sample_at = 10;
        },
        SpecificHitObject::Spinner {  } => {
            let end_time = match read_required_u32(fields, 5) {
                Ok(v) => v,
                Err(e) => {
                    return Err(e);
                },
            };
            numbers.end_time = Some(end_time);
            numbers.sample_at = 6;
        },
        SpecificHitObject::ManiaHold {  } => {
            if fields.len() < 6 {
                return Err(OsuParserError::BadFormat);
            }
            assert(views(fields@)[5] == fields@[5]@);
            let (end_time, sample) = match read_hold_field(fields[5]) {
                Ok(v) => v,
                Err(e) => {
                    return Err(e);
                },
            };
            numbers.end_time = Some(end_time);
            numbers.hit_sample = Some(sample);
            numbers.sample_at = 6;
        },
    }
    Ok(numbers)
}

/// The hit sample of an object that names none.
pub open spec fn default_hit_sample() -> HitSampleView {
    HitSampleView { normal_set: 0, addition_set: 0, index: 0, volume: 100, filename: None }
}

/// The hit sample of a hit object: what the field `at` gives where the
/// line has that field; else the sample that was read before, and the
/// default where none was.
pub open spec fn spec_closing_hit_sample(
    f: Seq<Seq<char>>,
    at: int,
    earlier: Option<HitSampleView>,
) -> Result<HitSampleView, OsuParserErrorView> {
    if at < f.len() {
        spec_parse_hit_sample(f[at])
    } else {
        match earlier {
            Some(sample) => Ok(sample),
            None => Ok(default_hit_sample()),
        }
    }
}

/// Reads the hit sample of a hit object from the field `at` of its line.
pub fn read_closing_hit_sample(fields: &Vec<&str>, at: usize, earlier: Option<HitSample>) -> (r:
    Result<HitSample, OsuParserError>)
    ensures
        match r {
            Ok(sample) => spec_closing_hit_sample(
                views(fields@),
                at as int,
                match earlier {
                    Some(s) => Some(s@),
                    None => None,
                },
            ) == Ok::<HitSampleView, OsuParserErrorView>(sample@),
            Err(e) => spec_closing_hit_sample(
                views(fields@),
                at as int,
                match earlier {
                    Some(s) => Some(s@),
                    None => None,
                },
            ) == Err::<HitSampleView, OsuParserErrorView>(e@),
        },
{
    if at < fields.len() {
        assert(views(fields@)[at as int] == fields@[at as int]@);
        parse_hit_sample(fields[at])
    } else {
        match earlier {
            Some(sample) => Ok(sample),
            None => Ok(
                HitSample { normal_set: 0, addition_set: 0, index: 0, volume: 100, filename: None },
            ),
        }
    }
}

} // verus!
