use osz2::beatmap::{BeatmapFileSection, Event, Mode, SampleSet};
use osz2::list_lines::read_event_line;
use osz2::parser::{
    keeps_line, parse_version, read_section_heading, reads_section, route_line, split_key_value,
    BeatmapParseOptions, LineRoute, OsuParserError,
};
use osz2::section_lines::{finalize_metadata, read_metadata_line, InParseMetadata};
use osz2::text::{
    is_whitespace_char, split_fields, split_once, starts_with, str_eq, trim, trim_start_matches,
};

#[test]
fn section_names_are_matched_exactly() {
    assert_eq!(BeatmapFileSection::from_str("General"), Some(BeatmapFileSection::General));
    assert_eq!(BeatmapFileSection::from_str("Editor"), Some(BeatmapFileSection::Editor));
    assert_eq!(BeatmapFileSection::from_str("Metadata"), Some(BeatmapFileSection::Metadata));
    assert_eq!(BeatmapFileSection::from_str("Difficulty"), Some(BeatmapFileSection::Difficulty));
    assert_eq!(BeatmapFileSection::from_str("Events"), Some(BeatmapFileSection::Events));
    assert_eq!(
        BeatmapFileSection::from_str("TimingPoints"),
        Some(BeatmapFileSection::TimingPoints)
    );
    assert_eq!(BeatmapFileSection::from_str("Colours"), Some(BeatmapFileSection::Colours));
    assert_eq!(BeatmapFileSection::from_str("HitObjects"), Some(BeatmapFileSection::HitObjects));
    assert_eq!(BeatmapFileSection::from_str("general"), None);
    assert_eq!(BeatmapFileSection::from_str("General "), None);
    assert_eq!(BeatmapFileSection::from_str("Colors"), None);
    assert_eq!(BeatmapFileSection::from_str(""), None);
}

#[test]
fn sample_set_names_are_matched_exactly() {
    assert_eq!(SampleSet::from_str("Normal"), Some(SampleSet::Normal));
    assert_eq!(SampleSet::from_str("Soft"), Some(SampleSet::Soft));
    assert_eq!(SampleSet::from_str("Drum"), Some(SampleSet::Drum));
    assert_eq!(SampleSet::from_str("soft"), None);
    assert_eq!(SampleSet::from_str("None"), None);
    assert_ne!(Mode::Osu, Mode::Mania);
}

#[test]
fn str_eq_compares_characters() {
    assert!(str_eq("", ""));
    assert!(str_eq("えみぃ", "えみぃ"));
    assert!(!str_eq("a", "b"));
    assert!(!str_eq("ab", "a"));
    assert!(!str_eq("é", "e"));
}

#[test]
fn split_key_value_splits_at_the_first_colon() {
    assert_eq!(split_key_value("Title:Tear Rain"), Some(("Title", "Tear Rain")));
    assert_eq!(split_key_value("  Title \t:  Tear Rain  \r"), Some(("Title", "Tear Rain")));
    assert_eq!(split_key_value("AudioFilename: a:b.mp3"), Some(("AudioFilename", "a:b.mp3")));
    assert_eq!(split_key_value(":"), Some(("", "")));
    assert_eq!(split_key_value("Tags:"), Some(("Tags", "")));
    assert_eq!(split_key_value("Key:\u{3000}wide\u{a0}"), Some(("Key", "wide")));
    assert_eq!(split_key_value("no colon here"), None);
    assert_eq!(split_key_value(""), None);
}

#[test]
fn split_fields_gives_one_piece_more_than_separators() {
    assert_eq!(split_fields("a,b,c", ','), vec!["a", "b", "c"]);
    assert_eq!(split_fields("", ','), vec![""]);
    assert_eq!(split_fields(",", ','), vec!["", ""]);
    assert_eq!(split_fields("a,,b,", ','), vec!["a", "", "b", ""]);
    assert_eq!(split_fields("no separator", ','), vec!["no separator"]);
    assert_eq!(split_fields("1|2", '|'), vec!["1", "2"]);
}

#[test]
fn starts_with_and_trim_start_matches() {
    assert!(starts_with("//comment", "//"));
    assert!(!starts_with("/ /comment", "//"));
    assert!(starts_with("abc", ""));
    assert!(!starts_with("a", "ab"));
    assert_eq!(trim_start_matches("osu file format v14", "osu file format v"), "14");
    assert_eq!(trim_start_matches("ababab1", "ab"), "1");
    assert_eq!(trim_start_matches("abc", ""), "abc");
    assert_eq!(trim_start_matches("abc", "x"), "abc");
    assert_eq!(trim_start_matches("ééx", "é"), "x");
}

#[test]
fn default_options_read_everything_but_the_colours() {
    let options = BeatmapParseOptions::default();
    assert!(options.read_editor);
    assert!(options.read_events);
    assert!(!options.read_colors);
    assert!(options.read_timing_points);
    assert!(options.read_hit_objects);
}

#[test]
fn metadata_lines_fill_their_fields() {
    let mut metadata = InParseMetadata::default();
    assert!(metadata.title.is_none());
    assert!(metadata.beatmap_id.is_none());
    for line in [
        "Title:Tear Rain",
        "TitleUnicode:Tear Rain",
        "Artist:cYsmix feat. Emmy",
        "ArtistUnicode:cYsmix feat. えみぃ",
        "Creator:jonathanlfj",
        "Version:Insane",
        "Source:Touhou",
        "Tags: Amateras Records  ",
        "BeatmapID:351189",
        "BeatmapSetID:140662",
    ] {
        assert!(read_metadata_line(&mut metadata, line).is_ok());
    }
    assert_eq!(metadata.title, Some("Tear Rain"));
    assert_eq!(metadata.title_unicode, Some("Tear Rain"));
    assert_eq!(metadata.artist, Some("cYsmix feat. Emmy"));
    assert_eq!(metadata.artist_unicode, Some("cYsmix feat. えみぃ"));
    assert_eq!(metadata.creator, Some("jonathanlfj"));
    assert_eq!(metadata.version, Some("Insane"));
    assert_eq!(metadata.source, Some("Touhou"));
    assert_eq!(metadata.tags, Some("Amateras Records"));
    assert_eq!(metadata.beatmap_id, Some(351189));
    assert_eq!(metadata.beatmap_set_id, Some(140662));
    assert!(read_metadata_line(&mut metadata, "BeatmapID:-1").is_ok());
    assert_eq!(metadata.beatmap_id, Some(-1));
    assert!(read_metadata_line(&mut metadata, "BeatmapID:+7").is_ok());
    assert_eq!(metadata.beatmap_id, Some(7));
}

#[test]
fn metadata_lines_that_are_refused() {
    let mut metadata = InParseMetadata::default();
    assert!(matches!(
        read_metadata_line(&mut metadata, "Title Tear Rain"),
        Err(OsuParserError::BadFormat)
    ));
    match read_metadata_line(&mut metadata, "Genre: Pop") {
        Err(OsuParserError::InvalidKey(key)) => assert_eq!(key, "Genre"),
        other => panic!("{:?}", other),
    }
    assert!(matches!(
        read_metadata_line(&mut metadata, "title:lower case"),
        Err(OsuParserError::InvalidKey(_))
    ));
    for line in [
        "BeatmapID:abc",
        "BeatmapID:",
        "BeatmapID:12 3",
        "BeatmapID:2147483648",
        "BeatmapID:-2147483649",
        "BeatmapSetID:1.5",
        "BeatmapSetID:-",
    ] {
        assert!(
            matches!(read_metadata_line(&mut metadata, line), Err(OsuParserError::IntegerParse(_))),
            "{}",
            line
        );
    }
    assert!(read_metadata_line(&mut metadata, "BeatmapID:2147483647").is_ok());
    assert!(read_metadata_line(&mut metadata, "BeatmapSetID:-2147483648").is_ok());
    assert_eq!(metadata.beatmap_id, Some(i32::MAX));
    assert_eq!(metadata.beatmap_set_id, Some(i32::MIN));
    assert!(metadata.title.is_none());
}

#[test]
fn event_lines_are_read_by_their_kind() {
    assert_eq!(
        read_event_line("0,0,\"bg.jpg\",10,20").unwrap(),
        Event::Background { filename: "\"bg.jpg\"".to_string(), offset: (10, 20) }
    );
    assert_eq!(
        read_event_line("0,0,bg.jpg").unwrap(),
        Event::Background { filename: "bg.jpg".to_string(), offset: (0, 0) }
    );
    assert_eq!(
        read_event_line("0,0,bg.jpg,5").unwrap(),
        Event::Background { filename: "bg.jpg".to_string(), offset: (5, 0) }
    );
    assert_eq!(
        read_event_line("Video,1500,intro.avi,1,2").unwrap(),
        Event::Video { start_time: 1500, filename: "intro.avi".to_string(), offset: (1, 2) }
    );
    assert_eq!(
        read_event_line("1,0,intro.avi,65535,0").unwrap(),
        Event::Video { start_time: 0, filename: "intro.avi".to_string(), offset: (65535, 0) }
    );
    assert_eq!(read_event_line("2,100,200").unwrap(), Event::Break(100..200));
    assert_eq!(read_event_line("Break,4294967295,0").unwrap(), Event::Break(4294967295..0));
    assert_eq!(read_event_line("3,whatever,else").unwrap(), Event::Break(0..0));
    let copy = read_event_line("2,1,2").unwrap().clone();
    assert_eq!(copy, Event::Break(1..2));
}

#[test]
fn event_lines_that_are_refused() {
    for line in ["", "4,1,2", "0", "0,0", "1,0,intro.avi,1", "Video", "2", "2,100", "Break"] {
        assert!(matches!(read_event_line(line), Err(OsuParserError::BadFormat)), "{}", line);
    }
    for line in [
        "0,0,bg.jpg,x",
        "0,0,bg.jpg,1,65536",
        "0,0,bg.jpg,-1",
        "1,soon,intro.avi,1,2",
        "1,0,intro.avi,1,",
        "2,abc,200",
        "2,abc",
        "2,100,4294967296",
        "2, 100,200",
    ] {
        assert!(matches!(read_event_line(line), Err(OsuParserError::IntegerParse(_))), "{}", line);
    }
}

#[test]
fn version_line_is_read() {
    assert!(matches!(parse_version("osu file format v14"), Ok(14)));
    assert!(matches!(parse_version("osu file format v3"), Ok(3)));
    assert!(matches!(parse_version("9"), Ok(9)));
    assert!(matches!(parse_version("osu file format v2"), Err(OsuParserError::VersionTooOld(2))));
    assert!(matches!(parse_version("osu file format v0"), Err(OsuParserError::VersionTooOld(0))));
    assert!(matches!(parse_version("osu file format v15"), Err(OsuParserError::VersionTooNew(15))));
    assert!(matches!(
        parse_version("osu file format v255"),
        Err(OsuParserError::VersionTooNew(255))
    ));
    assert!(matches!(parse_version("osu file format v256"), Err(OsuParserError::IntegerParse(_))));
    assert!(matches!(parse_version("osu file format v"), Err(OsuParserError::IntegerParse(_))));
    assert!(matches!(parse_version(" osu file format v14"), Err(OsuParserError::IntegerParse(_))));
    assert!(matches!(parse_version("osu file format v14 "), Err(OsuParserError::IntegerParse(_))));
}

#[test]
fn blank_lines_and_comments_are_passed_over() {
    assert!(keeps_line("[General]"));
    assert!(keeps_line(" // indented"));
    assert!(keeps_line("/"));
    assert!(!keeps_line(""));
    assert!(!keeps_line("   \t"));
    assert!(!keeps_line("\u{3000}"));
    assert!(!keeps_line("//comment"));
    assert!(!keeps_line("//"));
}

#[test]
fn section_headings_are_told_from_data() {
    assert!(matches!(read_section_heading("[General]"), Some(Ok(BeatmapFileSection::General))));
    assert!(matches!(
        read_section_heading("[HitObjects]"),
        Some(Ok(BeatmapFileSection::HitObjects))
    ));
    match read_section_heading("[Colors]") {
        Some(Err(OsuParserError::InvalidSection(name))) => assert_eq!(name, "Colors"),
        other => panic!("{:?}", other),
    }
    match read_section_heading("[]") {
        Some(Err(OsuParserError::InvalidSection(name))) => assert_eq!(name, ""),
        other => panic!("{:?}", other),
    }
    assert!(read_section_heading("[").is_none());
    assert!(read_section_heading("]").is_none());
    assert!(read_section_heading("").is_none());
    assert!(read_section_heading("[General] ").is_none());
    assert!(read_section_heading("Title:[x]").is_none());
}

#[test]
fn white_space_is_what_the_standard_library_calls_white_space() {
    for c in '\0'..=char::MAX {
        assert_eq!(is_whitespace_char(c), c.is_whitespace(), "{:?}", c);
    }
}

#[test]
fn trim_agrees_with_the_standard_library() {
    for s in [
        "",
        " ",
        "a",
        " a",
        "a ",
        "  a b  ",
        "\t\r\n x \u{3000}",
        "\u{2003}\u{a0}é\u{85}é\u{205f}",
        "\u{feff}x",
        " \u{200b} ",
        "\u{1680}\u{2028}\u{2029}\u{202f}",
    ] {
        assert_eq!(trim(s), s.trim(), "{:?}", s);
    }
}

#[test]
fn split_once_agrees_with_the_standard_library() {
    for s in ["", ":", "a:b", "a:b:c", ":a", "a:", "no colon", "é:ü:ß", "::"] {
        assert_eq!(split_once(s, ':'), s.split_once(':'), "{:?}", s);
    }
    assert_eq!(split_once("a★b★c", '★'), Some(("a", "b★c")));
}

#[test]
fn split_fields_agrees_with_the_standard_library() {
    for s in ["", ",", "a,b", "a,,b", ",a,", "no comma", "1,2,3,4,5", "é,ü"] {
        assert_eq!(split_fields(s, ','), s.split(',').collect::<Vec<&str>>(), "{:?}", s);
    }
}

#[test]
fn lines_are_routed_to_the_current_section() {
    assert!(matches!(
        route_line(None, "[Metadata]"),
        Ok(LineRoute::Heading(BeatmapFileSection::Metadata))
    ));
    assert!(matches!(
        route_line(Some(BeatmapFileSection::General), "[Metadata]"),
        Ok(LineRoute::Heading(BeatmapFileSection::Metadata))
    ));
    assert!(matches!(
        route_line(Some(BeatmapFileSection::General), "AudioLeadIn: 0"),
        Ok(LineRoute::Data(BeatmapFileSection::General))
    ));
    assert!(matches!(
        route_line(None, "AudioLeadIn: 0"),
        Err((None, OsuParserError::DataOutsideSection))
    ));
    match route_line(Some(BeatmapFileSection::General), "[Colors]") {
        Err((None, OsuParserError::InvalidSection(name))) => assert_eq!(name, "Colors"),
        other => panic!("{:?}", other),
    }
}

#[test]
fn options_say_which_sections_are_read() {
    let options = BeatmapParseOptions::default();
    assert!(reads_section(&options, BeatmapFileSection::General));
    assert!(reads_section(&options, BeatmapFileSection::Editor));
    assert!(reads_section(&options, BeatmapFileSection::Metadata));
    assert!(reads_section(&options, BeatmapFileSection::Difficulty));
    assert!(reads_section(&options, BeatmapFileSection::Events));
    assert!(reads_section(&options, BeatmapFileSection::TimingPoints));
    assert!(!reads_section(&options, BeatmapFileSection::Colours));
    assert!(reads_section(&options, BeatmapFileSection::HitObjects));
    let none = BeatmapParseOptions {
        read_editor: false,
        read_events: false,
        read_colors: true,
        read_timing_points: false,
        read_hit_objects: false,
    };
    assert!(reads_section(&none, BeatmapFileSection::General));
    assert!(!reads_section(&none, BeatmapFileSection::Editor));
    assert!(reads_section(&none, BeatmapFileSection::Metadata));
    assert!(reads_section(&none, BeatmapFileSection::Difficulty));
    assert!(!reads_section(&none, BeatmapFileSection::Events));
    assert!(!reads_section(&none, BeatmapFileSection::TimingPoints));
    assert!(reads_section(&none, BeatmapFileSection::Colours));
    assert!(!reads_section(&none, BeatmapFileSection::HitObjects));
}

#[test]
fn metadata_are_finished_with_defaults() {
    let mut metadata = InParseMetadata::default();
    for line in ["Title:DISCO★PRINCE", "Artist:Kenji Ninuma", "Creator:peppy", "Version:Normal"] {
        assert!(read_metadata_line(&mut metadata, line).is_ok());
    }
    let done = finalize_metadata(&metadata).unwrap();
    assert_eq!(done.title, "DISCO★PRINCE");
    assert_eq!(done.title_unicode, "DISCO★PRINCE");
    assert_eq!(done.artist, "Kenji Ninuma");
    assert_eq!(done.artist_unicode, "Kenji Ninuma");
    assert_eq!(done.creator, "peppy");
    assert_eq!(done.version, "Normal");
    assert_eq!(done.source, "");
    assert_eq!(done.tags, "");
    assert_eq!(done.beatmap_id, -1);
    assert_eq!(done.beatmap_set_id, -1);
    for line in [
        "TitleUnicode:ディスコ",
        "ArtistUnicode:新沼",
        "Source:game",
        "Tags:a b",
        "BeatmapID:5",
        "BeatmapSetID:6",
    ] {
        assert!(read_metadata_line(&mut metadata, line).is_ok());
    }
    let done = finalize_metadata(&metadata).unwrap();
    assert_eq!(done.title_unicode, "ディスコ");
    assert_eq!(done.artist_unicode, "新沼");
    assert_eq!(done.source, "game");
    assert_eq!(done.tags, "a b");
    assert_eq!(done.beatmap_id, 5);
    assert_eq!(done.beatmap_set_id, 6);
}

#[test]
fn metadata_need_title_artist_creator_and_version() {
    let lines = ["Title:t", "Artist:a", "Creator:c", "Version:v"];
    for skip in 0..4 {
        let mut metadata = InParseMetadata::default();
        for (i, line) in lines.iter().enumerate() {
            if i != skip {
                assert!(read_metadata_line(&mut metadata, line).is_ok());
            }
        }
        assert!(matches!(finalize_metadata(&metadata), Err(OsuParserError::BadFormat)));
    }
    assert!(matches!(
        finalize_metadata(&InParseMetadata::default()),
        Err(OsuParserError::BadFormat)
    ));
}
