use osz2::beatmap::{Countdown, HitSample, Mode, SampleSet, SpecificHitObject};
use osz2::list_lines::{
    hit_object_fields, hit_object_kind, parse_hit_sample, read_closing_hit_sample,
    read_hit_object_numbers, read_hit_object_position, read_timing_point_settings,
    HitObjectNumbers, TimingPointSettings,
};
use osz2::parser::OsuParserError;
use osz2::section_lines::{
    read_difficulty_line, read_editor_line, read_general_line, InParseDifficulty, InParseEditor,
    InParseGeneral,
};
use osz2::text::split_fields;

#[test]
fn general_lines_fill_their_fields() {
    let mut general = InParseGeneral::default();
    for line in [
        "AudioFilename: tearrain.mp3",
        "AudioLeadIn: 1500",
        "PreviewTime: 195852",
        "Countdown: 0",
        "SampleSet: Soft",
        "StackLeniency: 0.5",
        "Mode: 0",
        "LetterboxInBreaks: 0",
        "WidescreenStoryboard: 1",
        "AudioHash: 0123456789abcdef",
    ] {
        assert!(read_general_line(&mut general, line).is_ok(), "{}", line);
    }
    assert_eq!(general.audio_file_name, Some("tearrain.mp3"));
    assert_eq!(general.audio_lead_in, Some(1500));
    assert_eq!(general.preview_time, Some(195852));
    assert_eq!(general.countdown, None);
    assert_eq!(general.sample_set, Some(SampleSet::Soft));
    assert_eq!(general.stack_leniency, Some("0.5"));
    assert_eq!(general.mode, Some(Mode::Osu));
    assert_eq!(general.letterbox_in_breaks, Some(false));
    assert_eq!(general.widescreen_storyboard, Some(true));
}

#[test]
fn countdown_and_mode_are_known_numbers() {
    let mut general = InParseGeneral::default();
    for (line, countdown) in [
        ("Countdown:1", Some(Countdown::Normal)),
        ("Countdown:2", Some(Countdown::Half)),
        ("Countdown:3", Some(Countdown::Double)),
        ("Countdown:0", None),
    ] {
        assert!(read_general_line(&mut general, line).is_ok());
        assert_eq!(general.countdown, countdown);
    }
    for (line, mode) in
        [("Mode:1", Mode::Taiko), ("Mode:2", Mode::Catch), ("Mode:3", Mode::Mania), ("Mode:0", Mode::Osu)]
    {
        assert!(read_general_line(&mut general, line).is_ok());
        assert_eq!(general.mode, Some(mode));
    }
    assert!(read_general_line(&mut general, "LetterboxInBreaks:255").is_ok());
    assert_eq!(general.letterbox_in_breaks, Some(true));
    for line in ["Countdown:4", "Mode:4", "Mode:255", "SampleSet:Loud", "SampleSet:", "no colon"] {
        assert!(
            matches!(read_general_line(&mut general, line), Err(OsuParserError::BadFormat)),
            "{}",
            line
        );
    }
    for line in [
        "Countdown:256",
        "Countdown:x",
        "Mode:-1",
        "AudioLeadIn:-5",
        "AudioLeadIn:4294967296",
        "PreviewTime:1.5",
        "LetterboxInBreaks:true",
        "WidescreenStoryboard:",
    ] {
        assert!(
            matches!(read_general_line(&mut general, line), Err(OsuParserError::IntegerParse(_))),
            "{}",
            line
        );
    }
    match read_general_line(&mut general, "SkinPreference:Default") {
        Err(OsuParserError::InvalidKey(key)) => assert_eq!(key, "SkinPreference"),
        other => panic!("{:?}", other),
    }
    assert_eq!(general.countdown, None);
    assert_eq!(general.mode, Some(Mode::Osu));
    assert_eq!(general.audio_lead_in, None);
}

#[test]
fn stack_leniency_is_kept_as_text() {
    let mut general = InParseGeneral::default();
    assert!(read_general_line(&mut general, "StackLeniency: not a number ").is_ok());
    assert_eq!(general.stack_leniency, Some("not a number"));
}

#[test]
fn difficulty_lines_keep_the_text_of_each_setting() {
    let mut difficulty = InParseDifficulty::default();
    for line in [
        "HPDrainRate:6",
        "CircleSize:4",
        "OverallDifficulty:8.5",
        "ApproachRate: 9.3 ",
        "SliderMultiplier:1.8",
        "SliderTickRate:1",
    ] {
        assert!(read_difficulty_line(&mut difficulty, line).is_ok());
    }
    assert_eq!(difficulty.hp, Some("6"));
    assert_eq!(difficulty.cs, Some("4"));
    assert_eq!(difficulty.od, Some("8.5"));
    assert_eq!(difficulty.ar, Some("9.3"));
    assert_eq!(difficulty.slider_multiplier, Some("1.8"));
    assert_eq!(difficulty.slider_tick_rate, Some("1"));
    assert!(matches!(
        read_difficulty_line(&mut difficulty, "HPDrainRate 6"),
        Err(OsuParserError::BadFormat)
    ));
    assert!(matches!(
        read_difficulty_line(&mut difficulty, "Speed:6"),
        Err(OsuParserError::InvalidKey(_))
    ));
    assert_eq!(difficulty.hp, Some("6"));
}

#[test]
fn editor_lines_fill_their_fields() {
    let mut editor = InParseEditor::default();
    assert!(editor.bookmarks.is_empty());
    for line in [
        "Bookmarks: 1000,2000,4294967295",
        "DistanceSpacing: 1.2",
        "BeatDivisor: 4",
        "GridSize: 32",
        "TimelineZoom: 2.5",
    ] {
        assert!(read_editor_line(&mut editor, line).is_ok());
    }
    assert_eq!(editor.bookmarks, vec![1000, 2000, 4294967295]);
    assert_eq!(editor.distance_spacing, Some("1.2"));
    assert_eq!(editor.beat_divisor, Some(4));
    assert_eq!(editor.grid_size, Some(32));
    assert_eq!(editor.timeline_zoom, Some("2.5"));
    for line in ["Bookmarks:", "Bookmarks:1,,2", "Bookmarks:1, 2", "BeatDivisor:256", "GridSize:x"] {
        assert!(
            matches!(read_editor_line(&mut editor, line), Err(OsuParserError::IntegerParse(_))),
            "{}",
            line
        );
    }
    assert_eq!(editor.bookmarks, vec![1000, 2000, 4294967295]);
    assert!(read_editor_line(&mut editor, "Bookmarks:7").is_ok());
    assert_eq!(editor.bookmarks, vec![7]);
    assert!(matches!(read_editor_line(&mut editor, "Zoom:1"), Err(OsuParserError::InvalidKey(_))));
    assert!(matches!(read_editor_line(&mut editor, "Bookmarks"), Err(OsuParserError::BadFormat)));
}

#[test]
fn hit_samples_are_four_numbers_and_a_name() {
    assert_eq!(
        parse_hit_sample("1:2:3:100:clap.wav").unwrap(),
        HitSample {
            normal_set: 1,
            addition_set: 2,
            index: 3,
            volume: 100,
            filename: Some("clap.wav".to_string()),
        }
    );
    assert_eq!(
        parse_hit_sample("0:0:0:0:").unwrap(),
        HitSample {
            normal_set: 0,
            addition_set: 0,
            index: 0,
            volume: 0,
            filename: Some(String::new()),
        }
    );
    assert_eq!(parse_hit_sample("0:0:4294967295:255").unwrap().filename, Some(String::new()));
    assert_eq!(parse_hit_sample("0:0:0:0:a:b").unwrap().filename, Some("a".to_string()));
    for part in ["0", "0:0", "0:0:0"] {
        assert!(matches!(parse_hit_sample(part), Err(OsuParserError::BadFormat)), "{}", part);
    }
    for part in ["", "x:0:0:0", "0:256:0:0", "0:0:-1:0", "0:0:0:300", "x", "0:x"] {
        assert!(matches!(parse_hit_sample(part), Err(OsuParserError::IntegerParse(_))), "{}", part);
    }
}

#[test]
fn timing_point_settings_default_to_zero() {
    let fields = split_fields("1000,333.33", ',');
    assert_eq!(
        read_timing_point_settings(&fields).unwrap(),
        TimingPointSettings {
            meter: 0,
            sample_set: None,
            sample_index: 0,
            volume: 0,
            uninherited: false,
            effects: 0,
        }
    );
    let fields = split_fields("1000,333.33,4,2,1,60,1,8", ',');
    assert_eq!(
        read_timing_point_settings(&fields).unwrap(),
        TimingPointSettings {
            meter: 4,
            sample_set: Some(SampleSet::Soft),
            sample_index: 1,
            volume: 60,
            uninherited: true,
            effects: 8,
        }
    );
    let fields = split_fields("x,y,4,1", ',');
    let settings = read_timing_point_settings(&fields).unwrap();
    assert_eq!(settings.sample_set, Some(SampleSet::Normal));
    assert_eq!(read_timing_point_settings(&split_fields("0,0,0,3", ',')).unwrap().sample_set, Some(SampleSet::Drum));
}

#[test]
fn timing_point_settings_that_are_refused() {
    for line in ["0,0,4,4", "0,0,4,4294967295,0,0,0,0"] {
        let fields = split_fields(line, ',');
        assert!(
            matches!(read_timing_point_settings(&fields), Err(OsuParserError::BadFormat)),
            "{}",
            line
        );
    }
    for line in ["0,0,256", "0,0,4,x", "0,0,4,9,x", "0,0,4,0,0,101x", "0,0,4,0,0,0,-1", "0,0,4,0,0,0,0,"] {
        let fields = split_fields(line, ',');
        assert!(
            matches!(read_timing_point_settings(&fields), Err(OsuParserError::IntegerParse(_))),
            "{}",
            line
        );
    }
}

#[test]
fn the_lowest_kind_bit_says_what_a_hit_object_is() {
    assert_eq!(hit_object_kind(1), Some(SpecificHitObject::Circle));
    assert_eq!(hit_object_kind(2), Some(SpecificHitObject::Slider {}));
    assert_eq!(hit_object_kind(8), Some(SpecificHitObject::Spinner {}));
    assert_eq!(hit_object_kind(128), Some(SpecificHitObject::ManiaHold {}));
    assert_eq!(hit_object_kind(1 | 4), Some(SpecificHitObject::Circle));
    assert_eq!(hit_object_kind(2 | 4 | 16), Some(SpecificHitObject::Slider {}));
    assert_eq!(hit_object_kind(8 | 128), Some(SpecificHitObject::Spinner {}));
    assert_eq!(hit_object_kind(3), Some(SpecificHitObject::Circle));
    assert_eq!(hit_object_kind(0xffff_ffff), Some(SpecificHitObject::Circle));
    assert_eq!(hit_object_kind(0), None);
    assert_eq!(hit_object_kind(4), None);
    assert_eq!(hit_object_kind(4 | 16 | 32 | 64 | 256), None);
}

fn sample(normal_set: u8, addition_set: u8, index: u32, volume: u8, filename: &str) -> HitSample {
    HitSample { normal_set, addition_set, index, volume, filename: Some(filename.to_owned()) }
}

#[test]
fn hit_object_fields_leave_out_the_empty_ones() {
    assert_eq!(hit_object_fields("256,192,1000,1,0"), vec!["256", "192", "1000", "1", "0"]);
    assert_eq!(hit_object_fields(",256,,192,"), vec!["256", "192"]);
    assert_eq!(hit_object_fields(""), Vec::<&str>::new());
    assert_eq!(hit_object_fields(",,,"), Vec::<&str>::new());
    assert_eq!(hit_object_fields(" ,x"), vec![" ", "x"]);
}

#[test]
fn hit_object_position_is_read_from_the_first_two_fields() {
    let fields = hit_object_fields("256,192,1000,1,0");
    assert_eq!(read_hit_object_position(&fields).unwrap(), (256, 192));
    let fields = hit_object_fields("65535,0");
    assert_eq!(read_hit_object_position(&fields).unwrap(), (65535, 0));
    assert!(matches!(
        read_hit_object_position(&hit_object_fields("")),
        Err(OsuParserError::BadFormat)
    ));
    assert!(matches!(
        read_hit_object_position(&hit_object_fields("12")),
        Err(OsuParserError::BadFormat)
    ));
    assert!(matches!(
        read_hit_object_position(&hit_object_fields("65536,0")),
        Err(OsuParserError::IntegerParse(_))
    ));
    assert!(matches!(
        read_hit_object_position(&hit_object_fields("1,-1")),
        Err(OsuParserError::IntegerParse(_))
    ));
    assert!(matches!(
        read_hit_object_position(&hit_object_fields("x")),
        Err(OsuParserError::IntegerParse(_))
    ));
}

#[test]
fn hit_object_numbers_of_a_circle() {
    let fields = hit_object_fields("256,192,1000,5,2,0:0:0:0:");
    assert_eq!(
        read_hit_object_numbers(&fields).unwrap(),
        HitObjectNumbers {
            ty: 5,
            hit_sound: 2,
            specific: SpecificHitObject::Circle,
            slides: None,
            end_time: None,
            hit_sample: None,
            sample_at: 5,
        }
    );
}

#[test]
fn hit_object_numbers_of_a_slider() {
    let fields = hit_object_fields("100,100,2000,2,0,B|200:200|250:200,3,310.5,2|1|2,0:0|0:0,1:2:3:4:a.wav");
    let numbers = read_hit_object_numbers(&fields).unwrap();
    assert_eq!(
        numbers,
        HitObjectNumbers {
            ty: 2,
            hit_sound: 0,
            specific: SpecificHitObject::Slider {},
            slides: Some(3),
            end_time: None,
            hit_sample: None,
            sample_at: 10,
        }
    );
    assert_eq!(
        read_closing_hit_sample(&fields, numbers.sample_at, numbers.hit_sample).unwrap(),
        sample(1, 2, 3, 4, "a.wav")
    );
}

#[test]
fn hit_object_numbers_of_a_spinner() {
    let fields = hit_object_fields("256,192,3000,12,0,4500,0:0:0:0:");
    assert_eq!(
        read_hit_object_numbers(&fields).unwrap(),
        HitObjectNumbers {
            ty: 12,
            hit_sound: 0,
            specific: SpecificHitObject::Spinner {},
            slides: None,
            end_time: Some(4500),
            hit_sample: None,
            sample_at: 6,
        }
    );
}

#[test]
fn hit_object_numbers_of_a_hold() {
    let fields = hit_object_fields("64,192,5000,128,0,5500:7");
    let numbers = read_hit_object_numbers(&fields);
    assert!(matches!(numbers, Err(OsuParserError::BadFormat)));
    let fields = hit_object_fields("64,192,5000,128,0,5500");
    assert!(matches!(read_hit_object_numbers(&fields), Err(OsuParserError::BadFormat)));
    let fields = hit_object_fields("64,192,5000,128,0,x:7");
    assert!(matches!(read_hit_object_numbers(&fields), Err(OsuParserError::IntegerParse(_))));
    let fields = hit_object_fields("64,192,5000,128,0,5500:x");
    assert!(matches!(read_hit_object_numbers(&fields), Err(OsuParserError::IntegerParse(_))));
}

#[test]
fn hit_object_numbers_that_are_refused() {
    for line in ["1,2,3", "1,2,3,1", "1,2,3,4,0", "1,2,3,0,0", "1,2,3,2,0", "1,2,3,2,0,B", "1,2,3,8,0"] {
        let fields = hit_object_fields(line);
        assert!(
            matches!(read_hit_object_numbers(&fields), Err(OsuParserError::BadFormat)),
            "{}",
            line
        );
    }
    for line in ["1,2,3,x,0", "1,2,3,1,256", "1,2,3,4294967296,0", "1,2,3,2,0,B,x", "1,2,3,2,0,B,256", "1,2,3,8,0,-1"] {
        let fields = hit_object_fields(line);
        assert!(
            matches!(read_hit_object_numbers(&fields), Err(OsuParserError::IntegerParse(_))),
            "{}",
            line
        );
    }
}

#[test]
fn the_type_number_is_read_before_the_hit_sound() {
    let fields = hit_object_fields("1,2,3,x");
    assert!(matches!(read_hit_object_numbers(&fields), Err(OsuParserError::IntegerParse(_))));
    let fields = hit_object_fields("1,2,3,0,x");
    assert!(matches!(read_hit_object_numbers(&fields), Err(OsuParserError::IntegerParse(_))));
}

#[test]
fn closing_hit_sample_falls_back_to_the_earlier_and_then_to_the_default() {
    let fields = hit_object_fields("1,2,3,1,0");
    assert_eq!(
        read_closing_hit_sample(&fields, 5, None).unwrap(),
        HitSample { normal_set: 0, addition_set: 0, index: 0, volume: 100, filename: None }
    );
    assert_eq!(
        read_closing_hit_sample(&fields, 5, Some(sample(1, 1, 1, 1, "b"))).unwrap(),
        sample(1, 1, 1, 1, "b")
    );
    let fields = hit_object_fields("1,2,3,1,0,2:3:4:5:c.wav");
    assert_eq!(
        read_closing_hit_sample(&fields, 5, Some(sample(1, 1, 1, 1, "b"))).unwrap(),
        sample(2, 3, 4, 5, "c.wav")
    );
    let fields = hit_object_fields("1,2,3,1,0,2:3");
    assert!(matches!(read_closing_hit_sample(&fields, 5, None), Err(OsuParserError::BadFormat)));
    let fields = hit_object_fields("1,2,3,1,0,2:x:4:5");
    assert!(matches!(
        read_closing_hit_sample(&fields, 5, None),
        Err(OsuParserError::IntegerParse(_))
    ));
}
