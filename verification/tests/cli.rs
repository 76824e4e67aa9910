use fit2srt_core::cli::{
    set_time, summary_card, time_to_vec, ParseIntError, TimeSetting, Track,
};
use fit2srt_core::{
    Field, Fit2SrtError, Record, RecordKind, SrtGenerator, Summary, TimeDelta, Timestamp, Value,
};

fn sample(seconds: u32, depth: u32) -> Record {
    let mut record = Record::new(RecordKind::Other);
    record.push(Field::new(
        "timestamp",
        Value::Timestamp(Timestamp::new(500 + seconds, 11, 6, 40 + seconds as u8)),
        "s",
    ));
    record.push(Field::new("depth", Value::Decimal(depth), "m"));
    record
}

fn session(temperature: i8, seconds: u32) -> Record {
    let mut record = Record::new(RecordKind::Session);
    record.push(Field::new("avg_temperature", Value::SInt8(temperature), "C"));
    record.push(Field::new("total_elapsed_time", Value::Decimal(seconds * 1000), "s"));
    record
}

#[test]
fn test_time_to_vec() {
    assert_eq!(time_to_vec("15:01:30"), Ok(vec![15, 1, 30]));
    assert_eq!(time_to_vec("150130"), Ok(vec![15, 1, 30]));
}

#[test]
fn main_test_time_to_vec() {
    assert_eq!(time_to_vec("15:01:30"), Ok(vec![15, 1, 30]));
    assert_eq!(time_to_vec("150130"), Ok(vec![15, 1, 30]));
}

#[test]
fn time_with_colons_has_as_many_numbers_as_pieces() {
    assert_eq!(time_to_vec("7:5"), Ok(vec![7, 5]));
    assert_eq!(time_to_vec("1:2:3:4"), Ok(vec![1, 2, 3, 4]));
    assert_eq!(time_to_vec("+1:002:4294967295"), Ok(vec![1, 2, 4294967295]));
}

#[test]
fn time_without_colons_uses_six_bytes() {
    assert_eq!(time_to_vec("0000009"), Ok(vec![0, 0, 0]));
    assert_eq!(time_to_vec("+1+2+3"), Ok(vec![1, 2, 3]));
    assert_eq!(time_to_vec("99aa00"), Err(ParseIntError::InvalidDigit));
    assert_eq!(time_to_vec("1 0203"), Err(ParseIntError::InvalidDigit));
    assert_eq!(time_to_vec("-10203"), Err(ParseIntError::InvalidDigit));
    assert_eq!(time_to_vec("ééé"), Err(ParseIntError::InvalidDigit));
}

#[test]
fn time_with_colons_reports_the_last_failure() {
    assert_eq!(time_to_vec(":"), Err(ParseIntError::Empty));
    assert_eq!(time_to_vec("1::3"), Err(ParseIntError::Empty));
    assert_eq!(time_to_vec("12:"), Err(ParseIntError::Empty));
    assert_eq!(time_to_vec("12:x:"), Err(ParseIntError::Empty));
    assert_eq!(time_to_vec(":x:4294967296"), Err(ParseIntError::PosOverflow));
    assert_eq!(time_to_vec("4294967296:1:+"), Err(ParseIntError::InvalidDigit));
    assert_eq!(time_to_vec("1:-:3"), Err(ParseIntError::InvalidDigit));
    assert_eq!(time_to_vec("1:-2:3"), Err(ParseIntError::InvalidDigit));
    assert_eq!(time_to_vec("1: 2:3"), Err(ParseIntError::InvalidDigit));
}

#[test]
fn number_fails_where_it_first_goes_wrong() {
    assert_eq!(time_to_vec("99999999999x:1"), Err(ParseIntError::PosOverflow));
    assert_eq!(time_to_vec("9999x99999999:1"), Err(ParseIntError::InvalidDigit));
    assert_eq!(time_to_vec("4294967295:1"), Ok(vec![4294967295, 1]));
    assert_eq!(time_to_vec("4294967296:1"), Err(ParseIntError::PosOverflow));
    assert_eq!(time_to_vec("00000000004294967295:1"), Ok(vec![4294967295, 1]));
}

#[test]
fn set_time_sets_each_time() {
    let records = vec![sample(0, 1000), sample(1, 2000), sample(2, 3000), sample(3, 4000)];
    let mut generator = SrtGenerator::default();
    assert!(set_time(&mut generator, TimeSetting::After, &vec![11, 6, 40]));
    assert_eq!(generator.open(&records).unwrap().len(), 2);
    let mut generator = SrtGenerator::default();
    assert!(set_time(&mut generator, TimeSetting::Before, &vec![11, 6, 41]));
    assert_eq!(generator.open(&records).unwrap().len(), 1);
    let mut generator = SrtGenerator::default();
    assert!(set_time(&mut generator, TimeSetting::Start, &vec![11, 6, 30]));
    let (_, begin, _) = generator.open(&records).unwrap().next().unwrap();
    assert_eq!(begin, TimeDelta::milliseconds(10_000));
}

#[test]
fn set_time_takes_what_the_third_number_allows() {
    let records = vec![sample(0, 1000), sample(1, 2000), sample(2, 3000), sample(3, 4000)];
    // Hours past 24 are refused where the seconds are, too.
    let mut generator = SrtGenerator::default();
    assert!(!set_time(&mut generator, TimeSetting::After, &vec![25, 0, 60]));
    assert!(!set_time(&mut generator, TimeSetting::After, &vec![11, 60, 60]));
    assert!(!set_time(&mut generator, TimeSetting::After, &vec![11, 6, 70, 1]));
    assert_eq!(generator.open(&records).unwrap().len(), 3);
    // Seconds below 60 carry any hours and minutes, in any number.
    let mut generator = SrtGenerator::default();
    assert!(set_time(&mut generator, TimeSetting::After, &vec![0, 666, 41, 9]));
    assert_eq!(generator.open(&records).unwrap().len(), 1);
    // Sixty seconds are taken with proper hours and minutes.
    let mut generator = SrtGenerator::default();
    assert!(set_time(&mut generator, TimeSetting::After, &vec![11, 5, 101]));
    assert_eq!(generator.open(&records).unwrap().len(), 1);
}

#[test]
fn card_shows_what_is_known() {
    let summary = Summary {
        location: (Some(261_745_038), Some(1_440_548_313)),
        avg_temperature: Some(31),
        min_temperature: Some(31),
        temperature_unit: 0,
        avg_depth: Some(4248),
        max_depth: Some(8908),
        depth_unit: 0,
        time: 1,
    };
    assert_eq!(
        summary_card(&summary, 2, &TimeDelta::milliseconds(1000), "21.9, 120.7"),
        "3\n00:00:06,000 --> 00:00:16,000\nSummary:\nLocation: 21.9, 120.7\nTemperature: 31C\nDepth: 4.248m (max: 8.908m)\n"
    );
}

#[test]
fn card_leaves_out_what_is_not_known() {
    let mut summary = Summary::default();
    assert_eq!(
        summary_card(&summary, 0, &TimeDelta::milliseconds(-5000), "nowhere"),
        "1\n00:00:00,000 --> 00:00:10,000\nSummary:\n"
    );
    summary.min_temperature = Some(3);
    summary.max_depth = Some(4);
    summary.location.0 = Some(5);
    assert_eq!(
        summary_card(&summary, 9, &TimeDelta::milliseconds(3_595_000), "nowhere"),
        "10\n01:00:00,000 --> 01:00:10,000\nSummary:\n"
    );
}

#[test]
fn card_shows_lowest_and_greatest_where_they_differ() {
    let mut summary = Summary::default();
    summary.avg_temperature = Some(-3);
    summary.min_temperature = Some(-12);
    summary.temperature_unit = 1;
    summary.avg_depth = Some(10_000);
    summary.max_depth = Some(10_000);
    summary.depth_unit = 1;
    assert_eq!(
        summary_card(&summary, 0, &TimeDelta::milliseconds(0), ""),
        "1\n00:00:05,000 --> 00:00:15,000\nSummary:\nTemperature: -3 (min: -12)\nDepth: 10\n"
    );
    summary.min_temperature = None;
    summary.avg_depth = Some(12_340);
    summary.max_depth = Some(20_500);
    summary.temperature_unit = 0;
    summary.depth_unit = 0;
    assert_eq!(
        summary_card(&summary, 0, &TimeDelta::milliseconds(0), ""),
        "1\n00:00:05,000 --> 00:00:15,000\nSummary:\nTemperature: -3C\nDepth: 12.34m (max: 20.5m)\n"
    );
    summary.avg_depth = Some(7);
    summary.max_depth = None;
    assert_eq!(
        summary_card(&summary, 0, &TimeDelta::milliseconds(0), ""),
        "1\n00:00:05,000 --> 00:00:15,000\nSummary:\nTemperature: -3C\nDepth: 0.007m\n"
    );
}

#[test]
fn track_runs_through_two_logs() {
    let generator = SrtGenerator::default();
    let first = vec![sample(0, 1000), sample(1, 2000), sample(4, 3000), session(20, 30)];
    let second = vec![sample(0, 1000), sample(2, 2000), session(30, 10)];
    let mut track = Track::new();
    assert_eq!(track.previous(), None);
    assert_eq!(track.finish(false, ""), None);

    let mut entries = track.open_log(generator, &first).unwrap();
    let mut shown = Vec::new();
    while let Some((count, begin, srt)) = entries.next() {
        track.entry_shown(count, begin);
        shown.push(srt);
    }
    assert_eq!(
        shown,
        vec![
            "1\n00:00:00,000 --> 00:00:01,000\n2.0m".to_string(),
            "2\n00:00:01,000 --> 00:00:04,000\n3.0m".to_string(),
        ]
    );
    assert_eq!(track.previous(), Some((2, TimeDelta::milliseconds(1000))));
    assert_eq!(track.summary().avg_temperature, Some(20));

    let mut entries = track.open_log(generator, &second).unwrap();
    let (count, begin, srt) = entries.next().unwrap();
    track.entry_shown(count, begin);
    assert_eq!(srt, "3\n00:00:01,000 --> 00:00:03,000\n2.0m");
    assert!(entries.next().is_none());
    assert_eq!(track.previous(), Some((3, TimeDelta::milliseconds(1000))));
    // (20 * 30 + 30 * 10) / 40 = 22.5
    assert_eq!(track.summary().avg_temperature, Some(22));
    assert_eq!(track.summary().time, 40_000);

    assert_eq!(track.finish(true, ""), None);
    assert_eq!(
        track.finish(false, ""),
        Some("4\n00:00:06,000 --> 00:00:16,000\nSummary:\nTemperature: 22C\n".to_string())
    );
}

#[test]
fn track_shows_no_card_without_entries_or_statistics() {
    let generator = SrtGenerator::default();
    let mut track = Track::new();
    let mut entries = track.open_log(generator, &vec![session(20, 30)]).unwrap();
    assert!(entries.next().is_none());
    assert!(!track.summary().is_empty());
    assert_eq!(track.finish(false, ""), None);

    let mut track = Track::new();
    let mut entries = track.open_log(generator, &vec![sample(0, 1000), sample(1, 2000)]).unwrap();
    let (count, begin, _) = entries.next().unwrap();
    track.entry_shown(count, begin);
    assert!(track.summary().is_empty());
    assert_eq!(track.finish(false, ""), None);
}

#[test]
fn track_stays_as_it_is_when_a_log_fails() {
    let generator = SrtGenerator::default();
    let mut track = Track::new();
    let mut entries = track.open_log(generator, &vec![sample(0, 1000), sample(1, 2000), session(20, 0)])
        .unwrap();
    let (count, begin, _) = entries.next().unwrap();
    track.entry_shown(count, begin);

    let mut broken = Record::new(RecordKind::DiveSummary);
    broken.push(Field::new("avg_depth", Value::Decimal(5), "yd"));
    match track.open_log(generator, &vec![broken]) {
        Err(Fit2SrtError::MergeError(text)) => assert_eq!(text, "unsupport unit: yd"),
        _ => panic!("the log should fail"),
    }
    // Two averages and no time to weigh them by.
    match track.open_log(generator, &vec![session(30, 0)]) {
        Err(Fit2SrtError::SummaryError(_)) => {}
        _ => panic!("the log should fail"),
    }
    assert_eq!(track.previous(), Some((1, TimeDelta::milliseconds(0))));
    assert_eq!(track.summary().avg_temperature, Some(20));
    assert_eq!(track.summary().time, 0);
}

/// The log of a short dive that began at 03:10:00: the depth changes at 1,
/// 2, 3 and 6 seconds.
fn garmin_g1() -> Vec<Record> {
    let readings = [(0, 1234), (1, 1512), (2, 1689), (3, 2011), (4, 1930), (5, 1949), (6, 1764)];
    let mut records = Vec::new();
    for (seconds, depth) in readings {
        let mut record = Record::new(RecordKind::Other);
        record.push(Field::new(
            "timestamp",
            Value::Timestamp(Timestamp::new(1_000_000 + seconds, 3, 10, seconds as u8)),
            "s",
        ));
        record.push(Field::new("depth", Value::Decimal(depth), "M"));
        records.push(record);
    }
    records
}

/// What the command line prints for one log with the given times.
fn printed(after: Option<&str>, before: Option<&str>) -> String {
    let mut generator = SrtGenerator::default();
    if let Some(after) = after {
        assert!(set_time(&mut generator, TimeSetting::After, &time_to_vec(after).unwrap()));
    }
    if let Some(before) = before {
        assert!(set_time(&mut generator, TimeSetting::Before, &time_to_vec(before).unwrap()));
    }
    let mut entries = generator.open(&garmin_g1()).unwrap();
    fit2srt_core::gui::srt_content(&mut entries)
}

#[test]
fn without_option() {
    assert!(printed(None, None).starts_with("1\n00:00:00,000 --> 00:00:01,000\n1.5M\n\n"));
}

#[test]
fn with_before() {
    assert!(printed(Some("03:10:00"), None)
        .starts_with("1\n00:00:00,000 --> 00:00:01,000\n1.7M\n\n"));
}

#[test]
fn with_time_slot() {
    assert_eq!(
        printed(Some("03:10:00"), Some("03:10:05")),
        r#"1
00:00:00,000 --> 00:00:01,000
1.7M

2
00:00:01,000 --> 00:00:02,000
2.0M

"#
    );
}
