use fit2srt_core::srt_iter::delta_srt_format;
use fit2srt_core::{
    Field, Fit2SrtError, Record, RecordKind, SrtGenerator, SrtIter, TimeDelta, Timestamp, Value,
};

const MORNING: u32 = 3 * 3600 + 10 * 60;

/// The moment `seconds` after the fixed one, `of_day` seconds after
/// midnight.
fn moment(seconds: u32, of_day: u32) -> Timestamp {
    Timestamp::new(seconds, (of_day / 3600) as u8, (of_day / 60 % 60) as u8, (of_day % 60) as u8)
}

fn sample(seconds: u32, depth: u32, unit: &str) -> Record {
    let mut record = Record::new(RecordKind::Other);
    record.push(Field::new(
        "timestamp",
        Value::Timestamp(moment(1_000_000 + seconds, MORNING + seconds)),
        "s",
    ));
    record.push(Field::new("depth", Value::Decimal(depth), unit));
    record
}

/// A dive whose depth changes at 1, 2, 3 and 6 seconds, with readings in
/// between that stay within a tenth of what is shown.
fn garmin_g1(unit: &str) -> Vec<Record> {
    vec![
        sample(0, 1234, unit),
        sample(1, 1512, unit),
        sample(2, 1689, unit),
        sample(3, 2011, unit),
        sample(4, 1930, unit),
        sample(5, 1949, unit),
        sample(6, 1764, unit),
    ]
}

fn texts(iter: &mut SrtIter) -> Vec<String> {
    let mut all = Vec::new();
    while let Some((_, _, srt)) = iter.next() {
        all.push(srt);
    }
    all
}

#[test]
fn srt_time_string() {
    assert_eq!("00:00:00,000", delta_srt_format(&TimeDelta::default()));
}

#[test]
fn srt_iter_srt_time_string() {
    assert_eq!("00:00:00,000", delta_srt_format(&TimeDelta::default()));
}

#[test]
fn lib_srt_time_string() {
    assert_eq!("00:00:00,000", delta_srt_format(&TimeDelta::default()));
}

#[test]
fn parse_garmin_g1() {
    let mut iter = SrtGenerator::default().open(&garmin_g1("m")).unwrap();
    let (_idx, _time_delta, srt) = iter.next().unwrap();
    assert_eq!(srt, "1\n00:00:00,000 --> 00:00:01,000\n1.5m".to_string());
    let (_idx, _time_delta, srt) = iter.next().unwrap();
    assert_eq!(srt, "2\n00:00:01,000 --> 00:00:02,000\n1.7m".to_string());
    let (_idx, _time_delta, srt) = iter.next().unwrap();
    assert_eq!(srt, "3\n00:00:02,000 --> 00:00:03,000\n2.0m".to_string());
    let (_idx, _time_delta, srt) = iter.next().unwrap();
    assert_eq!(srt, "4\n00:00:03,000 --> 00:00:06,000\n1.8m".to_string());
}

#[test]
fn srt_iter_parse_garmin_g1() {
    let mut iter = SrtGenerator::default().open(&garmin_g1("m")).unwrap();
    let (_idx, _time_delta, srt) = iter.next().unwrap();
    assert_eq!(srt, "1\n00:00:00,000 --> 00:00:01,000\n1.5m".to_string());
    let (_idx, _time_delta, srt) = iter.next().unwrap();
    assert_eq!(srt, "2\n00:00:01,000 --> 00:00:02,000\n1.7m".to_string());
    let (_idx, _time_delta, srt) = iter.next().unwrap();
    assert_eq!(srt, "3\n00:00:02,000 --> 00:00:03,000\n2.0m".to_string());
    let (_idx, _time_delta, srt) = iter.next().unwrap();
    assert_eq!(srt, "4\n00:00:03,000 --> 00:00:06,000\n1.8m".to_string());
}

#[test]
fn lib_parse_garmin_g1() {
    let mut iter = SrtGenerator::default().open(&garmin_g1("M")).unwrap();
    assert_eq!(
        iter.next().map(|e| e.2),
        Some("1\n00:00:00,000 --> 00:00:01,000\n1.5M".to_string())
    );
    assert_eq!(
        iter.next().map(|e| e.2),
        Some("2\n00:00:01,000 --> 00:00:02,000\n1.7M".to_string())
    );
    assert_eq!(
        iter.next().map(|e| e.2),
        Some("3\n00:00:02,000 --> 00:00:03,000\n2.0M".to_string())
    );
    assert_eq!(
        iter.next().map(|e| e.2),
        Some("4\n00:00:03,000 --> 00:00:06,000\n1.8M".to_string())
    );
}

#[test]
fn entries_end_with_the_queue() {
    let mut iter = SrtGenerator::default().open(&garmin_g1("m")).unwrap();
    assert_eq!(iter.len(), 4);
    assert_eq!(texts(&mut iter).len(), 4);
    assert_eq!(iter.len(), 0);
    assert!(iter.next().is_none());
    // The count goes up with every call, also with the ones that hand out
    // nothing: four entries, the call that ended the loop, and the last one.
    assert_eq!(iter.count, 6);
}

#[test]
fn entry_carries_its_number_and_beginning() {
    let mut iter = SrtGenerator::default().open(&garmin_g1("m")).unwrap();
    assert_eq!(iter.previous_time(), TimeDelta::milliseconds(0));
    let (index, begin, _) = iter.next().unwrap();
    assert_eq!((index, begin), (1, TimeDelta::milliseconds(0)));
    assert_eq!(iter.previous_time(), TimeDelta::milliseconds(1000));
    let (index, begin, _) = iter.next().unwrap();
    assert_eq!((index, begin), (2, TimeDelta::milliseconds(1000)));
}

#[test]
fn time_format_keeps_components() {
    let span = ((25 * 60 + 1) * 60 + 2) * 1000 + 3;
    assert_eq!(delta_srt_format(&TimeDelta::milliseconds(span)), "25:01:02,003");
    assert_eq!(delta_srt_format(&TimeDelta::milliseconds(59_999)), "00:00:59,999");
    assert_eq!(delta_srt_format(&TimeDelta::milliseconds(3_599_999)), "00:59:59,999");
}

#[test]
fn time_format_does_not_wrap_hours() {
    assert_eq!(delta_srt_format(&TimeDelta::milliseconds(100 * 3_600_000)), "100:00:00,000");
    assert_eq!(
        delta_srt_format(&TimeDelta::milliseconds(i64::MAX)),
        "2562047788015:12:55,807"
    );
}

#[test]
fn time_format_of_negative_spans() {
    assert_eq!(delta_srt_format(&TimeDelta::milliseconds(-1)), "00:00:00,0-1");
    assert_eq!(delta_srt_format(&TimeDelta::milliseconds(-3_723_004)), "-1:-2:-3,0-4");
    assert_eq!(delta_srt_format(&TimeDelta::milliseconds(-500)), "00:00:00,-500");
}

#[test]
fn time_delta_arithmetic() {
    assert_eq!(TimeDelta::try_seconds(5), Some(TimeDelta::milliseconds(5000)));
    assert_eq!(TimeDelta::try_seconds(i64::MAX), None);
    assert_eq!(TimeDelta::try_seconds(9_223_372_036_854_775).map(|d| d.num_seconds()),
        Some(9_223_372_036_854_775));
    assert_eq!(TimeDelta::try_seconds(-9_223_372_036_854_776), None);
    let span = TimeDelta::milliseconds(-3_723_004);
    assert_eq!(span.num_milliseconds(), -3_723_004);
    assert_eq!(span.num_seconds(), -3723);
    assert_eq!(span.num_minutes(), -62);
    assert_eq!(span.num_hours(), -1);
    assert_eq!(
        TimeDelta::milliseconds(7).checked_add(&TimeDelta::milliseconds(8)),
        Some(TimeDelta::milliseconds(15))
    );
    assert_eq!(TimeDelta::milliseconds(i64::MAX).checked_add(&TimeDelta::milliseconds(1)), None);
}

#[test]
fn constant_value_yields_no_event() {
    let records = vec![
        sample(0, 1540, "m"),
        sample(1, 1540, "m"),
        sample(2, 1540, "m"),
        sample(3, 1540, "m"),
    ];
    let mut iter = SrtGenerator::default().open(&records).unwrap();
    assert_eq!(iter.len(), 0);
    assert!(iter.next().is_none());
}

#[test]
fn change_yields_exactly_one_event() {
    let records = vec![
        sample(0, 1540, "m"),
        sample(1, 1760, "m"),
        sample(2, 1760, "m"),
        sample(3, 1760, "m"),
    ];
    let mut iter = SrtGenerator::default().open(&records).unwrap();
    assert_eq!(texts(&mut iter), vec!["1\n00:00:00,000 --> 00:00:01,000\n1.8m".to_string()]);
}

#[test]
fn change_of_one_tick_is_not_shown() {
    // 1.5 is shown; 1.6 and 1.4 are one tick away, 1.7 is two.
    let records = vec![
        sample(0, 1000, "m"),
        sample(1, 1500, "m"),
        sample(2, 1600, "m"),
        sample(3, 1400, "m"),
        sample(4, 1650, "m"),
    ];
    let mut iter = SrtGenerator::default().open(&records).unwrap();
    assert_eq!(
        texts(&mut iter),
        vec![
            "1\n00:00:00,000 --> 00:00:01,000\n1.5m".to_string(),
            "2\n00:00:01,000 --> 00:00:04,000\n1.7m".to_string(),
        ]
    );
}

#[test]
fn baseline_is_the_unrounded_first_value() {
    // 1.16 rounds to 1.2, which is less than a tick from 1.14 but more than
    // a tick from 1.09.
    let near = vec![sample(0, 1140, "m"), sample(1, 1160, "m")];
    assert_eq!(SrtGenerator::default().open(&near).unwrap().len(), 0);
    let far = vec![sample(0, 1090, "m"), sample(1, 1160, "m")];
    let mut iter = SrtGenerator::default().open(&far).unwrap();
    assert_eq!(texts(&mut iter), vec!["1\n00:00:00,000 --> 00:00:01,000\n1.2m".to_string()]);
}

#[test]
fn halves_round_upward() {
    let records = vec![sample(0, 0, "m"), sample(1, 1250, "m"), sample(2, 12_049, "m")];
    let mut iter = SrtGenerator::default().open(&records).unwrap();
    assert_eq!(
        texts(&mut iter),
        vec![
            "1\n00:00:00,000 --> 00:00:01,000\n1.3m".to_string(),
            "2\n00:00:01,000 --> 00:00:02,000\n12.0m".to_string(),
        ]
    );
}

#[test]
fn unit_comes_from_the_first_field_that_has_one() {
    let records = vec![sample(0, 1000, ""), sample(1, 2000, "ft"), sample(2, 3000, "m")];
    let mut iter = SrtGenerator::default().open(&records).unwrap();
    assert_eq!(
        texts(&mut iter),
        vec![
            "1\n00:00:00,000 --> 00:00:01,000\n2.0ft".to_string(),
            "2\n00:00:01,000 --> 00:00:02,000\n3.0ft".to_string(),
        ]
    );
}

#[test]
fn samples_up_to_after_time_are_dropped() {
    // As with `-a 03:10:00`: the sample at 03:10:00 itself is left out.
    let mut generator = SrtGenerator::default();
    generator.after_hour(3);
    generator.after_minute(10);
    generator.after_second(0);
    let mut iter = generator.open(&garmin_g1("m")).unwrap();
    assert_eq!(
        texts(&mut iter),
        vec![
            "1\n00:00:00,000 --> 00:00:01,000\n1.7m".to_string(),
            "2\n00:00:01,000 --> 00:00:02,000\n2.0m".to_string(),
            "3\n00:00:02,000 --> 00:00:05,000\n1.8m".to_string(),
        ]
    );
}

#[test]
fn after_time_counts_only_before_the_window() {
    // Once a sample was inside the window, an earlier time of day is no
    // reason to drop one.
    let mut late = Record::new(RecordKind::Other);
    late.push(Field::new("timestamp", Value::Timestamp(moment(1_000_010, 100)), "s"));
    late.push(Field::new("depth", Value::Decimal(5000), "m"));
    let mut generator = SrtGenerator::default();
    generator.after_second(MORNING - 1);
    let records = vec![sample(0, 1000, "m"), late];
    let mut iter = generator.open(&records).unwrap();
    assert_eq!(texts(&mut iter), vec!["1\n00:00:00,000 --> 00:00:10,000\n5.0m".to_string()]);
}

#[test]
fn sample_past_before_time_ends_the_pass() {
    // As with `-a 03:10:00 -b 03:10:05`, but for what follows the cut.
    let mut generator = SrtGenerator::default();
    generator.after_hour(3);
    generator.after_minute(10);
    generator.before_hour(3);
    generator.before_minute(10);
    generator.before_second(5);
    let mut iter = generator.open(&garmin_g1("m")).unwrap();
    assert_eq!(
        texts(&mut iter),
        vec![
            "1\n00:00:00,000 --> 00:00:01,000\n1.7m".to_string(),
            "2\n00:00:01,000 --> 00:00:02,000\n2.0m".to_string(),
        ]
    );
}

#[test]
fn nothing_is_read_after_the_cut() {
    let mut early = Record::new(RecordKind::Other);
    early.push(Field::new("timestamp", Value::Timestamp(moment(1_000_020, 50)), "s"));
    early.push(Field::new("depth", Value::Decimal(9000), "m"));
    let mut session = Record::new(RecordKind::Session);
    session.push(Field::new("avg_temperature", Value::SInt8(20), "C"));
    let mut broken = Record::new(RecordKind::DiveSummary);
    broken.push(Field::new("avg_depth", Value::Decimal(1), "fathom"));
    let mut generator = SrtGenerator::default();
    generator.before_second(MORNING + 1);
    let records = vec![
        sample(0, 1000, "m"),
        sample(1, 2000, "m"),
        sample(2, 3000, "m"),
        early,
        session,
        broken,
    ];
    let mut iter = generator.open(&records).unwrap();
    assert!(iter.summary.is_empty());
    assert_eq!(texts(&mut iter), vec!["1\n00:00:00,000 --> 00:00:01,000\n2.0m".to_string()]);
}

#[test]
fn before_time_of_zero_cuts_nothing() {
    let mut generator = SrtGenerator::default();
    generator.before_hour(0);
    generator.before_minute(0);
    generator.before_second(0);
    assert_eq!(generator.open(&garmin_g1("m")).unwrap().len(), 4);
}

#[test]
fn sample_needs_timestamp_and_value() {
    let mut no_time = Record::new(RecordKind::Other);
    no_time.push(Field::new("depth", Value::Decimal(9000), "m"));
    let mut no_depth = Record::new(RecordKind::Other);
    no_depth.push(Field::new(
        "timestamp",
        Value::Timestamp(moment(1_000_001, MORNING + 1)),
        "s",
    ));
    no_depth.push(Field::new("temperature", Value::SInt8(20), "C"));
    let mut wrong_types = Record::new(RecordKind::Other);
    wrong_types.push(Field::new("timestamp", Value::SInt32(7), "s"));
    wrong_types.push(Field::new("depth", Value::SInt32(9000), "m"));
    let records = vec![sample(0, 1000, "m"), no_time, no_depth, wrong_types, sample(5, 3000, "m")];
    let mut iter = SrtGenerator::default().open(&records).unwrap();
    assert_eq!(texts(&mut iter), vec!["1\n00:00:00,000 --> 00:00:05,000\n3.0m".to_string()]);
}

#[test]
fn start_time_moves_the_entries() {
    // The video began at 03:09:50, ten seconds before the first sample.
    let mut generator = SrtGenerator::default();
    generator.starting_hour(3);
    generator.starting_minute(9);
    generator.starting_second(50);
    let records = vec![sample(0, 1000, "m"), sample(2, 2000, "m"), sample(3, 3000, "m")];
    let mut iter = generator.open(&records).unwrap();
    // The events lie 12 and 13 seconds after the beginning of the video;
    // the ten seconds that the pass carries are added to every time.
    let (index, begin, srt) = iter.next().unwrap();
    assert_eq!((index, begin), (1, TimeDelta::milliseconds(10_000)));
    assert_eq!(srt, "1\n00:00:10,000 --> 00:00:22,000\n2.0m");
    let (index, begin, srt) = iter.next().unwrap();
    assert_eq!((index, begin), (2, TimeDelta::milliseconds(22_000)));
    assert_eq!(srt, "2\n00:00:22,000 --> 00:00:23,000\n3.0m");
}

#[test]
fn start_time_after_the_first_sample_carries_a_negative_time() {
    let mut generator = SrtGenerator::default();
    generator.starting_second(MORNING + 4);
    let records = vec![sample(0, 1000, "m"), sample(9, 2000, "m")];
    let mut iter = generator.open(&records).unwrap();
    let (_, begin, srt) = iter.next().unwrap();
    assert_eq!(begin, TimeDelta::milliseconds(-4000));
    assert_eq!(srt, "1\n00:00:-4,000 --> 00:00:01,000\n2.0m");
}

#[test]
fn concat_takes_up_number_and_time() {
    let generator = SrtGenerator::default();
    let mut first = generator.open(&garmin_g1("m")).unwrap();
    let mut last = None;
    while let Some((count, begin, _)) = first.next() {
        last = Some((count, begin));
    }
    let (count, begin) = last.unwrap();
    assert_eq!((count, begin), (4, TimeDelta::milliseconds(3000)));
    let mut second = generator.concat(count, begin, &garmin_g1("m")).unwrap();
    let (index, time, srt) = second.next().unwrap();
    assert_eq!(index, 5);
    assert_eq!(time, TimeDelta::milliseconds(3000));
    assert_eq!(srt, "5\n00:00:03,000 --> 00:00:04,000\n1.5m");
    let (index, time, srt) = second.next().unwrap();
    assert_eq!((index, time), (6, TimeDelta::milliseconds(4000)));
    assert_eq!(srt, "6\n00:00:04,000 --> 00:00:05,000\n1.7m");
}

#[test]
fn statistics_are_gathered() {
    let mut session = Record::new(RecordKind::Session);
    session.push(Field::new("start_position_lat", Value::SInt32(261_000_001), "semicircles"));
    session.push(Field::new("start_position_long", Value::SInt32(-1_440_000_003), "semicircles"));
    session.push(Field::new("end_position_lat", Value::SInt32(261_000_005), "semicircles"));
    session.push(Field::new("end_position_long", Value::SInt32(-1_440_000_001), "semicircles"));
    session.push(Field::new("total_elapsed_time", Value::Decimal(1), "s"));
    session.push(Field::new("total_elapsed_time", Value::Decimal(2_400_500), "s"));
    session.push(Field::new("avg_temperature", Value::SInt8(31), "C"));
    session.push(Field::new("min_temperature", Value::SInt8(-2), "C"));
    session.push(Field::new("max_temperature", Value::SInt8(35), "K"));
    let mut dive = Record::new(RecordKind::DiveSummary);
    dive.push(Field::new("avg_depth", Value::Decimal(4248), "m"));
    dive.push(Field::new("max_depth", Value::Decimal(8908), "m"));
    dive.push(Field::new("avg_depth", Value::SInt32(1), "furlong"));
    let iter = SrtGenerator::default().open(&vec![session, dive]).unwrap();
    let summary = iter.summary;
    // Each half is rounded toward zero before the two are added.
    assert_eq!(summary.location, (Some(130_500_000 + 130_500_002), Some(-720_000_001 - 720_000_000)));
    assert_eq!(summary.time, 2_400_500);
    assert_eq!(summary.avg_temperature, Some(31));
    assert_eq!(summary.min_temperature, Some(-2));
    assert_eq!(summary.avg_depth, Some(4248));
    assert_eq!(summary.max_depth, Some(8908));
    assert!(!summary.is_empty());
    assert_eq!(iter.len(), 0);
}

#[test]
fn statistics_fields_count_only_in_their_records() {
    let mut session = Record::new(RecordKind::Session);
    session.push(Field::new("avg_depth", Value::Decimal(4248), "m"));
    let mut dive = Record::new(RecordKind::DiveSummary);
    dive.push(Field::new("avg_temperature", Value::SInt8(31), "C"));
    let mut other = Record::new(RecordKind::Other);
    other.push(Field::new("avg_temperature", Value::SInt8(31), "C"));
    let iter = SrtGenerator::default().open(&vec![session, dive, other]).unwrap();
    assert!(iter.summary.is_empty());
}

#[test]
fn unknown_unit_fails_the_pass() {
    let mut dive = Record::new(RecordKind::DiveSummary);
    dive.push(Field::new("max_depth", Value::Decimal(8908), "ft"));
    let records = vec![sample(0, 1000, "m"), sample(1, 2000, "m"), dive];
    match SrtGenerator::default().open(&records) {
        Err(Fit2SrtError::MergeError(text)) => assert_eq!(text, "unsupport unit: ft"),
        _ => panic!("the pass should fail on the unit"),
    }
    let mut session = Record::new(RecordKind::Session);
    session.push(Field::new("min_temperature", Value::SInt8(3), "F"));
    match SrtGenerator::default().concat(3, TimeDelta::milliseconds(5), &vec![session]) {
        Err(e) => assert_eq!(e.message(), "Can not merge: `unsupport unit: F`"),
        Ok(_) => panic!("the pass should fail on the unit"),
    }
}

#[test]
fn time_of_day_in_seconds() {
    assert_eq!(Timestamp::new(0, 0, 0, 0).seconds_of_day(), 0);
    assert_eq!(Timestamp::new(9, 3, 10, 5).seconds_of_day(), 11_405);
    assert_eq!(Timestamp::new(9, 23, 59, 60).seconds_of_day(), 86_400);
    assert_eq!(Timestamp::new(9, 255, 255, 255).seconds_of_day(), 255 * 3661);
}

#[test]
fn times_of_day_are_taken_as_they_come() {
    // Nothing holds hours to 24 or minutes to 60: 30 h 61 min is a time
    // like any other, and no sample of a day is past it.
    let mut generator = SrtGenerator::default();
    generator.after_hour(30);
    generator.after_minute(61);
    assert_eq!(generator.open(&garmin_g1("m")).unwrap().len(), 0);
    let mut generator = SrtGenerator::default();
    generator.before_hour(30);
    generator.before_minute(61);
    assert_eq!(generator.open(&garmin_g1("m")).unwrap().len(), 4);
    // Settings add up.
    let mut generator = SrtGenerator::default();
    generator.after_second(MORNING - 60);
    generator.after_minute(1);
    generator.after_second(1);
    assert_eq!(generator.open(&garmin_g1("m")).unwrap().len(), 2);
}

#[test]
fn events_keep_the_order_of_the_samples() {
    let records = vec![
        sample(0, 1000, "m"),
        sample(2, 2000, "m"),
        sample(5, 3000, "m"),
        sample(5, 4000, "m"),
        sample(9, 5000, "m"),
    ];
    let mut iter = SrtGenerator::default().open(&records).unwrap();
    let mut begins = Vec::new();
    while let Some((_, begin, _)) = iter.next() {
        begins.push(begin.num_milliseconds());
    }
    assert_eq!(begins, vec![0, 2000, 5000, 5000]);
    assert_eq!(iter.previous_time(), fit2srt_core::TimeDelta::milliseconds(9000));
}
