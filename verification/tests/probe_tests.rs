use ordering_probe::channel_data::ChannelData;
use ordering_probe::dummy_data::DummyData;
use ordering_probe::log_name::{log_file_name, ClockReading};
use ordering_probe::pattern::{Matcher, ESCAPE_CLASS_PATTERN};
use ordering_probe::probe::{
    is_report_round, message_passing_outcome, store_buffer_outcome, Outcome,
};
use ordering_probe::records::{
    message_passing_closing_record, message_passing_reorder_record,
    message_passing_summary_record, store_buffer_record,
};

#[test]
fn channel_data_from_text() {
    assert_eq!(ChannelData::from("abc").into_payload(), Some("abc".to_string()));
    assert_eq!(
        ChannelData::from("xyz".to_string()).into_payload(),
        Some("xyz".to_string())
    );
    assert_eq!(ChannelData::Terminate.into_payload(), None);
}

#[test]
fn dummy_data_counts_writes() {
    let d = DummyData::new();
    assert_eq!(d.dummy_read(), 0);
    d.dummy_write();
    assert_eq!(d.dummy_read(), 8);
    d.dummy_write();
    d.dummy_write();
    assert_eq!(d.dummy_read(), 24);
}

#[test]
fn report_rounds() {
    assert!(is_report_round(0));
    assert!(!is_report_round(1));
    assert!(!is_report_round(0x7fff));
    assert!(is_report_round(0x8000));
    assert!(is_report_round(0x8000 * 99));
    assert!(!is_report_round(0x8000 * 99 + 5));
}

#[test]
fn outcomes() {
    assert_eq!(store_buffer_outcome(true, true), Outcome::Unordered);
    assert_eq!(store_buffer_outcome(true, false), Outcome::Ordered);
    assert_eq!(store_buffer_outcome(false, true), Outcome::Ordered);
    assert_eq!(store_buffer_outcome(false, false), Outcome::Ordered);
    assert_eq!(message_passing_outcome(7, 7), Outcome::Ordered);
    assert_eq!(message_passing_outcome(7, 6), Outcome::Unordered);
}

#[test]
fn store_buffer_lines() {
    assert_eq!(
        store_buffer_record(32768, "summary", "x86_64", "41.25", 32760, 8),
        "{\"count\":32768,\"cat\":\"summary\",\"type\":\"x86_64\",\"temp\":41.25,\"ordered\":32760,\"unordered\":8}\n"
    );
    assert_eq!(
        store_buffer_record(0, "immd", "x86_64", "0.00", 0, 1),
        "{\"count\":0,\"cat\":\"immd\",\"type\":\"x86_64\",\"temp\":0.00,\"ordered\":0,\"unordered\":1}\n"
    );
}

#[test]
fn message_passing_lines() {
    assert_eq!(
        message_passing_summary_record("38.50", 10, 2),
        "{cat:\"summary\",type:\"aarch\",temp:38.50,ordered:10,unordered:2}\n"
    );
    assert_eq!(
        message_passing_closing_record("38.50", 10, 2),
        "{cat:\"summary\",type:\"aarch\",temp:38.50,ordered:10,unordered:2}\n\t\t"
    );
    assert_eq!(
        message_passing_reorder_record("39.00", 2, 3276700, 15, 14),
        "{\"cat:\"immd\",type:\"aarch\",\"temp\":39.00,\"id\":2,\"size\":3276700,\"i\":15,\"observed\":14}\n"
    );
}

#[test]
fn clock_readings() {
    assert!(ClockReading::new(2024, 2, 29, 23, 59).is_some());
    assert!(ClockReading::new(2023, 2, 29, 0, 0).is_none());
    assert!(ClockReading::new(1900, 2, 29, 0, 0).is_none());
    assert!(ClockReading::new(2000, 2, 29, 0, 0).is_some());
    assert!(ClockReading::new(2024, 4, 31, 0, 0).is_none());
    assert!(ClockReading::new(2024, 13, 1, 0, 0).is_none());
    assert!(ClockReading::new(2024, 1, 0, 0, 0).is_none());
    assert!(ClockReading::new(2024, 1, 1, 24, 0).is_none());
    assert!(ClockReading::new(2024, 1, 1, 0, 60).is_none());
    assert!(ClockReading::new(-4, 2, 29, 0, 0).is_some());
    assert!(ClockReading::new(262143, 1, 1, 0, 0).is_none());
}

#[test]
fn log_file_names() {
    let r = ClockReading::new(2024, 3, 7, 9, 5).unwrap();
    assert_eq!(log_file_name("./log", &r), "./log24_03_07_09_05.txt");
    let r = ClockReading::new(1999, 12, 31, 23, 59).unwrap();
    assert_eq!(log_file_name("", &r), "99_12_31_23_59.txt");
    let r = ClockReading::new(-1, 1, 1, 0, 0).unwrap();
    assert_eq!(log_file_name("p", &r), "p99_01_01_00_00.txt");
}

#[test]
fn escape_class_matcher() {
    let m = Matcher::new(ESCAPE_CLASS_PATTERN).unwrap();
    assert!(m.is_match(r"\r"));
    assert!(m.is_match("a\tb"));
    assert!(m.is_match("\x0c"));
    assert!(!m.is_match("plain"));
    assert!(!m.is_match("\n"));
    assert!(Matcher::new("foo(bar").is_err());
}
