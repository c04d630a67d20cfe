use gst_log_parser::{DebugLevel, Entry, ParsingError, TimestampField};

#[test]
fn full_line() {
    let line = "00:00:00.007773544  8874 0x558951015c00 INFO GST_INIT gst.c:510:init_pre:<allocatorsysmem0> some message";
    let entry = Entry::new(line).expect("line should parse");
    assert_eq!(entry.ts, 7773544);
    assert_eq!(entry.pid, 8874);
    assert_eq!(entry.thread, "0x558951015c00");
    assert_eq!(entry.level, DebugLevel::Info);
    assert_eq!(entry.category, "GST_INIT");
    assert_eq!(entry.file, "gst.c");
    assert_eq!(entry.line, 510);
    assert_eq!(entry.function, "init_pre");
    assert_eq!(entry.object, Some("allocatorsysmem0".to_string()));
    assert_eq!(entry.message, "some message");
}

#[test]
fn empty_object() {
    let line = "00:00:00.007773544  8874 0x558951015c00 INFO GST_INIT gst.c:510:init_pre:<> msg";
    let entry = Entry::new(line).expect("line should parse");
    assert_eq!(entry.object, None);
    assert_eq!(entry.message, "msg");
}

#[test]
fn timestamp_value() {
    let line = "1:02:03.000000004  1 t INFO c f.c:1:f:<> m";
    let entry = Entry::new(line).expect("line should parse");
    assert_eq!(
        entry.ts,
        (1 * 3600 + 2 * 60 + 3) * 1_000_000_000u64 + 4
    );
}

#[test]
fn every_level_symbol() {
    let cases = [
        ("ERROR", DebugLevel::Error),
        ("WARN", DebugLevel::Warning),
        ("FIXME", DebugLevel::Fixme),
        ("INFO", DebugLevel::Info),
        ("DEBUG", DebugLevel::Debug),
        ("LOG", DebugLevel::Log),
        ("TRACE", DebugLevel::Trace),
        ("MEMDUMP", DebugLevel::Memdump),
    ];
    for (symbol, level) in cases.iter() {
        let line = format!(
            "00:00:00.000000001  1 thread {} cat f.c:2:fun:<> hello",
            symbol
        );
        let entry = Entry::new(&line).expect("line should parse");
        assert_eq!(entry.level, *level);
    }
}

#[test]
fn levels_order_by_verbosity() {
    assert!(DebugLevel::Error < DebugLevel::Warning);
    assert!(DebugLevel::Warning < DebugLevel::Fixme);
    assert!(DebugLevel::Fixme < DebugLevel::Info);
    assert!(DebugLevel::Info < DebugLevel::Debug);
    assert!(DebugLevel::Debug < DebugLevel::Log);
    assert!(DebugLevel::Log < DebugLevel::Trace);
    assert!(DebugLevel::Trace < DebugLevel::Memdump);
}

#[test]
fn pid_overflow_is_invalid() {
    let line = "00:00:00.007773544  99999999999999999999 t INFO c f.c:1:f:<> m";
    match Entry::new(line) {
        Ok(_) => assert!(false),
        Err(e) => assert_eq!(
            e,
            ParsingError::InvalidPID {
                pid: "99999999999999999999".to_string(),
            }
        ),
    };
}

#[test]
fn line_number_overflow_is_invalid() {
    let line = "00:00:00.007773544  1 t INFO c f.c:4294967296:f:<> m";
    match Entry::new(line) {
        Ok(_) => assert!(false),
        Err(e) => assert_eq!(
            e,
            ParsingError::InvalidLineNumber {
                line: "4294967296".to_string(),
            }
        ),
    };
}

#[test]
fn subsecond_missing_dot() {
    let line = "0:00:00  1 t INFO c f.c:1:f:<> m";
    match Entry::new(line) {
        Ok(_) => assert!(false),
        Err(e) => assert_eq!(
            e,
            ParsingError::MissingToken {
                t: gst_log_parser::Token::Timestamp {
                    field: Some(TimestampField::SubSecond)
                },
            }
        ),
    };
}

#[test]
fn location_with_colons_in_object() {
    let line = "00:00:00.000000001  1 t DEBUG c f.c:7:fun:<a:b:c> tail";
    let entry = Entry::new(line).expect("line should parse");
    assert_eq!(entry.function, "fun");
    assert_eq!(entry.object, Some("a:b:c".to_string()));
}
