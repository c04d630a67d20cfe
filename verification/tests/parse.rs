use gst_log_parser::{Entry, ParsingError, TimestampField, Token};

#[test]
fn timestamps() {
    assert!(Entry::new("foo").is_err());

    let e1 = "e:00:00.007773544  8874 0x558951015c00 INFO                GST_INIT gst.c:510:init_pre: Init";
    match Entry::new(e1) {
        Ok(_) => assert!(false),
        Err(e) => assert_eq!(
            e,
            ParsingError::InvalidTimestamp {
                ts: "e:00:00.007773544".to_string(),
                field: TimestampField::Hour,
            }
        ),
    };

    let e1 = ":00:00.007773544  8874 0x558951015c00 INFO                GST_INIT gst.c:510:init_pre: Init";
    match Entry::new(e1) {
        Ok(_) => assert!(false),
        Err(e) => assert_eq!(
            e,
            ParsingError::InvalidTimestamp {
                ts: ":00:00.007773544".to_string(),
                field: TimestampField::Hour,
            }
        ),
    };

    let e1 = "8874 0x558951015c00 INFO                GST_INIT gst.c:510:init_pre: Init";
    match Entry::new(e1) {
        Ok(_) => assert!(false),
        Err(e) => assert_eq!(
            e,
            ParsingError::MissingToken {
                t: Token::Timestamp {
                    field: Some(TimestampField::Minute)
                },
            }
        ),
    };
}

#[test]
fn pid() {
    let e1 = "00:00:00.007773544 ";
    match Entry::new(e1) {
        Ok(_) => assert!(false),
        Err(e) => assert_eq!(e, ParsingError::MissingToken { t: Token::PID }),
    };

    let e1 = "00:00:00.007773544  8fuz874 0x558951015c00 INFO                GST_INIT gst.c:510:init_pre: Init";
    match Entry::new(e1) {
        Ok(_) => assert!(false),
        Err(e) => assert_eq!(
            e,
            ParsingError::InvalidPID {
                pid: "8fuz874".to_string(),
            }
        ),
    };
}

#[test]
fn thread() {
    let e1 = "00:00:00.007773544  8874 ";
    match Entry::new(e1) {
        Ok(_) => assert!(false),
        Err(e) => assert_eq!(e, ParsingError::MissingToken { t: Token::Thread }),
    };
}

#[test]
fn debug_level() {
    let e1 = "00:00:00.007773544  8874 0x558951015c00 ";
    match Entry::new(e1) {
        Ok(_) => assert!(false),
        Err(e) => assert_eq!(e, ParsingError::MissingToken { t: Token::Level }),
    };

    let e1 = "00:00:00.007773544  8874 0x558951015c00 FUZZLEVEL                GST_INIT gst.c:510:init_pre: Init";
    match Entry::new(e1) {
        Ok(_) => assert!(false),
        Err(e) => assert_eq!(
            e,
            ParsingError::InvalidDebugLevel {
                name: "FUZZLEVEL".to_string(),
            }
        ),
    };
}

#[test]
fn category() {
    let e1 = "00:00:00.007773544  8874 0x558951015c00 INFO";
    match Entry::new(e1) {
        Ok(_) => assert!(false),
        Err(e) => assert_eq!(e, ParsingError::MissingToken { t: Token::Category }),
    };
}

#[test]
fn location() {
    let e1 = "00:00:00.007773544  8874 0x558951015c00 INFO GST_INIT";
    match Entry::new(e1) {
        Ok(_) => assert!(false),
        Err(e) => assert_eq!(e, ParsingError::MissingLocation {}),
    };

    let e1 = "00:00:00.007773544  8874 0x558951015c00 INFO GST_INIT gst.c";
    match Entry::new(e1) {
        Ok(_) => assert!(false),
        Err(e) => assert_eq!(
            e,
            ParsingError::MissingToken {
                t: Token::LineNumber
            }
        ),
    };

    let e1 = "00:00:00.007773544  8874 0x558951015c00 INFO GST_INIT gst.c:fuzz";
    match Entry::new(e1) {
        Ok(_) => assert!(false),
        Err(e) => assert_eq!(
            e,
            ParsingError::InvalidLineNumber {
                line: "fuzz".to_string()
            }
        ),
    };

    let e1 = "00:00:00.007773544  8874 0x558951015c00 INFO GST_INIT gst.c:510";
    match Entry::new(e1) {
        Ok(_) => assert!(false),
        Err(e) => assert_eq!(e, ParsingError::MissingToken { t: Token::Function }),
    };

    let e1 = "00:00:00.007773544  8874 0x558951015c00 INFO GST_INIT gst.c:510:";
    match Entry::new(e1) {
        Ok(_) => assert!(false),
        Err(e) => assert_eq!(e, ParsingError::MissingToken { t: Token::Object }),
    };
}
