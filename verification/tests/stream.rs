use gst_log_parser::{DebugLevel, ParserIterator};

fn lines(v: &[&str]) -> Vec<String> {
    v.iter().map(|s| s.to_string()).collect()
}

#[test]
fn corrupted_leading_line_is_skipped() {
    let mut stream = ParserIterator::new(lines(&[
        "this line is garbage",
        "00:00:00.007773544  8874 0x558951015c00 INFO GST_INIT gst.c:510:init_pre:<> first",
        "00:00:00.007773545  8874 0x558951015c00 DEBUG GST_INIT gst.c:511:init_pre:<> second",
    ]));

    let first = stream.next().expect("first entry missing");
    assert_eq!(first.message, "first");
    assert_eq!(first.level, DebugLevel::Info);
    let second = stream.next().expect("second entry missing");
    assert_eq!(second.message, "second");
    assert_eq!(second.level, DebugLevel::Debug);
    assert!(stream.next().is_none());
}

#[test]
fn corrupted_middle_lines_are_skipped() {
    let mut stream = ParserIterator::new(lines(&[
        "00:00:00.000000001  1 t INFO c f.c:1:f:<> one",
        "",
        "00:00:00.000000002  1 t INFO c broken",
        "00:00:00.000000003  1 t INFO c f.c:3:f:<> two",
    ]));

    assert_eq!(stream.next().expect("entry missing").message, "one");
    assert_eq!(stream.next().expect("entry missing").message, "two");
    assert!(stream.next().is_none());
}

#[test]
fn empty_stream_yields_nothing() {
    let mut stream = ParserIterator::new(Vec::new());
    assert!(stream.next().is_none());
    assert!(stream.next().is_none());
}

#[test]
fn colored_line_parses() {
    let line = "0:00:00.000208614 \u{1b}[334m17267\u{1b}[00m \u{1b}[336m0x2192200\u{1b}[00m \u{1b}[32;01mINFO\u{1b}[00m \u{1b}[00;01;34m      GST_INIT gst.c:584:init_pre:\u{1b}[00m Initializing GStreamer Core Library version 1.13.0.1";
    let mut stream = ParserIterator::new(lines(&[line]));
    let entry = stream.next().expect("colored entry missing");
    assert_eq!(entry.ts, 208614);
    assert_eq!(entry.pid, 17267);
    assert_eq!(entry.thread, "0x2192200");
    assert_eq!(entry.level, DebugLevel::Info);
    assert_eq!(entry.category, "GST_INIT");
    assert_eq!(entry.file, "gst.c");
    assert_eq!(entry.line, 584);
    assert_eq!(entry.function, "init_pre");
    assert_eq!(entry.object, None);
    assert_eq!(
        entry.message,
        "Initializing GStreamer Core Library version 1.13.0.1"
    );
}
