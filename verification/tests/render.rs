use gst_log_parser::sanitize::sanitize;
use gst_log_parser::timestamp::render_timestamp;
use gst_log_parser::Entry;

#[test]
fn sanitize_clean_line_is_identity() {
    let line = "00:00:00.007773544  8874 0x558951015c00 INFO GST_INIT gst.c:510:init_pre:<> msg";
    assert_eq!(sanitize(line), line);
    assert_eq!(sanitize(""), "");
    assert_eq!(sanitize("plain text, no escapes"), "plain text, no escapes");
}

#[test]
fn sanitize_strips_color_codes() {
    assert_eq!(sanitize("\u{1b}[32mINFO\u{1b}[0m"), "INFO");
    assert_eq!(sanitize("\u{1b}[31;01mWARN\u{1b}[00m rest"), "WARN rest");
    assert_eq!(sanitize("a\u{1b}[1;2;3mb"), "ab");
    assert_eq!(sanitize("\u{1b}[m"), "");
}

#[test]
fn sanitize_keeps_incomplete_escapes() {
    assert_eq!(sanitize("a\u{1b}[12"), "a\u{1b}[12");
    assert_eq!(sanitize("a\u{1b}x"), "a\u{1b}x");
    assert_eq!(sanitize("a\u{1b}"), "a\u{1b}");
}

#[test]
fn timestamp_rendering() {
    assert_eq!(render_timestamp(7773544), "00:00:00.007773544");
    assert_eq!(render_timestamp(0), "00:00:00.000000000");
    assert_eq!(
        render_timestamp((25 * 3600 + 59 * 60 + 7) * 1_000_000_000 + 123),
        "25:59:07.000000123"
    );
}

#[test]
fn render_round_trips() {
    let line = "00:00:00.007773544  8874 0x558951015c00 INFO GST_INIT gst.c:510:init_pre:<allocatorsysmem0> some message";
    let entry = Entry::new(line).expect("line should parse");
    let rendered = entry.display_string();
    assert_eq!(rendered, line);

    let again = Entry::new(&rendered).expect("rendered line should parse");
    assert_eq!(again.ts, entry.ts);
    assert_eq!(again.pid, entry.pid);
    assert_eq!(again.thread, entry.thread);
    assert_eq!(again.level, entry.level);
    assert_eq!(again.category, entry.category);
    assert_eq!(again.file, entry.file);
    assert_eq!(again.line, entry.line);
    assert_eq!(again.function, entry.function);
    assert_eq!(again.object, entry.object);
    assert_eq!(again.message, entry.message);
}

#[test]
fn render_no_object() {
    let line = "00:00:01.000000000  42 0xdead LOG cat file.c:9:run:<> tail text";
    let entry = Entry::new(line).expect("line should parse");
    assert_eq!(entry.display_string(), line);
}
