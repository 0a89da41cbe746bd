use penumbra_wrapper::lines::{pump_stream, segment_line, split_stream, LineSplitter, SeenLines};

fn lines(bytes: &[u8]) -> Vec<String> {
    split_stream(&bytes.to_vec())
}

#[test]
fn line_feed_stream_is_split_trimmed_and_blank_lines_dropped() {
    assert_eq!(lines(b"  alpha \n\n beta\n   \ngamma\n"), vec!["alpha", "beta", "gamma"]);
}

#[test]
fn redrawn_line_is_published_once() {
    assert_eq!(lines(b"same\rsame\rsame\r"), vec!["same"]);
    assert_eq!(lines(b"same\r"), vec!["same"]);
}

#[test]
fn trailing_partial_line_is_published() {
    assert_eq!(lines(b"first\nlast"), vec!["first", "last"]);
    assert_eq!(lines(b"only"), vec!["only"]);
}

#[test]
fn progress_frames_are_distinct_lines() {
    assert_eq!(
        lines(b"progress: 1%\rprogress: 2%\rprogress: 100%\r"),
        vec!["progress: 1%", "progress: 2%", "progress: 100%"]
    );
}

#[test]
fn carriage_return_line_feed_makes_one_line() {
    assert_eq!(lines(b"a\r\nb\r\n"), vec!["a", "b"]);
}

#[test]
fn repeated_text_is_suppressed_across_the_stream() {
    assert_eq!(lines(b"x\ny\nx\n"), vec!["x", "y"]);
}

#[test]
fn invalid_utf8_segment_is_dropped() {
    assert_eq!(lines(b"ok\n\xff\xfe\nfine\n"), vec!["ok", "fine"]);
}

#[test]
fn empty_stream_publishes_nothing() {
    assert!(lines(b"").is_empty());
}

#[test]
fn segment_decoding_and_trimming() {
    assert_eq!(segment_line(b"  hi \t".to_vec()).as_deref(), Some("hi"));
    assert_eq!(segment_line("\u{3000}日本\u{a0}".as_bytes().to_vec()).as_deref(), Some("日本"));
    assert_eq!(segment_line(b"   ".to_vec()), None);
    assert_eq!(segment_line(vec![0xc3, 0x28]), None);
}

#[test]
fn splitter_and_seen_set_shared_between_streams() {
    let mut seen = SeenLines::new();
    let mut out = LineSplitter::new();
    let mut err = LineSplitter::new();
    for b in b"dup" {
        assert_eq!(out.push_byte(*b, &mut seen), None);
    }
    assert_eq!(out.push_byte(b'\n', &mut seen).as_deref(), Some("dup"));
    for b in b"dup" {
        err.push_byte(*b, &mut seen);
    }
    assert_eq!(err.finish(&mut seen), None);
    assert!(seen.contains(&"dup".to_string()));
    assert!(!seen.contains(&"other".to_string()));
}

#[test]
fn redraw_without_final_return_after_other_lines() {
    let mut seen = SeenLines::new();
    assert_eq!(pump_stream(&b"start\n".to_vec(), &mut seen), vec!["start"]);
    assert_eq!(pump_stream(&b"50%\r50%\r50%".to_vec(), &mut seen), vec!["50%"]);
    assert!(seen.contains(&"50%".to_string()));
    assert!(pump_stream(&b"50%\rstart\n".to_vec(), &mut seen).is_empty());
}
