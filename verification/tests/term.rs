use zm_mux::osc::{find_sub, find_terminator, parse_osc_notification, parse_osc_text, OscScanner};
use zm_mux::term::{capture_text, TermEvent, WriteCollector};

#[test]
fn osc9_notification() {
    let mut s = OscScanner::new();
    let n = s.feed(b"\x1b]9;Build done\x07");
    assert_eq!(n.len(), 1);
    assert_eq!(n[0].body, "Build done");
    assert_eq!(n[0].title, "zm-mux");
}

#[test]
fn osc777_notification_split_chunks() {
    let mut s = OscScanner::new();
    assert!(s.feed(b"\x1b]777;notify;Title").is_empty());
    let n = s.feed(b";Body text\x1b\\");
    assert_eq!(n.len(), 1);
    assert_eq!(n[0].title, "Title");
    assert_eq!(n[0].body, "Body text");
}

#[test]
fn split_escape_and_several_sequences() {
    let mut s = OscScanner::new();
    assert!(s.feed(b"plain text\x1b").is_empty());
    let n = s.feed(b"]9;one\x07mid\x1b]9;two\x1b\\\x1b]0;title\x07");
    assert_eq!(n.len(), 2);
    assert_eq!(n[0].body, "one");
    assert_eq!(n[1].body, "two");
    assert!(s.feed(b"\x1b]9;\x07").is_empty());
}

#[test]
fn osc_helpers() {
    assert_eq!(find_sub(b"abcabc", b"ca"), Some(2));
    assert_eq!(find_sub(b"abc", b""), None);
    assert_eq!(find_sub(b"ab", b"abc"), None);
    assert_eq!(find_terminator(b"ab\x07"), Some((2, 1)));
    assert_eq!(find_terminator(b"a\x1b\\"), Some((1, 2)));
    assert_eq!(find_terminator(b"a\x1b"), None);
    assert!(parse_osc_text("777;other;x").is_none());
    let n = parse_osc_text("777;notify").unwrap();
    assert_eq!((n.title.as_str(), n.body.as_str()), ("zm-mux", ""));
    let n = parse_osc_text("777;notify;T;a;b").unwrap();
    assert_eq!((n.title.as_str(), n.body.as_str()), ("T", "a;b"));
    assert!(parse_osc_notification(b"9").is_none());
    assert_eq!(parse_osc_notification(b"9;ok").unwrap().body, "ok");
}

#[test]
fn collector_keeps_answers_and_title() {
    let mut c = WriteCollector::new();
    c.send_event(TermEvent::PtyWrite("\x1b[1;1R".to_string()));
    c.send_event(TermEvent::Title("shell".to_string()));
    c.send_event(TermEvent::Other);
    assert_eq!(c.title(), Some("shell".to_string()));
    assert_eq!(c.take(), b"\x1b[1;1R".to_vec());
    assert!(c.take().is_empty());
    c.send_event(TermEvent::ResetTitle);
    assert_eq!(c.title(), None);
}

#[test]
fn capture_trims_rows() {
    let cells = vec![(0, 0, 'h'), (0, 1, 'i'), (1, 2, '\0'), (1, 3, 'x'), (5, 0, 'z'), (-1, 0, 'q'), (0, 1, 'o')];
    assert_eq!(capture_text(&cells, 4, 3), "ho\n   x\n");
    assert_eq!(capture_text(&[], 2, 0), "");
}

#[test]
fn chunked_feeding_matches_whole_feeding() {
    let data: &[u8] = b"a\x1b]9;x\x07b\x1b]777;notify;T;B\x1b\\c\x1b]9;tail";
    for cut in 0..=data.len() {
        let mut whole = OscScanner::new();
        let all = whole.feed(data);
        let mut split = OscScanner::new();
        let mut got = split.feed(&data[..cut]);
        got.extend(split.feed(&data[cut..]));
        assert_eq!(got, all, "cut at {cut}");
        assert_eq!(split.feed(b"\x07"), whole.feed(b"\x07"));
    }
}
