use klia_store::relay::{
    forward_event, split_at_line_feeds, split_output_chunk, CommandEvent, InstallEvent,
};

fn bytes(v: &Vec<Vec<u8>>) -> Vec<&[u8]> {
    v.iter().map(|p| p.as_slice()).collect()
}

#[test]
fn carriage_returns_without_line_feed_are_one_event() {
    let chunk = b"Downloading 10%\rDownloading 55%\rDownloading 100%";
    let events = split_output_chunk(chunk);
    assert_eq!(bytes(&events), vec![&chunk[..]]);
}

#[test]
fn two_line_feeds_with_empty_tail_are_two_events() {
    let events = split_output_chunk(b"first\r\nsecond\n");
    assert_eq!(bytes(&events), vec![&b"first\r"[..], &b"second"[..]]);
}

#[test]
fn two_line_feeds_with_tail_are_three_events() {
    let events = split_output_chunk(b"a\nb\nc");
    assert_eq!(bytes(&events), vec![&b"a"[..], &b"b"[..], &b"c"[..]]);
}

#[test]
fn empty_pieces_are_not_forwarded() {
    assert!(split_output_chunk(b"").is_empty());
    assert!(split_output_chunk(b"\n\n").is_empty());
    assert_eq!(bytes(&split_output_chunk(b"\n\nx\n\n")), vec![&b"x"[..]]);
}

#[test]
fn pieces_between_line_feeds_include_empty_ones() {
    let parts = split_at_line_feeds(b"a\n\nb\n");
    assert_eq!(bytes(&parts), vec![&b"a"[..], &b""[..], &b"b"[..], &b""[..]]);
}

#[test]
fn events_agree_with_splitting_lossy_text() {
    let chunk: &[u8] = b"caf\xc3\xa9\n\xff\xfe\rx\n\xc3";
    let events = split_output_chunk(chunk);
    let got: Vec<String> =
        events.iter().map(|e| String::from_utf8_lossy(e).to_string()).collect();
    let text = String::from_utf8_lossy(chunk).to_string();
    let want: Vec<String> =
        text.split('\n').filter(|l| !l.is_empty()).map(|l| l.to_string()).collect();
    assert_eq!(got, want);
}

fn emitted(event: CommandEvent) -> (Option<String>, Option<i32>, bool, bool) {
    let f = forward_event(event);
    match f.emit {
        Some(InstallEvent::Output(s)) => (Some(s), None, false, f.done),
        Some(InstallEvent::Error(s)) => (Some(s), None, true, f.done),
        Some(InstallEvent::Completed(c)) => (None, Some(c), false, f.done),
        None => (None, None, false, f.done),
    }
}

#[test]
fn lines_of_both_streams_are_progress() {
    assert_eq!(
        emitted(CommandEvent::OutputLine("out".to_string())),
        (Some("out".to_string()), None, false, false)
    );
    assert_eq!(
        emitted(CommandEvent::ErrorLine("err".to_string())),
        (Some("err".to_string()), None, false, false)
    );
}

#[test]
fn failure_is_reported_as_error_and_does_not_end_the_stream() {
    assert_eq!(
        emitted(CommandEvent::Failed("boom".to_string())),
        (Some("boom".to_string()), None, true, false)
    );
    assert_eq!(emitted(CommandEvent::Spawned), (None, None, false, false));
}

#[test]
fn termination_reports_the_exit_code_and_ends_the_stream() {
    assert_eq!(emitted(CommandEvent::Terminated(Some(0))), (None, Some(0), false, true));
    assert_eq!(emitted(CommandEvent::Terminated(Some(3))), (None, Some(3), false, true));
    assert_eq!(emitted(CommandEvent::Terminated(None)), (None, Some(-1), false, true));
}
