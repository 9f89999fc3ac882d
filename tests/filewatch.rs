use tailor::cadence::{ACTIVE_WATCH_TIMEOUT_MS, STANDBY_WATCH_TIMEOUT_MS};
use tailor::events::WatchEvent;
use tailor::filewatch::{FileWatch, ReadError, ReadRequest};
use tailor::message::Message;

fn file_bytes(lines: &[String]) -> Vec<u8> {
    let mut bytes = Vec::new();
    for s in lines {
        bytes.extend_from_slice(s.as_bytes());
        bytes.push(b'\n');
    }
    bytes
}

/// Runs one read cycle on a file whose whole content is `file`.
fn cycle(watch: &mut FileWatch, file: &[u8]) -> Option<Message> {
    match watch.begin_read(Some(file.len() as u64)) {
        ReadRequest::ReadFrom { offset, len } => {
            let start = offset as usize;
            let end = start + len as usize;
            watch.complete_read(&file[start..end]).unwrap()
        }
        _ => None,
    }
}

fn new_lines(msg: Option<Message>) -> Vec<String> {
    match msg {
        Some(Message::NewLines(lines)) => lines,
        other => panic!("expected a batch of lines, got {:?}", other),
    }
}

#[test]
fn initial_read() {
    let contents = vec![String::from("Line1"), String::from("Line2")];
    let file = file_bytes(&contents);
    let mut watch = FileWatch::new("initial_read.txt");

    let initial_read = cycle(&mut watch, &file);
    assert_eq!(initial_read.is_some(), true);

    let read_contents = new_lines(initial_read);
    assert_eq!(read_contents.len(), contents.len());
    for line in 0..read_contents.len() {
        assert_eq!(read_contents[line], contents[line]);
    }
}

#[test]
fn new_content() {
    let contents = vec![String::from("Line1"), String::from("Line2")];
    let mut file = file_bytes(&contents);
    let mut watch = FileWatch::new("new_content.txt");
    let _initial_read = cycle(&mut watch, &file);

    let new_content = String::from("New content");
    file.extend_from_slice(new_content.as_bytes());

    assert_eq!(
        watch.begin_read(Some(file.len() as u64)),
        ReadRequest::ReadFrom { offset: 12, len: 11 }
    );
    let recv_contents = watch.complete_read(&file[12..]).unwrap();
    assert_eq!(recv_contents.is_some(), true);
    let msgs = new_lines(recv_contents);
    assert_eq!(msgs[0], new_content);
    assert_eq!(msgs.len(), 1);
}

#[test]
fn removed_content() {
    let contents = vec![String::from("Line1"), String::from("Line2")];
    let file = file_bytes(&contents);
    let mut watch = FileWatch::new("removed_content.txt");
    let _initial_read = cycle(&mut watch, &file);

    let new_content = String::from("New content");
    let file = new_content.as_bytes().to_vec();

    assert_eq!(
        watch.begin_read(Some(file.len() as u64)),
        ReadRequest::ReadFrom { offset: 0, len: 11 }
    );
    let recv_contents = watch.complete_read(&file).unwrap();
    assert_eq!(recv_contents.is_some(), true);
    let msgs = new_lines(recv_contents);
    assert_eq!(msgs[0], new_content);
    assert_eq!(msgs, vec![new_content]);
}

#[test]
fn removed_file() {
    let mut watch = FileWatch::new("removed_file.txt");
    assert_eq!(watch.begin_read(Some(0)), ReadRequest::UpToDate);
    assert_eq!(watch.should_exit(), false);

    assert_eq!(watch.process_event(WatchEvent::Removed), false);
    assert_eq!(watch.should_exit(), true);
}

#[test]
fn filewatch_request_exit() {
    let mut watch = FileWatch::new("removed_file.txt");
    watch.on_stop_signal(true);
    assert_eq!(watch.should_exit(), true);
}

#[test]
fn appended_line_delivered_once() {
    let mut file = b"Line1\nLine2\n".to_vec();
    let mut watch = FileWatch::new("log.txt");
    assert_eq!(new_lines(cycle(&mut watch, &file)), vec!["Line1", "Line2"]);

    file.extend_from_slice(b"Line3\n");
    assert_eq!(new_lines(cycle(&mut watch, &file)), vec!["Line3"]);
    assert_eq!(watch.begin_read(Some(file.len() as u64)), ReadRequest::UpToDate);
}

#[test]
fn truncated_file_is_read_from_start() {
    let file = b"Line1\nLine2\n".to_vec();
    let mut watch = FileWatch::new("log.txt");
    let _ = cycle(&mut watch, &file);

    // Truncated to nothing first: the cursor goes back to the start.
    assert_eq!(watch.begin_read(Some(0)), ReadRequest::UpToDate);
    let file = b"New content".to_vec();
    assert_eq!(watch.begin_read(Some(11)), ReadRequest::ReadFrom { offset: 0, len: 11 });
    let msg = watch.complete_read(&file).unwrap();
    assert_eq!(msg, Some(Message::NewLines(vec![String::from("New content")])));
}

#[test]
fn partial_line_then_terminator() {
    let mut file = b"abc".to_vec();
    let mut watch = FileWatch::new("log.txt");
    assert_eq!(new_lines(cycle(&mut watch, &file)), vec!["abc"]);
    file.extend_from_slice(b"\ndef\n");
    assert_eq!(new_lines(cycle(&mut watch, &file)), vec!["", "def"]);
}

#[test]
fn crlf_terminators_are_dropped() {
    let file = b"one\r\ntwo\r\nthree\r".to_vec();
    let mut watch = FileWatch::new("log.txt");
    assert_eq!(new_lines(cycle(&mut watch, &file)), vec!["one", "two", "three\r"]);
    assert_eq!(watch.begin_read(Some(file.len() as u64)), ReadRequest::UpToDate);
}

#[test]
fn empty_lines_are_kept() {
    let file = b"\n\nx\n".to_vec();
    let mut watch = FileWatch::new("log.txt");
    assert_eq!(new_lines(cycle(&mut watch, &file)), vec!["", "", "x"]);
}

#[test]
fn utf8_lines_are_decoded() {
    let file = "h\u{e9}llo \u{1F600}\n\u{65e5}\u{672c}\n".as_bytes().to_vec();
    let mut watch = FileWatch::new("log.txt");
    assert_eq!(new_lines(cycle(&mut watch, &file)), vec!["h\u{e9}llo \u{1F600}", "\u{65e5}\u{672c}"]);
}

#[test]
fn invalid_utf8_leaves_cursor() {
    let file = vec![b'o', b'k', b'\n', 0xff, 0xfe, b'\n'];
    let mut watch = FileWatch::new("log.txt");
    assert_eq!(watch.begin_read(Some(6)), ReadRequest::ReadFrom { offset: 0, len: 6 });
    assert_eq!(watch.complete_read(&file), Err(ReadError::InvalidUtf8));
    // Nothing was consumed: the next cycle asks for the same bytes.
    assert_eq!(watch.begin_read(Some(6)), ReadRequest::ReadFrom { offset: 0, len: 6 });
}

#[test]
fn open_failure_at_start_ends_watch() {
    let mut watch = FileWatch::new("missing.txt");
    assert_eq!(watch.begin_read(None), ReadRequest::Failed);
    assert_eq!(watch.should_exit(), true);
}

#[test]
fn open_failure_later_resets_cursor() {
    let file = b"a\nb\n".to_vec();
    let mut watch = FileWatch::new("log.txt");
    let _ = cycle(&mut watch, &file);
    assert_eq!(watch.begin_read(None), ReadRequest::Failed);
    assert_eq!(watch.should_exit(), false);
    assert_eq!(new_lines(cycle(&mut watch, &file)), vec!["a", "b"]);
}

#[test]
fn seek_failure_resets_cursor() {
    let file = b"a\nb\n".to_vec();
    let mut watch = FileWatch::new("log.txt");
    let _ = cycle(&mut watch, &file);
    let longer = b"a\nb\nc\n".to_vec();
    assert_eq!(watch.begin_read(Some(6)), ReadRequest::ReadFrom { offset: 4, len: 2 });
    watch.seek_failed();
    assert_eq!(watch.begin_read(Some(6)), ReadRequest::ReadFrom { offset: 0, len: 6 });
    assert_eq!(watch.complete_read(&longer).unwrap().is_some(), true);
}

#[test]
fn cadence_backs_off_and_resets() {
    let file = b"a\n".to_vec();
    let mut watch = FileWatch::new("log.txt");
    assert_eq!(watch.watch_timeout_ms(), STANDBY_WATCH_TIMEOUT_MS);
    let _ = cycle(&mut watch, &file);
    assert_eq!(watch.watch_timeout_ms(), ACTIVE_WATCH_TIMEOUT_MS);
    let expected = [200, 400, 800, 1600, 2000, 2000];
    for t in expected {
        assert_eq!(watch.begin_read(Some(2)), ReadRequest::UpToDate);
        assert_eq!(watch.watch_timeout_ms(), t);
    }
}

#[test]
fn events_that_read_or_end() {
    let mut watch = FileWatch::new("log.txt");
    assert_eq!(watch.process_event(WatchEvent::ContentModified), true);
    assert_eq!(watch.process_event(WatchEvent::DataModified), true);
    assert_eq!(watch.process_event(WatchEvent::CreatedFile), true);
    assert_eq!(watch.process_event(WatchEvent::CreatedOther), true);
    assert_eq!(watch.process_event(WatchEvent::TimedOut), true);
    assert_eq!(watch.process_event(WatchEvent::Other), false);
    assert_eq!(watch.should_exit(), false);
    assert_eq!(watch.process_event(WatchEvent::Renamed), false);
    assert_eq!(watch.should_exit(), true);
    assert_eq!(watch.get_path(), "log.txt");
}
