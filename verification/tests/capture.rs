use knit::capture::{tee_and_capture, BoundedCapture, LiveOutput, Tee, TRUNCATION_NOTICE};

#[test]
fn bounded_capture_keeps_only_the_tail() {
    let mut capture = BoundedCapture::new(5);
    capture.push(b"abc");
    capture.push(b"defgh");
    let output = capture.into_string();
    assert!(output.starts_with(TRUNCATION_NOTICE));
    assert!(output.ends_with("defgh"));
    assert!(!output.ends_with("abcdefgh"));
}

struct ClosedWriter;

impl LiveOutput for ClosedWriter {
    fn write_chunk(&mut self, _chunk: &[u8]) -> bool {
        false
    }
}

#[test]
fn tee_keeps_capturing_after_the_live_writer_closes() {
    let output = tee_and_capture(&vec![b"complete output".to_vec()], &mut ClosedWriter);
    assert_eq!(output, "complete output");
}

struct Recorder {
    written: Vec<u8>,
    fail_after: usize,
}

impl LiveOutput for Recorder {
    fn write_chunk(&mut self, chunk: &[u8]) -> bool {
        if self.fail_after == 0 {
            return false;
        }
        self.fail_after -= 1;
        self.written.extend_from_slice(chunk);
        true
    }
}

#[test]
fn tee_stops_writing_live_after_the_first_failure() {
    let mut live = Recorder { written: Vec::new(), fail_after: 1 };
    let chunks = vec![b"one ".to_vec(), b"two ".to_vec(), b"three".to_vec()];
    let output = tee_and_capture(&chunks, &mut live);
    assert_eq!(output, "one two three");
    assert_eq!(live.written, b"one ".to_vec());
}

#[test]
fn capture_below_the_limit_keeps_everything_without_notice() {
    let mut capture = BoundedCapture::new(10);
    capture.push(b"abc");
    capture.push(b"def");
    assert_eq!(capture.into_string(), "abcdef");
}

#[test]
fn a_chunk_as_long_as_the_limit_marks_truncation() {
    let mut capture = BoundedCapture::new(3);
    capture.push(b"xyz");
    let output = capture.into_string();
    assert_eq!(output, format!("{TRUNCATION_NOTICE}xyz"));
}

#[test]
fn chunked_and_whole_pushes_keep_the_same_tail() {
    let mut chunked = BoundedCapture::new(4);
    chunked.push(b"ab");
    chunked.push(b"cde");
    chunked.push(b"f");
    let mut whole = BoundedCapture::new(4);
    whole.push(b"abcdef");
    assert_eq!(chunked.into_string(), whole.into_string());
}

#[test]
fn invalid_utf8_is_replaced() {
    let mut capture = BoundedCapture::new(8);
    capture.push(&[b'a', 0xff, b'b']);
    assert_eq!(capture.into_string(), "a\u{FFFD}b");
}

#[test]
fn tee_state_reports_forwarding() {
    let mut tee = Tee::new(16);
    assert!(tee.take_chunk(b"x"));
    tee.live_failed();
    assert!(!tee.take_chunk(b"y"));
    assert_eq!(tee.finish(), "xy");
}
