use mail_exchange::error::{check_written, Error};
use mail_exchange::transport::{LineBuffer, ReadStep, MAX_READS};

fn line(s: ReadStep) -> String {
    match s {
        ReadStep::Line(l) => l,
        other => panic!("expected a line, got {:?}", other),
    }
}

#[test]
fn lines_split_at_crlf() {
    let mut b = LineBuffer::new();
    assert!(matches!(b.poll(), ReadStep::Fill));
    b.feed(b"AB\r\nC").unwrap();
    assert_eq!(line(b.poll()), "AB");
    assert!(matches!(b.poll(), ReadStep::Fill));
    b.feed(b"D\r").unwrap();
    assert!(matches!(b.poll(), ReadStep::Fill));
    b.feed(b"\n\r\n").unwrap();
    assert_eq!(line(b.poll()), "CD");
    assert_eq!(line(b.poll()), "");
}

#[test]
fn bare_line_feed_is_no_terminator() {
    let mut b = LineBuffer::new();
    b.feed(b"a\nb\r\n").unwrap();
    assert_eq!(line(b.poll()), "a\nb");
}

#[test]
fn closed_channel() {
    let mut b = LineBuffer::new();
    assert!(matches!(b.feed(b""), Err(Error::ConnClosed)));
}

#[test]
fn read_limit() {
    let mut b = LineBuffer::new();
    for _ in 0..MAX_READS {
        assert!(matches!(b.poll(), ReadStep::Fill));
        b.feed(b"x").unwrap();
    }
    assert!(matches!(b.poll(), ReadStep::Timeout));
}

#[test]
fn invalid_utf8_is_replaced() {
    let mut b = LineBuffer::new();
    b.feed(&[0x61, 0xff, 0x62, 13, 10]).unwrap();
    assert_eq!(line(b.poll()), "a\u{fffd}b");
    b.feed("é\r\n".as_bytes()).unwrap();
    assert_eq!(line(b.poll()), "é");
}

#[test]
fn upgrade_discards_pending_bytes() {
    let mut b = LineBuffer::new();
    b.feed(b"STARTTLS\r\nMAIL FROM:<evil@x.com>\r\n").unwrap();
    assert_eq!(line(b.poll()), "STARTTLS");
    let mut b = b.upgraded();
    assert!(matches!(b.poll(), ReadStep::Fill));
    b.feed(b"EHLO secure\r\n").unwrap();
    assert_eq!(line(b.poll()), "EHLO secure");
    assert!(matches!(b.poll(), ReadStep::Fill));
}

#[test]
fn write_counts() {
    assert!(check_written(5, 5, 2).is_ok());
    assert!(matches!(check_written(5, 3, 2), Err(Error::WriteAll(5, 3))));
    assert!(matches!(check_written(5, 5, 1), Err(Error::WriteAll(2, 1))));
}
