use gpiodemo::serial_log::{LogFlush, SerialLog, MAX_LINES, RETAIN_LINES_AFTER_TRIM};

fn contains(haystack: &[u8], needle: &[u8]) -> bool {
    haystack.windows(needle.len()).any(|window| window == needle)
}

/// Applies a flush to a display's text; whether anything changed.
fn apply(display: &mut Vec<u8>, flush: LogFlush) -> bool {
    match flush {
        LogFlush::Unchanged => false,
        LogFlush::Append(text) => {
            display.extend_from_slice(&text);
            true
        }
        LogFlush::Replace(text) => {
            *display = text;
            true
        }
    }
}

#[test]
fn batches_appends_until_flush() {
    let mut log = SerialLog::new();
    let mut display = Vec::new();
    for index in 0..200 {
        log.push_entry(b"00:00:00.000".to_vec(), format!("RX {index}").into_bytes());
    }

    assert_eq!(display, b"");
    assert!(apply(&mut display, log.flush()));
    assert_eq!(display.split(|&byte| byte == b'\n').count(), 201);
    assert!(contains(&display, b"RX 199"));
}

#[test]
fn trims_in_chunks_instead_of_rebuilding_every_line() {
    let mut log = SerialLog::new();
    let mut display = Vec::new();
    for index in 0..=MAX_LINES {
        log.push_entry(b"00:00:00.000".to_vec(), format!("RX {index}").into_bytes());
    }

    assert_eq!(log.len(), RETAIN_LINES_AFTER_TRIM);
    assert!(log.rebuild_pending());
    assert!(apply(&mut display, log.flush()));
    assert!(contains(&display, b"RX 2000"));
    assert!(!contains(&display, b"RX 0\n"));
}

#[test]
fn flush_appends_only_new_lines_and_redraws_on_changes() {
    let mut log = SerialLog::new();
    log.push_entry(b"10:00:00.000".to_vec(), b"RX 001 SAM HII <3".to_vec());
    assert!(matches!(log.flush(), LogFlush::Append(text) if text == b"[10:00:00.000] RX 001 SAM HII <3\n"));
    assert!(matches!(log.flush(), LogFlush::Unchanged));

    log.push_entry(b"10:00:01.000".to_vec(), b"TX 002 SAM HRU".to_vec());
    log.set_show_timestamps(false);
    assert!(!log.show_timestamps());
    assert!(matches!(
        log.flush(),
        LogFlush::Replace(text) if text == b"RX 001 SAM HII <3\nTX 002 SAM HRU\n"
    ));
    assert_eq!(log.last_text(), Some(b"TX 002 SAM HRU".as_slice()));

    log.clear();
    assert!(log.is_empty());
    assert_eq!(log.last_text(), None);
    assert!(matches!(log.flush(), LogFlush::Replace(text) if text.is_empty()));
}
