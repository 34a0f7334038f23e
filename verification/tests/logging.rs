use std::time::Duration;

use log::Level;
use midi_clock_shifter::logging::{LogBuffer, LogLine, CAPACITY};

fn line(i: u64) -> LogLine {
    LogLine {
        elapsed: Duration::from_millis(i),
        level: Level::Info,
        message: format!("line {i}"),
    }
}

#[test]
fn keeps_lines_oldest_first() {
    let mut buf = LogBuffer::new();
    assert!(buf.snapshot().is_empty());
    buf.push(line(1));
    buf.push(line(2));
    let snap = buf.snapshot();
    assert_eq!(snap.len(), 2);
    assert_eq!(snap[0].message, "line 1");
    assert_eq!(snap[1].message, "line 2");
    assert_eq!(snap[1].elapsed, Duration::from_millis(2));
}

#[test]
fn keeps_only_the_last_200_lines() {
    let mut buf = LogBuffer::default();
    for i in 0..(CAPACITY as u64 + 50) {
        buf.push(line(i));
    }
    let snap = buf.snapshot();
    assert_eq!(snap.len(), 200);
    assert_eq!(snap[0].message, "line 50");
    assert_eq!(snap[199].message, "line 249");
    assert_eq!(snap[199].level, Level::Info);
}

#[test]
fn cloned_line_is_equal() {
    let l = LogLine {
        elapsed: Duration::from_secs(3),
        level: Level::Warn,
        message: "x".to_string(),
    };
    let c = l.clone();
    assert_eq!(c.elapsed, l.elapsed);
    assert_eq!(c.level, l.level);
    assert_eq!(c.message, l.message);
}
