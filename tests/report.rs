use nanofft::report::{repeat_count, time_per_butterfly, timing_line, wants_bootloader};

#[test]
fn timing_line_groups_digits() {
    assert_eq!(&timing_line(1234567), b".    1 234 567\r\n");
}

#[test]
fn timing_line_of_zero() {
    assert_eq!(&timing_line(0), b".            0\r\n");
}

#[test]
fn timing_line_of_largest_value() {
    assert_eq!(&timing_line(u32::MAX), b".4 294 967 295\r\n");
}

#[test]
fn bootloader_request() {
    assert!(!wants_bootloader(b"abc\n"));
    assert!(wants_bootloader(b"xr\n"));
    assert!(!wants_bootloader(b""));
}

#[test]
fn repeat_counts() {
    assert_eq!(repeat_count(4, 16384), 28672);
    assert_eq!(repeat_count(16384, 16384), 1);
}

#[test]
fn butterfly_time() {
    assert_eq!(time_per_butterfly(1000, 10, 1024), 1220703);
}
