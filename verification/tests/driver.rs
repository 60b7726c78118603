use hexdump::driver::ConfigError;
use hexdump::driver::ReadPlan;
use hexdump::driver::dump_bytes;

fn dump_string(data: &[u8], offset: i64, bytes_to_read: i64, bytes_per_line: i64) -> String {
    String::from_utf8(dump_bytes(data, offset, bytes_to_read, bytes_per_line)).unwrap()
}

#[test]
fn twenty_bytes_make_two_lines() {
    // Sixteen bytes on the first line; the second line starts at offset
    // 0x10 and holds four bytes, hex-padded to the full sixteen columns.
    let data: Vec<u8> = (0u8..20).collect();
    let out = dump_string(&data, 0, -1, 16);
    let first =
        "000000 | 00 01 02 03  04 05 06 07  08 09 0A 0B  0C 0D 0E 0F | ................\n";
    let second = format!("000010 | 10 11 12 13{} | ....\n", " ".repeat(39));
    assert_eq!(out, format!("{first}{second}"));
}

#[test]
fn mid_stream_start_keeps_the_seek_offset() {
    // A ten-byte file read from offset five: the first emitted offset
    // column reads 000005, not 000000.
    let file: Vec<u8> = (b'a'..b'a' + 10).collect();
    let out = dump_string(&file[5..], 5, -1, 16);
    assert!(out.starts_with("000005 |"));
    assert_eq!(out, format!("000005 | 66 67 68 69  6A{} | fghij\n", " ".repeat(35)));
}

#[test]
fn empty_stream_emits_nothing() {
    assert_eq!(dump_bytes(&[], 0, -1, 16), Vec::<u8>::new());
    assert_eq!(dump_bytes(&[], 0, 0, 16), Vec::<u8>::new());
    assert_eq!(dump_bytes(&[], 7, 100, 4), Vec::<u8>::new());
}

#[test]
fn zero_quota_emits_nothing() {
    let data: Vec<u8> = vec![1, 2, 3];
    assert_eq!(dump_bytes(&data, 0, 0, 16), Vec::<u8>::new());
}

#[test]
fn unbounded_quota_dumps_every_byte() {
    // 37 bytes, width 7: six lines, every byte rendered exactly once.
    let data: Vec<u8> = (0u8..37).collect();
    let out = dump_string(&data, 0, -1, 7);
    let lines: Vec<&str> = out.lines().collect();
    assert_eq!(lines.len(), 6);
    let rendered: usize = lines
        .iter()
        .map(|l| l.rsplit(" | ").next().unwrap().len())
        .sum();
    assert_eq!(rendered, 37);
}

#[test]
fn quota_stops_even_with_data_left() {
    // Quota three over five bytes: one line with exactly three bytes.
    let data: Vec<u8> = vec![0x41, 0x42, 0x43, 0x44, 0x45];
    let out = dump_string(&data, 0, 3, 16);
    let expected = format!("000000 | 41 42 43{} | ABC\n", " ".repeat(42));
    assert_eq!(out, expected);
}

#[test]
fn quota_spanning_lines_is_honoured() {
    // Quota ten, width four: two full lines and one of two bytes.
    let data: Vec<u8> = (0u8..32).collect();
    let out = dump_string(&data, 0, 10, 4);
    let expected = format!(
        "{}{}{}",
        "000000 | 00 01 02 03 | ....\n",
        "000004 | 04 05 06 07 | ....\n",
        "000008 | 08 09       | ..\n",
    );
    assert_eq!(out, expected);
}

#[test]
fn dumping_twice_is_identical() {
    let data: Vec<u8> = (0u8..100).map(|b| b.wrapping_mul(37)).collect();
    let first = dump_bytes(&data, 3, 50, 8);
    let second = dump_bytes(&data, 3, 50, 8);
    assert_eq!(first, second);
}

#[test]
fn plan_rejects_bad_line_width() {
    assert_eq!(ReadPlan::new(0, -1, 0), Err(ConfigError::InvalidLineWidth));
    assert_eq!(ReadPlan::new(0, -1, -4), Err(ConfigError::InvalidLineWidth));
}

#[test]
fn plan_rejects_negative_offset() {
    assert_eq!(ReadPlan::new(-1, -1, 16), Err(ConfigError::NegativeOffset));
}

#[test]
fn plan_accepts_defaults() {
    let plan = ReadPlan::new(0, -1, 16).unwrap();
    assert_eq!(plan.offset, 0);
    assert_eq!(plan.bytes_per_line, 16);
    assert_eq!(plan.bytes_to_read, -1);
}

#[test]
fn request_size_follows_quota_and_width() {
    // Unbounded quota: a full line. Quota above the width: a full line.
    // Quota at or below the width: the whole remaining quota.
    let unbounded = ReadPlan::new(0, -1, 16).unwrap();
    assert_eq!(unbounded.request_size(), 16);
    let large = ReadPlan::new(0, 100, 16).unwrap();
    assert_eq!(large.request_size(), 16);
    let small = ReadPlan::new(0, 5, 16).unwrap();
    assert_eq!(small.request_size(), 5);
    let spent = ReadPlan::new(0, 0, 16).unwrap();
    assert_eq!(spent.request_size(), 0);
}

#[test]
fn advance_moves_offset_and_shrinks_quota() {
    let mut plan = ReadPlan::new(0, 20, 16).unwrap();
    plan.advance(16);
    assert_eq!(plan.offset, 16);
    assert_eq!(plan.bytes_to_read, 4);
    assert_eq!(plan.request_size(), 4);
    plan.advance(4);
    assert_eq!(plan.bytes_to_read, 0);
    assert_eq!(plan.request_size(), 0);
}
