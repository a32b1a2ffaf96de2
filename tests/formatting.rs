use video_relay::chunk::Timestamp;
use video_relay::timefmt::{caption_name_for, file_name_for, push_cue_time, push_decimal, push_padded};

fn text(v: Vec<u8>) -> String {
    String::from_utf8(v).unwrap()
}

#[test]
fn decimal_and_padding() {
    let mut out = Vec::new();
    push_decimal(&mut out, 0);
    out.push(b' ');
    push_decimal(&mut out, 1234567);
    out.push(b' ');
    push_padded(&mut out, 7, 3);
    out.push(b' ');
    push_padded(&mut out, 12345, 2);
    out.push(b' ');
    push_decimal(&mut out, u64::MAX);
    assert_eq!(text(out), "0 1234567 007 12345 18446744073709551615");
}

#[test]
fn recording_and_caption_names() {
    let t = Timestamp { epoch_ms: 0, year: 2024, month: 3, day: 9, hour: 4, minute: 5, second: 6 };
    assert_eq!(text(file_name_for(&t)), "2024-03-09T04:05:06.ts");
    assert_eq!(text(caption_name_for(&t)), "2024-03-09T04:05:06.srt");
}

#[test]
fn years_outside_four_digits_get_a_sign() {
    let mut t = Timestamp { epoch_ms: 0, year: 12345, month: 12, day: 31, hour: 23, minute: 59, second: 59 };
    assert_eq!(text(file_name_for(&t)), "+12345-12-31T23:59:59.ts");
    t.year = -44;
    assert_eq!(text(file_name_for(&t)), "-0044-12-31T23:59:59.ts");
    t.year = 7;
    assert_eq!(text(file_name_for(&t)), "0007-12-31T23:59:59.ts");
}

#[test]
fn cue_times() {
    let mut out = Vec::new();
    push_cue_time(&mut out, 1100);
    out.push(b'|');
    push_cue_time(&mut out, 3_723_004);
    out.push(b'|');
    push_cue_time(&mut out, 0);
    out.push(b'|');
    push_cue_time(&mut out, 360_000_000);
    assert_eq!(text(out), "00:00:01,100|01:02:03,004|00:00:00,000|100:00:00,000");
}
