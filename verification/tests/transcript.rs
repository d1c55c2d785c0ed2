use notes::transcript::{push_decimal, push_segment, render, Segment};

fn seg(start: i64, end: i64, text: &str) -> Segment {
    Segment { start, end, text: text.to_string() }
}

fn decimal(n: i64) -> String {
    let mut out = String::new();
    push_decimal(&mut out, n);
    out
}

#[test]
fn decimal_of_small_numbers() {
    assert_eq!(decimal(0), "0");
    assert_eq!(decimal(7), "7");
    assert_eq!(decimal(9), "9");
    assert_eq!(decimal(10), "10");
    assert_eq!(decimal(1234567890), "1234567890");
}

#[test]
fn decimal_of_negative_numbers() {
    assert_eq!(decimal(-1), "-1");
    assert_eq!(decimal(-100), "-100");
}

#[test]
fn decimal_at_the_ends_of_the_range() {
    assert_eq!(decimal(i64::MAX), "9223372036854775807");
    assert_eq!(decimal(i64::MIN), "-9223372036854775808");
}

#[test]
fn decimal_agrees_with_the_standard_rendering() {
    for n in [-1000i64, -11, -10, -9, 0, 9, 10, 11, 99, 100, 101, 65535, 4294967296] {
        assert_eq!(decimal(n), n.to_string());
    }
}

#[test]
fn decimal_appends_behind_what_is_there() {
    let mut out = "x=".to_string();
    push_decimal(&mut out, 42);
    assert_eq!(out, "x=42");
}

#[test]
fn a_segment_is_stamped_with_its_time_range() {
    let mut out = String::new();
    push_segment(&mut out, &seg(120, 360, " Good morning."));
    assert_eq!(out, "[120 - 360]:  Good morning.");
}

#[test]
fn a_transcript_joins_the_segments_with_nothing_between() {
    let segments = vec![seg(0, 250, " Hello."), seg(250, 400, " Bye."), seg(400, 401, "")];
    assert_eq!(render(&segments), "[0 - 250]:  Hello.[250 - 400]:  Bye.[400 - 401]: ");
}

#[test]
fn no_segments_give_an_empty_transcript() {
    assert_eq!(render(&Vec::new()), "");
}
