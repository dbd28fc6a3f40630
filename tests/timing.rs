use slideshow_service::time::{format_time_ass, format_time_srt, parse_seconds, to_decimal};
use slideshow_service::transcript::{ParseError, RawSentence, RawWord, Sentence, Transcript, Word};

fn sentence(start: u64, end: u64, text: &str) -> Sentence {
    Sentence { start, end, text: text.to_string() }
}

fn word(start: u64, end: u64, text: &str) -> Word {
    Word { start, end, text: text.to_string() }
}

fn raw_sentence(start: Option<&str>, end: Option<&str>, text: Option<&str>) -> RawSentence {
    RawSentence {
        start: start.map(|s| s.to_string()),
        end: end.map(|s| s.to_string()),
        text: text.map(|s| s.to_string()),
    }
}

fn raw_word(start: Option<&str>, end: Option<&str>, text: Option<&str>) -> RawWord {
    RawWord {
        start: start.map(|s| s.to_string()),
        end: end.map(|s| s.to_string()),
        word: text.map(|s| s.to_string()),
    }
}

#[test]
fn srt_time_of_zero() {
    assert_eq!(format_time_srt(0), "00:00:00,000");
}

#[test]
fn srt_time_of_an_hour_and_more() {
    assert_eq!(format_time_srt(3_661_250), "01:01:01,250");
}

#[test]
fn srt_time_beyond_two_hour_digits() {
    assert_eq!(format_time_srt(360_000_000 + 59_999), "100:00:59,999");
}

#[test]
fn ass_time_of_zero() {
    assert_eq!(format_time_ass(0), "0:00:00.00");
}

#[test]
fn ass_time_truncates_to_centiseconds() {
    assert_eq!(format_time_ass(3_661_259), "1:01:01.25");
    assert_eq!(format_time_ass(59_999), "0:00:59.99");
}

#[test]
fn decimal_spelling() {
    assert_eq!(to_decimal(0), "0");
    assert_eq!(to_decimal(1080), "1080");
    assert_eq!(to_decimal(u64::MAX), "18446744073709551615");
}

#[test]
fn seconds_read_as_milliseconds() {
    assert_eq!(parse_seconds("3661.25"), Some(3_661_250));
    assert_eq!(parse_seconds("0.0"), Some(0));
    assert_eq!(parse_seconds("12"), Some(12_000));
    assert_eq!(parse_seconds("1.2345"), Some(1_234));
    assert_eq!(parse_seconds("0.5"), Some(500));
    assert_eq!(parse_seconds("2.05"), Some(2_050));
}

#[test]
fn seconds_that_do_not_read() {
    assert_eq!(parse_seconds(""), None);
    assert_eq!(parse_seconds("abc"), None);
    assert_eq!(parse_seconds("1."), None);
    assert_eq!(parse_seconds(".5"), None);
    assert_eq!(parse_seconds("-1"), None);
    assert_eq!(parse_seconds("1.2.3"), None);
    assert_eq!(parse_seconds("1e3"), None);
    assert_eq!(parse_seconds("18446744073709552"), None);
}

#[test]
fn transcript_without_sentences_is_refused() {
    let r = Transcript::new(vec![], vec![word(0, 10, "a")]);
    assert!(matches!(r, Err(ParseError::NoSentences)));
}

#[test]
fn transcript_out_of_order_is_refused() {
    let r = Transcript::new(vec![sentence(0, 500, "a"), sentence(400, 300, "b")], vec![]);
    assert!(matches!(r, Err(ParseError::OutOfOrder)));
    let r = Transcript::new(vec![sentence(0, 500, "a")], vec![word(200, 300, "x"), word(100, 150, "y")]);
    assert!(matches!(r, Err(ParseError::OutOfOrder)));
}

#[test]
fn transcript_duration_is_last_sentence_end() {
    let t = Transcript::new(vec![sentence(0, 1500, "a"), sentence(1500, 4200, "b")], vec![]).unwrap();
    assert_eq!(t.total_duration(), 4200);
}

#[test]
fn raw_transcript_reads() {
    let t = Transcript::parse(
        &vec![raw_sentence(Some("0.0"), Some("1.5"), Some("Hello there."))],
        &vec![raw_word(Some("0.1"), Some("0.6"), Some("Hello")), raw_word(Some("0.7"), Some("1.4"), Some("there."))],
    )
    .unwrap();
    assert_eq!(t.sentences.len(), 1);
    assert_eq!(t.sentences[0].end, 1500);
    assert_eq!(t.words[1].start, 700);
    assert_eq!(t.words[1].text, "there.");
}

#[test]
fn raw_transcript_missing_field() {
    let r = Transcript::parse(
        &vec![raw_sentence(Some("0"), Some("x"), Some("a"))],
        &vec![raw_word(Some("0"), None, Some("a"))],
    );
    assert!(matches!(r, Err(ParseError::MissingField)));
}

#[test]
fn raw_transcript_malformed_time() {
    let r = Transcript::parse(&vec![raw_sentence(Some("0"), Some("one"), Some("a"))], &vec![]);
    assert!(matches!(r, Err(ParseError::Malformed)));
}

#[test]
fn raw_transcript_without_sentences() {
    let r = Transcript::parse(&vec![], &vec![raw_word(Some("0"), Some("1"), Some("a"))]);
    assert!(matches!(r, Err(ParseError::NoSentences)));
}
