use slideshow_service::captions::{words_in_sentence, flash_events, karaoke_events, render_ass, render_srt, CaptionEvent, Run, Tone, ASS_HEADER};
use slideshow_service::transcript::{Sentence, Transcript, Word};

fn sentence(start: u64, end: u64, text: &str) -> Sentence {
    Sentence { start, end, text: text.to_string() }
}

fn word(start: u64, end: u64, text: &str) -> Word {
    Word { start, end, text: text.to_string() }
}

fn seven_word_transcript() -> Transcript {
    let words: Vec<Word> = (0..7u64).map(|i| word(i * 1000, i * 1000 + 800, &format!("w{}", i))).collect();
    Transcript::new(vec![sentence(0, 7500, "w0 w1 w2 w3 w4 w5 w6")], words).unwrap()
}

fn texts(e: &CaptionEvent) -> Vec<String> {
    e.runs.iter().map(|r| r.text.clone()).collect()
}

fn tones(e: &CaptionEvent) -> Vec<Tone> {
    e.runs.iter().map(|r| r.tone).collect()
}

#[test]
fn karaoke_seven_words_in_chunks_of_three() {
    let events = karaoke_events(&seven_word_transcript());
    assert_eq!(events.len(), 7);
    let sizes: Vec<usize> = events.iter().map(|e| e.runs.len()).collect();
    assert_eq!(sizes, vec![3, 3, 3, 3, 3, 3, 1]);
    assert_eq!(texts(&events[0]), vec!["w0", "w1", "w2"]);
    assert_eq!(texts(&events[4]), vec!["w3", "w4", "w5"]);
    assert_eq!(texts(&events[6]), vec!["w6"]);
}

#[test]
fn karaoke_rolling_highlight() {
    let events = karaoke_events(&seven_word_transcript());
    assert_eq!(tones(&events[0]), vec![Tone::Highlighted, Tone::Dim, Tone::Dim]);
    assert_eq!(tones(&events[1]), vec![Tone::Plain, Tone::Highlighted, Tone::Dim]);
    assert_eq!(tones(&events[2]), vec![Tone::Plain, Tone::Plain, Tone::Highlighted]);
    assert_eq!(tones(&events[6]), vec![Tone::Highlighted]);
}

#[test]
fn karaoke_timing() {
    let events = karaoke_events(&seven_word_transcript());
    // inside a chunk: until the next word starts
    assert_eq!((events[0].start, events[0].end), (0, 1000));
    assert_eq!((events[1].start, events[1].end), (1000, 2000));
    // last word of a chunk that is not the last: its own end
    assert_eq!((events[2].start, events[2].end), (2000, 2800));
    assert_eq!((events[5].start, events[5].end), (5000, 5800));
    // last word of the sentence: the sentence's end
    assert_eq!((events[6].start, events[6].end), (6000, 7500));
}

#[test]
fn stray_word_only_in_flash_track() {
    let t = Transcript::new(
        vec![sentence(0, 2000, "a b"), sentence(3000, 5000, "d")],
        vec![word(0, 900, "a"), word(1000, 1900, "b"), word(1950, 3100, "stray"), word(3200, 4000, "d")],
    )
    .unwrap();
    let karaoke = karaoke_events(&t);
    assert_eq!(karaoke.len(), 3);
    assert!(karaoke.iter().all(|e| e.runs.iter().all(|r| r.text != "stray")));
    let flash = flash_events(&t);
    assert_eq!(flash.len(), 8);
    assert_eq!(texts(&flash[4]), vec!["stray"]);
    assert_eq!(texts(&flash[5]), vec!["stray"]);
}

#[test]
fn flash_pairs_share_timing() {
    let t = Transcript::new(vec![sentence(0, 2000, "a b")], vec![word(100, 900, "a"), word(1000, 1900, "b")]).unwrap();
    let flash = flash_events(&t);
    assert_eq!(flash.len(), 4);
    assert_eq!((flash[2].start, flash[2].end), (1000, 1900));
    assert_eq!((flash[3].start, flash[3].end), (1000, 1900));
    assert_eq!(tones(&flash[2]), vec![Tone::Plain]);
    assert_eq!(tones(&flash[3]), vec![Tone::Highlighted]);
}

#[test]
fn ass_document_lines() {
    let t = Transcript::new(
        vec![sentence(0, 2500, "Hi you")],
        vec![word(0, 1000, "Hi"), word(1200, 2000, "you")],
    )
    .unwrap();
    let doc = render_ass(&karaoke_events(&t));
    let expected = format!(
        "{}{}{}",
        ASS_HEADER,
        "Dialogue: 0,0:00:00.00,0:00:01.20,Default,,0,0,0,,{\\an5}{\\c&HFF1757&}Hi {\\c&H282828&}you\\N\n",
        "Dialogue: 0,0:00:01.20,0:00:02.50,Default,,0,0,0,,{\\an5}Hi {\\c&HFF1757&}you\\N\n"
    );
    assert_eq!(doc, expected);
    assert!(doc.starts_with("[Script Info]\nScriptType: v4.00+\n"));
}

#[test]
fn ass_document_of_no_events_is_the_header() {
    assert_eq!(render_ass(&vec![]), ASS_HEADER);
}

#[test]
fn srt_document_entries() {
    let events = vec![
        CaptionEvent { start: 0, end: 1500, runs: vec![Run { text: "Hello".to_string(), tone: Tone::Plain }] },
        CaptionEvent {
            start: 3_661_250,
            end: 3_662_000,
            runs: vec![
                Run { text: "big".to_string(), tone: Tone::Plain },
                Run { text: "world".to_string(), tone: Tone::Highlighted },
            ],
        },
    ];
    assert_eq!(
        render_srt(&events),
        "1\n00:00:00,000 --> 00:00:01,500\nHello\n\n2\n01:01:01,250 --> 01:01:02,000\nbig world\n\n"
    );
}

#[test]
fn words_inside_a_sentence() {
    let s = sentence(1000, 3000, "x");
    let words = vec![word(500, 1200, "early"), word(1000, 2000, "in"), word(2500, 3000, "edge"), word(2900, 3100, "late")];
    assert_eq!(words_in_sentence(&s, &words), vec![1, 2]);
}
