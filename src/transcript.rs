use vstd::prelude::*;

use crate::time::{millis_of, parse_seconds};

verus! {

/// One recognised word, with its time span in milliseconds.
pub struct Word {
    pub start: u64,
    pub end: u64,
    pub text: String,
}

/// One recognised sentence, with its time span in milliseconds.
pub struct Sentence {
    pub start: u64,
    pub end: u64,
    pub text: String,
}

/// What a word or a sentence is: a span and its text.
pub struct Span {
    pub start: nat,
    pub end: nat,
    pub text: Seq<char>,
}

impl View for Word {
    type V = Span;

    open spec fn view(&self) -> Span {
        Span { start: self.start as nat, end: self.end as nat, text: self.text@ }
    }
}

impl View for Sentence {
    type V = Span;

    open spec fn view(&self) -> Span {
        Span { start: self.start as nat, end: self.end as nat, text: self.text@ }
    }
}

/// Why a transcript was refused.
#[derive(Debug, Clone, Copy, PartialEq, Eq, Structural)]
pub enum ParseError {
    /// A sentence or a word lacks one of its fields.
    MissingField,
    /// A field is present but not a valid value.
    Malformed,
    /// The transcript has no sentence.
    NoSentences,
    /// A span ends before it starts, or the spans are not in time order.
    OutOfOrder,
}

/// The spans of a sequence of words or sentences.
pub open spec fn spans<T: View<V = Span>>(s: Seq<T>) -> Seq<Span> {
    s.map_values(|x: T| x@)
}

/// Each span starts no later than it ends, and starts never decrease.
pub open spec fn spans_ordered(s: Seq<Span>) -> bool {
    &&& forall|i: int| 0 <= i < s.len() ==> #[trigger] s[i].start <= s[i].end
    &&& forall|i: int| 0 < i < s.len() ==> s[i - 1].start <= #[trigger] s[i].start
}

/// Sentence ends never decrease, so that each sentence closes a later slot than the one before.
pub open spec fn ends_ordered(s: Seq<Span>) -> bool {
    forall|i: int| 0 < i < s.len() ==> s[i - 1].end <= #[trigger] s[i].end
}

/// A valid transcript: at least one sentence, all spans in time order.
pub open spec fn valid_transcript(sentences: Seq<Span>, words: Seq<Span>) -> bool {
    &&& sentences.len() > 0
    &&& spans_ordered(sentences)
    &&& ends_ordered(sentences)
    &&& spans_ordered(words)
}

/// A validated transcript: sentences and words, each in time order.
pub struct Transcript {
    pub sentences: Vec<Sentence>,
    pub words: Vec<Word>,
}

impl Transcript {
    /// The spans of the sentences.
    pub open spec fn sentence_spans(&self) -> Seq<Span> {
        spans(self.sentences@)
    }

    /// The spans of the words.
    pub open spec fn word_spans(&self) -> Seq<Span> {
        spans(self.words@)
    }

    /// The transcript is valid: it has a sentence and its spans are in time order.
    pub open spec fn wf(&self) -> bool {
        valid_transcript(self.sentence_spans(), self.word_spans())
    }

    /// Length of the programme: the end of the last sentence.
    pub open spec fn duration(&self) -> nat {
        self.sentence_spans().last().end
    }

    /// Builds a transcript, refusing one without sentences or with spans out of time order.
    pub fn new(sentences: Vec<Sentence>, words: Vec<Word>) -> (r: Result<Transcript, ParseError>)
        ensures
            sentences@.len() == 0 ==> r == Err::<Transcript, ParseError>(ParseError::NoSentences),
            sentences@.len() > 0 && !valid_transcript(spans(sentences@), spans(words@))
                ==> r == Err::<Transcript, ParseError>(ParseError::OutOfOrder),
            valid_transcript(spans(sentences@), spans(words@)) ==> (r matches Ok(t) && t.sentences@
                == sentences@ && t.words@ == words@),
    {
        if sentences.len() == 0 {
            return Err(ParseError::NoSentences);
        }
        let mut i: usize = 0;
        while i < sentences.len()
            invariant
                0 <= i <= sentences@.len(),
                forall|k: int| 0 <= k < i ==> #[trigger] sentences@[k].start <= sentences@[k].end,
                forall|k: int|
                    0 < k < i ==> sentences@[k - 1].start <= #[trigger] sentences@[k].start
                        && sentences@[k - 1].end <= sentences@[k].end,
            decreases sentences@.len() - i,
        {
            let s = &sentences[i];
            proof {
                assert(spans(sentences@)[i as int] == sentences@[i as int]@);
                if i > 0 {
                    assert(spans(sentences@)[i - 1] == sentences@[i - 1]@);
                }
            }
            if s.start > s.end {
                assert(spans(sentences@)[i as int].start > spans(sentences@)[i as int].end);
                return Err(ParseError::OutOfOrder);
            }
            if i > 0 && (sentences[i - 1].start > s.start || sentences[i - 1].end > s.end) {
                assert(spans(sentences@)[i - 1].start > spans(sentences@)[i as int].start
                    || spans(sentences@)[i - 1].end > spans(sentences@)[i as int].end);
                return Err(ParseError::OutOfOrder);
            }
            i = i + 1;
        }
        let mut j: usize = 0;
        while j < words.len()
            invariant
                0 <= j <= words@.len(),
                sentences@.len() > 0,
                forall|k: int| 0 <= k < j ==> #[trigger] words@[k].start <= words@[k].end,
                forall|k: int| 0 < k < j ==> words@[k - 1].start <= #[trigger] words@[k].start,
            decreases words@.len() - j,
        {
            let w = &words[j];
            proof {
                assert(spans(words@)[j as int] == words@[j as int]@);
                if j > 0 {
                    assert(spans(words@)[j - 1] == words@[j - 1]@);
                }
            }
            if w.start > w.end {
                assert(spans(words@)[j as int].start > spans(words@)[j as int].end);
                return Err(ParseError::OutOfOrder);
            }
            if j > 0 && words[j - 1].start > w.start {
                assert(spans(words@)[j - 1].start > spans(words@)[j as int].start);
                return Err(ParseError::OutOfOrder);
            }
            j = j + 1;
        }
        proof {
            let ss = spans(sentences@);
            let ws = spans(words@);
            assert forall|k: int| 0 <= k < ss.len() implies #[trigger] ss[k].start <= ss[k].end by {
                assert(ss[k] == sentences@[k]@);
            }
            assert forall|k: int| 0 < k < ss.len() implies ss[k - 1].start <= #[trigger] ss[k].start
                && ss[k - 1].end <= ss[k].end by {
                assert(ss[k] == sentences@[k]@);
                assert(ss[k - 1] == sentences@[k - 1]@);
            }
            assert forall|k: int| 0 <= k < ws.len() implies #[trigger] ws[k].start <= ws[k].end by {
                assert(ws[k] == words@[k]@);
            }
            assert forall|k: int| 0 < k < ws.len() implies ws[k - 1].start <= #[trigger] ws[k].start by {
                assert(ws[k] == words@[k]@);
                assert(ws[k - 1] == words@[k - 1]@);
            }
        }
        Ok(Transcript { sentences, words })
    }

    /// The end of the last sentence.
    pub fn total_duration(&self) -> (r: u64)
        requires
            self.wf(),
        ensures
            r == self.duration(),
    {
        self.sentences[self.sentences.len() - 1].end
    }
}

/// A sentence as a transcript document gives it: each field may be absent, times are decimal
/// seconds.
pub struct RawSentence {
    pub start: Option<String>,
    pub end: Option<String>,
    pub text: Option<String>,
}

/// A word as a transcript document gives it.
pub struct RawWord {
    pub start: Option<String>,
    pub end: Option<String>,
    pub word: Option<String>,
}

/// The record has all three fields.
pub open spec fn complete(start: Option<String>, end: Option<String>, text: Option<String>) -> bool {
    start is Some && end is Some && text is Some
}

/// Both times of a complete record read as milliseconds.
pub open spec fn readable(start: Option<String>, end: Option<String>) -> bool {
    millis_of(start->0@) is Some && millis_of(end->0@) is Some
}

/// The span of a complete, readable record.
pub open spec fn record_span(start: Option<String>, end: Option<String>, text: Option<String>) -> Span {
    Span { start: millis_of(start->0@)->0 as nat, end: millis_of(end->0@)->0 as nat, text: text->0@ }
}

/// The span of a complete, readable sentence record.
pub open spec fn raw_sentence_span(r: RawSentence) -> Span {
    record_span(r.start, r.end, r.text)
}

/// The span of a complete, readable word record.
pub open spec fn raw_word_span(r: RawWord) -> Span {
    record_span(r.start, r.end, r.word)
}

/// Every record has all its fields.
pub open spec fn all_complete(sentences: Seq<RawSentence>, words: Seq<RawWord>) -> bool {
    &&& forall|i: int| 0 <= i < sentences.len() ==> complete(#[trigger] sentences[i].start, sentences[i].end, sentences[i].text)
    &&& forall|i: int| 0 <= i < words.len() ==> complete(#[trigger] words[i].start, words[i].end, words[i].word)
}

/// Every time of every record reads as milliseconds.
pub open spec fn all_readable(sentences: Seq<RawSentence>, words: Seq<RawWord>) -> bool {
    &&& forall|i: int| 0 <= i < sentences.len() ==> readable(#[trigger] sentences[i].start, sentences[i].end)
    &&& forall|i: int| 0 <= i < words.len() ==> readable(#[trigger] words[i].start, words[i].end)
}

/// What a transcript document yields: a missing field first, then an unreadable time, then the
/// checks of a transcript.
pub open spec fn parse_outcome(sentences: Seq<RawSentence>, words: Seq<RawWord>) -> Result<(Seq<Span>, Seq<Span>), ParseError> {
    if !all_complete(sentences, words) {
        Err(ParseError::MissingField)
    } else if !all_readable(sentences, words) {
        Err(ParseError::Malformed)
    } else {
        let ss = sentences.map_values(|r: RawSentence| raw_sentence_span(r));
        let ws = words.map_values(|r: RawWord| raw_word_span(r));
        if ss.len() == 0 {
            Err(ParseError::NoSentences)
        } else if !valid_transcript(ss, ws) {
            Err(ParseError::OutOfOrder)
        } else {
            Ok((ss, ws))
        }
    }
}

fn read_record(start: &Option<String>, end: &Option<String>, text: &Option<String>) -> (r: Option<(u64, u64, String)>)
    requires
        complete(*start, *end, *text),
    ensures
        readable(*start, *end) <==> r is Some,
        r matches Some(x) ==> x.0 as nat == record_span(*start, *end, *text).start && x.1 as nat == record_span(
            *start,
            *end,
            *text,
        ).end && x.2@ == record_span(*start, *end, *text).text,
{
    let s = match start {
        Some(x) => parse_seconds(x.as_str()),
        None => None,
    };
    let e = match end {
        Some(x) => parse_seconds(x.as_str()),
        None => None,
    };
    match (s, e, text) {
        (Some(a), Some(b), Some(t)) => Some((a, b, t.clone())),
        _ => None,
    }
}

impl Transcript {
    /// Reads a transcript document: refuses a record with a missing field, then a time that is
    /// not a decimal number of seconds, then checks the transcript as `new` does.
    pub fn parse(sentences: &Vec<RawSentence>, words: &Vec<RawWord>) -> (r: Result<Transcript, ParseError>)
        ensures
            match parse_outcome(sentences@, words@) {
                Ok((ss, ws)) => r matches Ok(t) && t.sentence_spans() == ss && t.word_spans() == ws,
                Err(e) => r == Err::<Transcript, ParseError>(e),
            },
    {
        let mut i: usize = 0;
        while i < sentences.len()
            invariant
                0 <= i <= sentences@.len(),
                forall|k: int| 0 <= k < i ==> complete(#[trigger] sentences@[k].start, sentences@[k].end, sentences@[k].text),
            decreases sentences@.len() - i,
        {
            let r = &sentences[i];
            if r.start.is_none() || r.end.is_none() || r.text.is_none() {
                return Err(ParseError::MissingField);
            }
            i = i + 1;
        }
        let mut i: usize = 0;
        while i < words.len()
            invariant
                0 <= i <= words@.len(),
                forall|k: int| 0 <= k < sentences@.len() ==> complete(#[trigger] sentences@[k].start, sentences@[k].end, sentences@[k].text),
                forall|k: int| 0 <= k < i ==> complete(#[trigger] words@[k].start, words@[k].end, words@[k].word),
            decreases words@.len() - i,
        {
            let r = &words[i];
            if r.start.is_none() || r.end.is_none() || r.word.is_none() {
                return Err(ParseError::MissingField);
            }
            i = i + 1;
        }
        let ghost ss = sentences@.map_values(|r: RawSentence| raw_sentence_span(r));
        let ghost ws = words@.map_values(|r: RawWord| raw_word_span(r));
        let mut out_s: Vec<Sentence> = Vec::new();
        let mut i: usize = 0;
        while i < sentences.len()
            invariant
                0 <= i <= sentences@.len(),
                all_complete(sentences@, words@),
                forall|k: int| 0 <= k < i ==> readable(#[trigger] sentences@[k].start, sentences@[k].end),
                ss == sentences@.map_values(|r: RawSentence| raw_sentence_span(r)),
                spans(out_s@) =~= ss.take(i as int),
            decreases sentences@.len() - i,
        {
            let r = &sentences[i];
            assert(complete(r.start, r.end, r.text));
            match read_record(&r.start, &r.end, &r.text) {
                Some((a, b, t)) => {
                    let ghost before = out_s@;
                    let x = Sentence { start: a, end: b, text: t };
                    out_s.push(x);
                    assert(spans(out_s@) =~= spans(before).push(x@));
                    assert(ss.take(i + 1) =~= ss.take(i as int).push(ss[i as int]));
                },
                None => {
                    return Err(ParseError::Malformed);
                },
            }
            i = i + 1;
        }
        let mut out_w: Vec<Word> = Vec::new();
        let mut i: usize = 0;
        while i < words.len()
            invariant
                0 <= i <= words@.len(),
                all_complete(sentences@, words@),
                forall|k: int| 0 <= k < sentences@.len() ==> readable(#[trigger] sentences@[k].start, sentences@[k].end),
                forall|k: int| 0 <= k < i ==> readable(#[trigger] words@[k].start, words@[k].end),
                ws == words@.map_values(|r: RawWord| raw_word_span(r)),
                spans(out_w@) =~= ws.take(i as int),
            decreases words@.len() - i,
        {
            let r = &words[i];
            assert(complete(r.start, r.end, r.word));
            match read_record(&r.start, &r.end, &r.word) {
                Some((a, b, t)) => {
                    let ghost before = out_w@;
                    let x = Word { start: a, end: b, text: t };
                    out_w.push(x);
                    assert(spans(out_w@) =~= spans(before).push(x@));
                    assert(ws.take(i + 1) =~= ws.take(i as int).push(ws[i as int]));
                },
                None => {
                    return Err(ParseError::Malformed);
                },
            }
            i = i + 1;
        }
        assert(ss.take(sentences@.len() as int) =~= ss);
        assert(ws.take(words@.len() as int) =~= ws);
        Transcript::new(out_s, out_w)
    }
}

} // verus!
