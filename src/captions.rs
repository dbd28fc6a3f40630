use vstd::prelude::*;
use vstd::seq_lib::lemma_flatten_concat;
use vstd::string::*;

use crate::time::{ass_time, decimal, format_time_ass, format_time_srt, srt_time, to_decimal};
use crate::transcript::{spans, Sentence, Span, Transcript, Word};

verus! {

/// How a run of caption text is coloured.
#[derive(Debug, Clone, Copy, PartialEq, Eq, Structural)]
pub enum Tone {
    /// Words already spoken.
    Plain,
    /// The word being spoken.
    Highlighted,
    /// Words still to come.
    Dim,
}

/// A run of caption text with one tone.
pub struct Run {
    pub text: String,
    pub tone: Tone,
}

/// What a run is: its text and its tone.
pub struct RunView {
    pub text: Seq<char>,
    pub tone: Tone,
}

impl View for Run {
    type V = RunView;

    open spec fn view(&self) -> RunView {
        RunView { text: self.text@, tone: self.tone }
    }
}

/// A caption shown from `start` to `end` (milliseconds), made of styled runs.
pub struct CaptionEvent {
    pub start: u64,
    pub end: u64,
    pub runs: Vec<Run>,
}

/// What a caption event is: its interval and its runs.
pub struct EventView {
    pub start: nat,
    pub end: nat,
    pub runs: Seq<RunView>,
}

impl View for CaptionEvent {
    type V = EventView;

    open spec fn view(&self) -> EventView {
        EventView {
            start: self.start as nat,
            end: self.end as nat,
            runs: runs_view(self.runs@),
        }
    }
}

/// The views of a sequence of runs.
pub open spec fn runs_view(v: Seq<Run>) -> Seq<RunView> {
    v.map_values(|r: Run| r@)
}

/// A sequence of indices as integers.
pub open spec fn positions(v: Seq<usize>) -> Seq<int> {
    v.map_values(|x: usize| x as int)
}

/// The views of a sequence of caption events.
pub open spec fn events_view(v: Seq<CaptionEvent>) -> Seq<EventView> {
    v.map_values(|e: CaptionEvent| e@)
}

/// Number of words in one karaoke chunk.
pub const CHUNK_SIZE: usize = 3;

/// A word lies inside a sentence when its whole span does.
pub open spec fn contains_word(s: Span, w: Span) -> bool {
    w.start >= s.start && w.end <= s.end
}

/// Indices, in order, of the words among the first `n` that lie inside `s`.
pub open spec fn contained_prefix(s: Span, words: Seq<Span>, n: int) -> Seq<int>
    decreases n,
{
    if n <= 0 {
        Seq::empty()
    } else if contains_word(s, words[n - 1]) {
        contained_prefix(s, words, n - 1).push(n - 1)
    } else {
        contained_prefix(s, words, n - 1)
    }
}

/// Indices, in order, of the words that lie inside `s`.
pub open spec fn sentence_words(s: Span, words: Seq<Span>) -> Seq<int> {
    contained_prefix(s, words, words.len() as int)
}

/// First position of the chunk that holds position `k`.
pub open spec fn chunk_start(k: int) -> int {
    k - k % 3
}

/// One past the last position of the chunk that holds position `k`, among `m` positions.
pub open spec fn chunk_end(k: int, m: int) -> int {
    if chunk_start(k) + 3 <= m {
        chunk_start(k) + 3
    } else {
        m
    }
}

/// When the karaoke caption for position `k` of `idx` ends: at the next word of its chunk,
/// at the sentence's end after the last chunk, and else at the word's own end.
pub open spec fn karaoke_end(s: Span, words: Seq<Span>, idx: Seq<int>, k: int) -> nat {
    let ce = chunk_end(k, idx.len() as int);
    if k + 1 < ce {
        words[idx[k + 1]].start
    } else if ce == idx.len() {
        s.end
    } else {
        words[idx[k]].end
    }
}

/// The tone of chunk position `j` while position `k` is spoken.
pub open spec fn tone_at(j: int, k: int) -> Tone {
    if j < k {
        Tone::Plain
    } else if j == k {
        Tone::Highlighted
    } else {
        Tone::Dim
    }
}

/// The runs of the karaoke caption for position `k`: every word of its chunk.
pub open spec fn karaoke_runs(words: Seq<Span>, idx: Seq<int>, k: int) -> Seq<RunView> {
    let cs = chunk_start(k);
    Seq::new(
        (chunk_end(k, idx.len() as int) - cs) as nat,
        |j: int| RunView { text: words[idx[cs + j]].text, tone: tone_at(cs + j, k) },
    )
}

/// The karaoke caption for position `k` of the words `idx` of sentence `s`.
pub open spec fn karaoke_event(s: Span, words: Seq<Span>, idx: Seq<int>, k: int) -> EventView {
    EventView {
        start: words[idx[k]].start,
        end: karaoke_end(s, words, idx, k),
        runs: karaoke_runs(words, idx, k),
    }
}

/// The karaoke captions of one sentence: one per word that lies inside it.
pub open spec fn karaoke_sentence(s: Span, words: Seq<Span>) -> Seq<EventView> {
    let idx = sentence_words(s, words);
    Seq::new(idx.len(), |k: int| karaoke_event(s, words, idx, k))
}

/// The karaoke track: the captions of each sentence, in sentence order.
pub open spec fn karaoke_track(sentences: Seq<Span>, words: Seq<Span>) -> Seq<EventView> {
    Seq::new(sentences.len(), |i: int| karaoke_sentence(sentences[i], words)).flatten()
}

/// The indices of the words that lie inside sentence `s`, in order.
pub fn words_in_sentence(s: &Sentence, words: &Vec<Word>) -> (r: Vec<usize>)
    ensures
        positions(r@) == sentence_words(s@, spans(words@)),
{
    let ghost ws = spans(words@);
    let mut r: Vec<usize> = Vec::new();
    let mut j: usize = 0;
    while j < words.len()
        invariant
            0 <= j <= words@.len(),
            ws == spans(words@),
            positions(r@) == contained_prefix(s@, ws, j as int),
        decreases words@.len() - j,
    {
        proof {
            assert(ws[j as int] == words@[j as int]@);
        }
        if words[j].start >= s.start && words[j].end <= s.end {
            r.push(j);
        }
        proof {
            assert(positions(r@) =~= contained_prefix(s@, ws, j + 1));
        }
        j = j + 1;
    }
    r
}

/// The karaoke caption for position `k` of the words `idx` of sentence `s`.
fn karaoke_caption(s: &Sentence, words: &Vec<Word>, idx: &Vec<usize>, k: usize) -> (r: CaptionEvent)
    requires
        k < idx@.len(),
        forall|i: int| 0 <= i < idx@.len() ==> #[trigger] idx@[i] < words@.len(),
    ensures
        r@ == karaoke_event(s@, spans(words@), positions(idx@), k as int),
{
    let ghost ws = spans(words@);
    let ghost ix = positions(idx@);
    let m = idx.len();
    let cs = k - k % CHUNK_SIZE;
    let ce = if cs + CHUNK_SIZE <= m { cs + CHUNK_SIZE } else { m };
    assert(cs == chunk_start(k as int) && ce == chunk_end(k as int, m as int));
    let end = if k + 1 < ce {
        words[idx[k + 1]].start
    } else if ce == m {
        s.end
    } else {
        words[idx[k]].end
    };
    proof {
        assert(ix[k as int] == idx@[k as int] as int);
        assert(ws[ix[k as int]] == words@[idx@[k as int] as int]@);
        if k + 1 < ce {
            assert(ix[k + 1] == idx@[k + 1] as int);
            assert(ws[ix[k + 1]] == words@[idx@[k + 1] as int]@);
        }
    }
    let mut runs: Vec<Run> = Vec::new();
    let mut j: usize = cs;
    while j < ce
        invariant
            cs <= j <= ce <= m,
            m == idx@.len(),
            cs == chunk_start(k as int),
            ce == chunk_end(k as int, m as int),
            ws == spans(words@),
            ix == positions(idx@),
            forall|i: int| 0 <= i < idx@.len() ==> #[trigger] idx@[i] < words@.len(),
            runs_view(runs@) =~= karaoke_runs(ws, ix, k as int).take(j - cs),
        decreases ce - j,
    {
        let tone = if j < k {
            Tone::Plain
        } else if j == k {
            Tone::Highlighted
        } else {
            Tone::Dim
        };
        let text = words[idx[j]].text.clone();
        proof {
            assert(ix[j as int] == idx@[j as int] as int);
            assert(ws[ix[j as int]] == words@[idx@[j as int] as int]@);
        }
        let ghost before = runs@;
        let run = Run { text, tone };
        assert(run@ == karaoke_runs(ws, ix, k as int)[j - cs]);
        runs.push(run);
        j = j + 1;
        proof {
            let kr = karaoke_runs(ws, ix, k as int);
            assert(runs@ == before.push(run));
            assert(kr.len() == ce - cs);
            assert(runs_view(before).len() == before.len());
            assert(before.len() == j - 1 - cs);
            assert forall|i: int| 0 <= i < runs@.len() implies #[trigger] runs_view(runs@)[i]
                == kr[i] by {
                if i < before.len() {
                    assert(runs_view(before)[i] == kr.take(j - 1 - cs)[i]);
                }
            }
            assert(runs_view(runs@) =~= kr.take(j - cs));
        }
    }
    assert(karaoke_runs(ws, ix, k as int).take(ce - cs) =~= karaoke_runs(ws, ix, k as int));
    CaptionEvent { start: words[idx[k]].start, end, runs }
}

/// The karaoke track of a transcript: for each sentence, in chunks of three of the words that
/// lie inside it, one caption per word that highlights it within its chunk.
pub fn karaoke_events(t: &Transcript) -> (r: Vec<CaptionEvent>)
    ensures
        events_view(r@) == karaoke_track(t.sentence_spans(), t.word_spans()),
{
    let ghost ss = t.sentence_spans();
    let ghost ws = t.word_spans();
    let ghost per = Seq::new(ss.len(), |i: int| karaoke_sentence(ss[i], ws));
    let mut out: Vec<CaptionEvent> = Vec::new();
    let mut i: usize = 0;
    while i < t.sentences.len()
        invariant
            0 <= i <= t.sentences@.len(),
            ss == t.sentence_spans(),
            ws == t.word_spans(),
            per == Seq::new(ss.len(), |i: int| karaoke_sentence(ss[i], ws)),
            events_view(out@) =~= per.take(i as int).flatten(),
        decreases t.sentences@.len() - i,
    {
        let s = &t.sentences[i];
        let idx = words_in_sentence(s, &t.words);
        proof {
            assert(ss[i as int] == s@);
            assert forall|q: int| 0 <= q < idx@.len() implies #[trigger] idx@[q] < t.words@.len() by {
                lemma_contained_prefix_bounded(s@, ws, ws.len() as int, q);
                assert(positions(idx@)[q] == idx@[q] as int);
            }
        }
        let ghost base = out@;
        let ghost sentence_events = karaoke_sentence(ss[i as int], ws);
        let mut k: usize = 0;
        while k < idx.len()
            invariant
                0 <= k <= idx@.len(),
                i < t.sentences@.len(),
                ss == t.sentence_spans(),
                ws == t.word_spans(),
                ss[i as int] == s@,
                positions(idx@) == sentence_words(s@, ws),
                forall|q: int| 0 <= q < idx@.len() ==> #[trigger] idx@[q] < t.words@.len(),
                sentence_events == karaoke_sentence(ss[i as int], ws),
                events_view(base) =~= per.take(i as int).flatten(),
                events_view(out@) =~= events_view(base) + sentence_events.take(k as int),
            decreases idx@.len() - k,
        {
            let ev = karaoke_caption(s, &t.words, &idx, k);
            let ghost prev = out@;
            out.push(ev);
            k = k + 1;
            proof {
                assert(out@ == prev.push(ev));
                assert(events_view(out@) =~= events_view(prev).push(ev@));
                assert(sentence_events.take(k as int) =~= sentence_events.take(k - 1).push(ev@));
            }
        }
        proof {
            assert(sentence_events.take(k as int) =~= sentence_events);
            assert(per.take(i + 1) =~= per.take(i as int).push(per[i as int]));
            per.take(i as int).lemma_flatten_push(per[i as int]);
        }
        i = i + 1;
    }
    proof {
        assert(per.take(i as int) =~= per);
    }
    out
}

/// Every index in `contained_prefix(s, words, n)` is below `n`.
proof fn lemma_contained_prefix_bounded(s: Span, words: Seq<Span>, n: int, q: int)
    requires
        0 <= q < contained_prefix(s, words, n).len(),
    ensures
        0 <= contained_prefix(s, words, n)[q] < n,
    decreases n,
{
    if n > 0 {
        let prev = contained_prefix(s, words, n - 1);
        if q < prev.len() {
            lemma_contained_prefix_bounded(s, words, n - 1, q);
        }
    }
}

/// Header of a structured subtitle document: script metadata and the one style it uses.
pub const ASS_HEADER: &'static str = "[Script Info]\nScriptType: v4.00+\nPlayResX: 1920\nPlayResY: 1080\n\n[V4+ Styles]\nFormat: Name, Fontname, Fontsize, PrimaryColour, SecondaryColour, OutlineColour, BackColour, Bold, Italic, Underline, StrikeOut, ScaleX, ScaleY, Spacing, Angle, BorderStyle, Outline, Shadow, Alignment, MarginL, MarginR, MarginV, Encoding\nStyle: Default,Arial,72,&H00282828,&H000000FF,&H00FFFFFF,&H00000000,-1,0,0,0,100,100,0,0,1,6,0,2,10,10,10,1\n\n[Events]\nFormat: Layer, Start, End, Style, Name, MarginL, MarginR, MarginV, Effect, Text\n\n";

/// Colour override put before the highlighted word.
pub const HIGHLIGHT_MARKUP: &'static str = "{\\c&HFF1757&}";

/// Colour override put before each word still to come.
pub const DIM_MARKUP: &'static str = "{\\c&H282828&}";

/// Start of a dialogue line, up to its start time.
pub const DIALOGUE_PREFIX: &'static str = "Dialogue: 0,";

/// Fields of a dialogue line between its end time and its text.
pub const DIALOGUE_FIELDS: &'static str = ",Default,,0,0,0,,{\\an5}";

/// End of a dialogue line: a hard line break in the caption, then a newline.
pub const DIALOGUE_END: &'static str = "\\N\n";

/// The markup of one run.
pub open spec fn ass_run(r: RunView) -> Seq<char> {
    match r.tone {
        Tone::Plain => r.text,
        Tone::Highlighted => HIGHLIGHT_MARKUP@ + r.text,
        Tone::Dim => DIM_MARKUP@ + r.text,
    }
}

/// The markup of a sequence of runs, separated by single spaces.
pub open spec fn ass_markup(runs: Seq<RunView>) -> Seq<char>
    decreases runs.len(),
{
    if runs.len() == 0 {
        Seq::empty()
    } else if runs.len() == 1 {
        ass_run(runs[0])
    } else {
        ass_markup(runs.drop_last()) + seq![' '] + ass_run(runs.last())
    }
}

/// The dialogue line of one caption event.
pub open spec fn dialogue_line(e: EventView) -> Seq<char> {
    DIALOGUE_PREFIX@ + ass_time(e.start) + seq![','] + ass_time(e.end) + DIALOGUE_FIELDS@
        + ass_markup(e.runs) + DIALOGUE_END@
}

/// The dialogue lines of a sequence of caption events, in order.
pub open spec fn dialogue_lines(evs: Seq<EventView>) -> Seq<char>
    decreases evs.len(),
{
    if evs.len() == 0 {
        Seq::empty()
    } else {
        dialogue_lines(evs.drop_last()) + dialogue_line(evs.last())
    }
}

/// A structured subtitle document: the header, then one dialogue line per event.
pub open spec fn ass_document(evs: Seq<EventView>) -> Seq<char> {
    ASS_HEADER@ + dialogue_lines(evs)
}

fn push_ass_markup(out: &mut String, runs: &Vec<Run>)
    ensures
        final(out)@ == old(out)@ + ass_markup(runs_view(runs@)),
{
    let ghost start = out@;
    let ghost rv = runs_view(runs@);
    let mut i: usize = 0;
    while i < runs.len()
        invariant
            0 <= i <= runs@.len(),
            rv == runs_view(runs@),
            out@ == start + ass_markup(rv.take(i as int)),
        decreases runs@.len() - i,
    {
        let ghost before = out@;
        proof {
            reveal_strlit(" ");
            assert(rv[i as int] == runs@[i as int]@);
            assert(rv.take(i + 1).drop_last() =~= rv.take(i as int));
            assert(rv.take(i + 1).last() == rv[i as int]);
            assert(rv.take(i + 1)[0] == rv[0]);
        }
        if i > 0 {
            out.append(" ");
        }
        match runs[i].tone {
            Tone::Plain => {},
            Tone::Highlighted => out.append(HIGHLIGHT_MARKUP),
            Tone::Dim => out.append(DIM_MARKUP),
        }
        out.append(runs[i].text.as_str());
        i = i + 1;
        proof {
            if i == 1 {
                assert(out@ =~= start + ass_markup(rv.take(i as int)));
            } else {
                assert(out@ =~= start + ass_markup(rv.take(i as int)));
            }
        }
    }
    assert(rv.take(i as int) =~= rv);
}

fn push_dialogue_line(out: &mut String, e: &CaptionEvent)
    ensures
        final(out)@ == old(out)@ + dialogue_line(e@),
{
    proof {
        reveal_strlit(",");
    }
    out.append(DIALOGUE_PREFIX);
    let t0 = format_time_ass(e.start);
    out.append(t0.as_str());
    out.append(",");
    let t1 = format_time_ass(e.end);
    out.append(t1.as_str());
    out.append(DIALOGUE_FIELDS);
    push_ass_markup(out, &e.runs);
    out.append(DIALOGUE_END);
    assert(final(out)@ =~= old(out)@ + dialogue_line(e@));
}

/// Renders caption events as a structured subtitle document.
pub fn render_ass(events: &Vec<CaptionEvent>) -> (r: String)
    ensures
        r@ == ass_document(events_view(events@)),
{
    let ghost evs = events_view(events@);
    let mut out = String::from_str(ASS_HEADER);
    let mut i: usize = 0;
    while i < events.len()
        invariant
            0 <= i <= events@.len(),
            evs == events_view(events@),
            out@ == ASS_HEADER@ + dialogue_lines(evs.take(i as int)),
        decreases events@.len() - i,
    {
        let e = &events[i];
        proof {
            assert(evs[i as int] == e@);
            assert(evs.take(i + 1).drop_last() =~= evs.take(i as int));
        }
        push_dialogue_line(&mut out, e);
        i = i + 1;
        proof {
            assert(out@ =~= ASS_HEADER@ + dialogue_lines(evs.take(i as int)));
        }
    }
    assert(evs.take(i as int) =~= evs);
    out
}

/// The two flash captions of a word: in the base style, then highlighted, over the same span.
pub open spec fn flash_pair(w: Span) -> Seq<EventView> {
    seq![
        EventView { start: w.start, end: w.end, runs: seq![RunView { text: w.text, tone: Tone::Plain }] },
        EventView { start: w.start, end: w.end, runs: seq![RunView { text: w.text, tone: Tone::Highlighted }] },
    ]
}

/// The flash track: the two captions of every word, in word order.
pub open spec fn flash_track(words: Seq<Span>) -> Seq<EventView> {
    Seq::new(words.len(), |j: int| flash_pair(words[j])).flatten()
}

fn single_run_event(w: &Word, tone: Tone) -> (r: CaptionEvent)
    ensures
        r@ == (EventView { start: w@.start, end: w@.end, runs: seq![RunView { text: w@.text, tone }] }),
{
    let mut runs: Vec<Run> = Vec::new();
    runs.push(Run { text: w.text.clone(), tone });
    assert(runs_view(runs@) =~= seq![RunView { text: w@.text, tone }]);
    CaptionEvent { start: w.start, end: w.end, runs }
}

/// The flash track of a transcript: every word, shown in the base style and highlighted.
pub fn flash_events(t: &Transcript) -> (r: Vec<CaptionEvent>)
    ensures
        events_view(r@) == flash_track(t.word_spans()),
{
    let ghost ws = t.word_spans();
    let ghost per = Seq::new(ws.len(), |j: int| flash_pair(ws[j]));
    let mut out: Vec<CaptionEvent> = Vec::new();
    let mut j: usize = 0;
    while j < t.words.len()
        invariant
            0 <= j <= t.words@.len(),
            ws == t.word_spans(),
            per == Seq::new(ws.len(), |j: int| flash_pair(ws[j])),
            events_view(out@) =~= per.take(j as int).flatten(),
        decreases t.words@.len() - j,
    {
        let w = &t.words[j];
        assert(ws[j as int] == w@);
        let ghost prev = out@;
        let base = single_run_event(w, Tone::Plain);
        let lit = single_run_event(w, Tone::Highlighted);
        out.push(base);
        out.push(lit);
        proof {
            assert(out@ == prev.push(base).push(lit));
            assert(events_view(out@) =~= events_view(prev) + flash_pair(w@));
            assert(per.take(j + 1) =~= per.take(j as int).push(per[j as int]));
            per.take(j as int).lemma_flatten_push(per[j as int]);
        }
        j = j + 1;
    }
    assert(per.take(j as int) =~= per);
    out
}

/// The text of a sequence of runs without markup, separated by single spaces.
pub open spec fn plain_text(runs: Seq<RunView>) -> Seq<char>
    decreases runs.len(),
{
    if runs.len() == 0 {
        Seq::empty()
    } else if runs.len() == 1 {
        runs[0].text
    } else {
        plain_text(runs.drop_last()) + seq![' '] + runs.last().text
    }
}

/// One entry of a sequential subtitle document: its number, its interval, its text, a blank line.
pub open spec fn srt_entry(n: nat, e: EventView) -> Seq<char> {
    decimal(n) + seq!['\n'] + srt_time(e.start) + " --> "@ + srt_time(e.end) + seq!['\n']
        + plain_text(e.runs) + seq!['\n', '\n']
}

/// The entries of a sequential subtitle document, numbered from one.
pub open spec fn srt_document(evs: Seq<EventView>) -> Seq<char>
    decreases evs.len(),
{
    if evs.len() == 0 {
        Seq::empty()
    } else {
        srt_document(evs.drop_last()) + srt_entry(evs.len(), evs.last())
    }
}

pub(crate) fn push_plain_text(out: &mut String, runs: &Vec<Run>)
    ensures
        final(out)@ == old(out)@ + plain_text(runs_view(runs@)),
{
    let ghost start = out@;
    let ghost rv = runs_view(runs@);
    let mut i: usize = 0;
    while i < runs.len()
        invariant
            0 <= i <= runs@.len(),
            rv == runs_view(runs@),
            out@ == start + plain_text(rv.take(i as int)),
        decreases runs@.len() - i,
    {
        proof {
            reveal_strlit(" ");
            assert(rv[i as int] == runs@[i as int]@);
            assert(rv.take(i + 1).drop_last() =~= rv.take(i as int));
            assert(rv.take(i + 1).last() == rv[i as int]);
            assert(rv.take(i + 1)[0] == rv[0]);
        }
        if i > 0 {
            out.append(" ");
        }
        out.append(runs[i].text.as_str());
        i = i + 1;
        assert(out@ =~= start + plain_text(rv.take(i as int)));
    }
    assert(rv.take(i as int) =~= rv);
}

fn push_srt_entry(out: &mut String, n: u64, e: &CaptionEvent)
    ensures
        final(out)@ == old(out)@ + srt_entry(n as nat, e@),
{
    proof {
        reveal_strlit("\n");
        reveal_strlit("\n\n");
    }
    let num = to_decimal(n);
    out.append(num.as_str());
    out.append("\n");
    let t0 = format_time_srt(e.start);
    out.append(t0.as_str());
    out.append(" --> ");
    let t1 = format_time_srt(e.end);
    out.append(t1.as_str());
    out.append("\n");
    push_plain_text(out, &e.runs);
    out.append("\n\n");
    assert(final(out)@ =~= old(out)@ + srt_entry(n as nat, e@));
}

/// Renders caption events as a sequential subtitle document.
pub fn render_srt(events: &Vec<CaptionEvent>) -> (r: String)
    ensures
        r@ == srt_document(events_view(events@)),
{
    let ghost evs = events_view(events@);
    let mut out = String::new();
    let mut i: usize = 0;
    while i < events.len()
        invariant
            0 <= i <= events@.len(),
            evs == events_view(events@),
            out@ == srt_document(evs.take(i as int)),
        decreases events@.len() - i,
    {
        let e = &events[i];
        proof {
            assert(evs[i as int] == e@);
            assert(evs.take(i + 1).drop_last() =~= evs.take(i as int));
        }
        push_srt_entry(&mut out, (i + 1) as u64, e);
        i = i + 1;
        assert(out@ =~= srt_document(evs.take(i as int)));
    }
    assert(evs.take(i as int) =~= evs);
    out
}

/// Every index in `contained_prefix(s, words, n)` names a word inside `s`.
proof fn lemma_contained_prefix_inside(s: Span, words: Seq<Span>, n: int, q: int)
    requires
        0 <= q < contained_prefix(s, words, n).len(),
        n <= words.len(),
    ensures
        contains_word(s, words[contained_prefix(s, words, n)[q]]),
    decreases n,
{
    if n > 0 {
        let prev = contained_prefix(s, words, n - 1);
        if q < prev.len() {
            lemma_contained_prefix_inside(s, words, n - 1, q);
        }
    }
}

proof fn lemma_flatten_pairs<A>(s: Seq<Seq<A>>, j: int)
    requires
        0 <= j < s.len(),
        forall|i: int| 0 <= i < s.len() ==> (#[trigger] s[i]).len() == 2,
    ensures
        s.flatten().len() == 2 * s.len(),
        s.flatten()[2 * j] == s[j][0],
        s.flatten()[2 * j + 1] == s[j][1],
{
    lemma_flatten_pairs_len(s.take(j));
    lemma_flatten_pairs_len(s.skip(j + 1));
    lemma_flatten_pairs_len(s);
    assert(s =~= s.take(j) + (seq![s[j]] + s.skip(j + 1)));
    lemma_flatten_concat(s.take(j), seq![s[j]] + s.skip(j + 1));
    lemma_flatten_concat(seq![s[j]], s.skip(j + 1));
    seq![s[j]].lemma_flatten_singleton();
}

proof fn lemma_flatten_pairs_len<A>(s: Seq<Seq<A>>)
    requires
        forall|i: int| 0 <= i < s.len() ==> (#[trigger] s[i]).len() == 2,
    ensures
        s.flatten().len() == 2 * s.len(),
    decreases s.len(),
{
    if s.len() > 0 {
        assert(s.drop_last().push(s.last()) =~= s);
        s.drop_last().lemma_flatten_push(s.last());
        lemma_flatten_pairs_len(s.drop_last());
    }
}

/// A word that lies inside no sentence feeds no karaoke caption, while the flash track still
/// shows it, in the base style and highlighted, at positions `2 * j` and `2 * j + 1`.
pub proof fn lemma_stray_word_only_flashed(sentences: Seq<Span>, words: Seq<Span>, j: int)
    requires
        0 <= j < words.len(),
        forall|i: int| 0 <= i < sentences.len() ==> !contains_word(#[trigger] sentences[i], words[j]),
    ensures
        forall|i: int, k: int|
            0 <= i < sentences.len() && 0 <= k < sentence_words(sentences[i], words).len()
                ==> #[trigger] sentence_words(sentences[i], words)[k] != j,
        flash_track(words)[2 * j] == flash_pair(words[j])[0],
        flash_track(words)[2 * j + 1] == flash_pair(words[j])[1],
{
    assert forall|i: int, k: int|
        0 <= i < sentences.len() && 0 <= k < sentence_words(sentences[i], words).len()
            implies #[trigger] sentence_words(sentences[i], words)[k] != j by {
        lemma_contained_prefix_inside(sentences[i], words, words.len() as int, k);
    }
    let per = Seq::new(words.len(), |q: int| flash_pair(words[q]));
    lemma_flatten_pairs(per, j);
}

} // verus!
