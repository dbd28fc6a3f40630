use vstd::prelude::*;

use crate::text::chars_of;
use crate::time::{decimal, push_seconds, seconds_text, to_decimal};
use crate::captions::{events_view, plain_text, push_plain_text, CaptionEvent, EventView, Tone};

verus! {

/// Names a stream of the filter graph.
#[derive(Debug, Clone, Copy, PartialEq, Eq, Structural)]
pub enum Label {
    /// The video stream of input `i`.
    VideoInput(usize),
    /// The audio stream of input `i`.
    AudioInput(usize),
    /// Image `i`, scaled and cropped to the frame.
    Scaled(usize),
    /// Image `i`, cut to its segment.
    Trimmed(usize),
    /// All segments, one after another.
    Video,
    /// The narration, normalised.
    Narration,
    /// The music, normalised and attenuated.
    Background,
    /// Narration and music mixed.
    MixedAudio,
    /// Video and mixed audio together.
    Joined,
    /// The video after the first `i + 1` word overlays.
    Overlay(usize),
    /// The final stream.
    Output,
}

/// What a stage does to its inputs.
pub enum Operation {
    /// Scale to cover the frame, crop to it, square pixels.
    ScaleCrop,
    /// Keep the first `duration` milliseconds, with timestamps from zero.
    Trim { duration: u64 },
    /// Join `segments` segments of `video` video and `audio` audio streams each.
    Concat { segments: usize, video: usize, audio: usize },
    /// Normalise an audio stream and keep its first `duration` milliseconds; `attenuate`
    /// lowers its gain as well.
    AudioFormat { duration: u64, attenuate: bool },
    /// Mix `inputs` audio streams, the first one deciding the length.
    Mix { inputs: usize },
    /// Burn in the subtitle document at `path`.
    Subtitles { path: String },
    /// Draw `text` from `start` to `end` milliseconds, highlighted or in the base colour.
    DrawText { text: String, start: u64, end: u64, highlighted: bool },
    /// Pass the stream through unchanged.
    Pass,
}

/// What an operation is, with its text as characters.
pub enum OpView {
    ScaleCrop,
    Trim { duration: nat },
    Concat { segments: nat, video: nat, audio: nat },
    AudioFormat { duration: nat, attenuate: bool },
    Mix { inputs: nat },
    Subtitles { path: Seq<char> },
    DrawText { text: Seq<char>, start: nat, end: nat, highlighted: bool },
    Pass,
}

impl View for Operation {
    type V = OpView;

    open spec fn view(&self) -> OpView {
        match self {
            Operation::ScaleCrop => OpView::ScaleCrop,
            Operation::Trim { duration } => OpView::Trim { duration: *duration as nat },
            Operation::Concat { segments, video, audio } => OpView::Concat {
                segments: *segments as nat,
                video: *video as nat,
                audio: *audio as nat,
            },
            Operation::AudioFormat { duration, attenuate } => OpView::AudioFormat {
                duration: *duration as nat,
                attenuate: *attenuate,
            },
            Operation::Mix { inputs } => OpView::Mix { inputs: *inputs as nat },
            Operation::Subtitles { path } => OpView::Subtitles { path: path@ },
            Operation::DrawText { text, start, end, highlighted } => OpView::DrawText {
                text: text@,
                start: *start as nat,
                end: *end as nat,
                highlighted: *highlighted,
            },
            Operation::Pass => OpView::Pass,
        }
    }
}

/// One stage of the filter graph: it reads its input streams and produces one stream.
pub struct FilterStage {
    pub inputs: Vec<Label>,
    pub operation: Operation,
    pub output: Label,
}

/// What a stage is.
pub struct StageView {
    pub inputs: Seq<Label>,
    pub op: OpView,
    pub output: Label,
}

impl View for FilterStage {
    type V = StageView;

    open spec fn view(&self) -> StageView {
        StageView { inputs: self.inputs@, op: self.operation@, output: self.output }
    }
}

/// The views of a sequence of stages.
pub open spec fn stages_view(v: Seq<FilterStage>) -> Seq<StageView> {
    v.map_values(|s: FilterStage| s@)
}

/// How the captions reach the picture.
pub enum CaptionTrack {
    /// Burn in the subtitle document at `path`.
    Subtitles { path: String },
    /// Draw every caption event over the picture, one stage each.
    Overlays { events: Vec<CaptionEvent> },
}

/// What a caption track is.
pub enum TrackView {
    Subtitles { path: Seq<char> },
    Overlays { events: Seq<EventView> },
}

impl View for CaptionTrack {
    type V = TrackView;

    open spec fn view(&self) -> TrackView {
        match self {
            CaptionTrack::Subtitles { path } => TrackView::Subtitles { path: path@ },
            CaptionTrack::Overlays { events } => TrackView::Overlays { events: events_view(events@) },
        }
    }
}

/// The stage that scales and crops image `i`.
pub open spec fn scale_stage(i: int) -> StageView {
    StageView { inputs: seq![Label::VideoInput(i as usize)], op: OpView::ScaleCrop, output: Label::Scaled(i as usize) }
}

/// The stage that cuts image `i` to `duration` milliseconds.
pub open spec fn trim_stage(i: int, duration: nat) -> StageView {
    StageView {
        inputs: seq![Label::Scaled(i as usize)],
        op: OpView::Trim { duration },
        output: Label::Trimmed(i as usize),
    }
}

/// The stage that joins the `n` cut images in order.
pub open spec fn concat_stage(n: nat) -> StageView {
    StageView {
        inputs: Seq::new(n, |i: int| Label::Trimmed(i as usize)),
        op: OpView::Concat { segments: n, video: 1, audio: 0 },
        output: Label::Video,
    }
}

/// The audio stages for `n` images, a programme of `total` milliseconds, with or without music.
pub open spec fn audio_stages(n: nat, total: nat, music: bool) -> Seq<StageView> {
    let narration = StageView {
        inputs: seq![Label::AudioInput(n as usize)],
        op: OpView::AudioFormat { duration: total, attenuate: false },
        output: Label::Narration,
    };
    if music {
        seq![
            narration,
            StageView {
                inputs: seq![Label::AudioInput((n + 1) as usize)],
                op: OpView::AudioFormat { duration: total, attenuate: true },
                output: Label::Background,
            },
            StageView {
                inputs: seq![Label::Narration, Label::Background],
                op: OpView::Mix { inputs: 2 },
                output: Label::MixedAudio,
            },
        ]
    } else {
        seq![
            narration,
            StageView { inputs: seq![Label::Narration], op: OpView::Mix { inputs: 1 }, output: Label::MixedAudio },
        ]
    }
}

/// The stage that puts the video and the mixed audio together.
pub open spec fn join_stage() -> StageView {
    StageView {
        inputs: seq![Label::Video, Label::MixedAudio],
        op: OpView::Concat { segments: 1, video: 1, audio: 1 },
        output: Label::Joined,
    }
}

/// Whether an event is drawn highlighted: its first run is.
pub open spec fn is_highlighted(e: EventView) -> bool {
    e.runs.len() > 0 && e.runs[0].tone == Tone::Highlighted
}

/// The overlay stage of event `k` of `count`: it reads the stream before it and the last one
/// writes the final stream.
pub open spec fn overlay_stage(e: EventView, k: int, count: int) -> StageView {
    StageView {
        inputs: seq![if k == 0 { Label::Joined } else { Label::Overlay((k - 1) as usize) }],
        op: OpView::DrawText {
            text: plain_text(e.runs),
            start: e.start,
            end: e.end,
            highlighted: is_highlighted(e),
        },
        output: if k == count - 1 { Label::Output } else { Label::Overlay(k as usize) },
    }
}

/// The caption stages.
pub open spec fn caption_stages(track: TrackView) -> Seq<StageView> {
    match track {
        TrackView::Subtitles { path } => seq![
            StageView { inputs: seq![Label::Joined], op: OpView::Subtitles { path }, output: Label::Output },
        ],
        TrackView::Overlays { events } => if events.len() == 0 {
            seq![StageView { inputs: seq![Label::Joined], op: OpView::Pass, output: Label::Output }]
        } else {
            Seq::new(events.len(), |k: int| overlay_stage(events[k], k, events.len() as int))
        },
    }
}

/// The whole graph for images shown for `durations`, a programme of `total` milliseconds,
/// with or without music, and a caption track.
pub open spec fn graph_of(durations: Seq<u64>, total: nat, music: bool, track: TrackView) -> Seq<StageView> {
    let n = durations.len();
    Seq::new(n, |i: int| scale_stage(i)) + Seq::new(n, |i: int| trim_stage(i, durations[i] as nat))
        + seq![concat_stage(n)] + audio_stages(n, total, music) + seq![join_stage()] + caption_stages(track)
}

fn push_stage(out: &mut Vec<FilterStage>, inputs: Vec<Label>, operation: Operation, output: Label)
    ensures
        stages_view(final(out)@) == stages_view(old(out)@).push(
            StageView { inputs: inputs@, op: operation@, output },
        ),
{
    let stage = FilterStage { inputs, operation, output };
    let ghost before = out@;
    out.push(stage);
    assert(stages_view(out@) =~= stages_view(before).push(stage@));
}

fn one_label(l: Label) -> (r: Vec<Label>)
    ensures
        r@ == seq![l],
{
    let mut v: Vec<Label> = Vec::new();
    v.push(l);
    assert(v@ =~= seq![l]);
    v
}

fn two_labels(a: Label, b: Label) -> (r: Vec<Label>)
    ensures
        r@ == seq![a, b],
{
    let mut v: Vec<Label> = Vec::new();
    v.push(a);
    v.push(b);
    assert(v@ =~= seq![a, b]);
    v
}

fn overlay_operation(e: &CaptionEvent) -> (r: Operation)
    ensures
        r@ == (OpView::DrawText {
            text: plain_text(e@.runs),
            start: e@.start,
            end: e@.end,
            highlighted: is_highlighted(e@),
        }),
{
    let mut text = String::new();
    push_plain_text(&mut text, &e.runs);
    assert(text@ =~= plain_text(e@.runs));
    let highlighted = e.runs.len() > 0 && match e.runs[0].tone {
        Tone::Highlighted => true,
        _ => false,
    };
    proof {
        if e.runs@.len() > 0 {
            assert(e@.runs[0] == e.runs@[0]@);
        }
    }
    Operation::DrawText { text, start: e.start, end: e.end, highlighted }
}

fn push_caption_stages(out: &mut Vec<FilterStage>, track: &CaptionTrack)
    ensures
        stages_view(final(out)@) == stages_view(old(out)@) + caption_stages(track@),
{
    let ghost start = stages_view(out@);
    match track {
        CaptionTrack::Subtitles { path } => {
            push_stage(out, one_label(Label::Joined), Operation::Subtitles { path: path.clone() }, Label::Output);
            assert(stages_view(out@) =~= start + caption_stages(track@));
        },
        CaptionTrack::Overlays { events } => {
            let count = events.len();
            if count == 0 {
                push_stage(out, one_label(Label::Joined), Operation::Pass, Label::Output);
                assert(stages_view(out@) =~= start + caption_stages(track@));
            } else {
                let ghost evs = events_view(events@);
                let ghost all = caption_stages(track@);
                let mut k: usize = 0;
                while k < count
                    invariant
                        0 <= k <= count == events@.len() > 0,
                        evs == events_view(events@),
                        all == Seq::new(evs.len(), |k: int| overlay_stage(evs[k], k, evs.len() as int)),
                        stages_view(out@) =~= start + all.take(k as int),
                    decreases count - k,
                {
                    let input = if k == 0 { Label::Joined } else { Label::Overlay(k - 1) };
                    let output = if k == count - 1 { Label::Output } else { Label::Overlay(k) };
                    let op = overlay_operation(&events[k]);
                    assert(evs[k as int] == events@[k as int]@);
                    push_stage(out, one_label(input), op, output);
                    k = k + 1;
                    assert(all.take(k as int) =~= all.take(k - 1).push(all[k - 1]));
                }
                assert(all.take(k as int) =~= all);
            }
        },
    }
}

/// Builds the filter graph: for each image a scale-and-crop stage, then a trim to its duration;
/// the trimmed images joined in order; the narration, and the music if there is any, normalised
/// and mixed; video and audio joined; then the captions.
pub fn build_graph(durations: &Vec<u64>, total: u64, music: bool, track: &CaptionTrack) -> (r: Vec<FilterStage>)
    requires
        durations@.len() + 2 <= usize::MAX,
    ensures
        stages_view(r@) == graph_of(durations@, total as nat, music, track@),
{
    let n = durations.len();
    let ghost nn = n as nat;
    let mut out: Vec<FilterStage> = Vec::new();
    let ghost scales = Seq::new(nn, |i: int| scale_stage(i));
    let ghost trims = Seq::new(nn, |i: int| trim_stage(i, durations@[i] as nat));
    assert(stages_view(out@) =~= scales.take(0));
    let mut i: usize = 0;
    while i < n
        invariant
            0 <= i <= n == durations@.len(),
            scales == Seq::new(n as nat, |i: int| scale_stage(i)),
            stages_view(out@) =~= scales.take(i as int),
        decreases n - i,
    {
        push_stage(&mut out, one_label(Label::VideoInput(i)), Operation::ScaleCrop, Label::Scaled(i));
        i = i + 1;
        assert(scales.take(i as int) =~= scales.take(i - 1).push(scales[i - 1]));
    }
    assert(scales.take(n as int) =~= scales);
    let mut i: usize = 0;
    while i < n
        invariant
            0 <= i <= n == durations@.len(),
            scales == Seq::new(n as nat, |i: int| scale_stage(i)),
            trims == Seq::new(n as nat, |i: int| trim_stage(i, durations@[i] as nat)),
            stages_view(out@) =~= scales + trims.take(i as int),
        decreases n - i,
    {
        push_stage(&mut out, one_label(Label::Scaled(i)), Operation::Trim { duration: durations[i] }, Label::Trimmed(i));
        i = i + 1;
        assert(trims.take(i as int) =~= trims.take(i - 1).push(trims[i - 1]));
    }
    assert(trims.take(n as int) =~= trims);
    let mut joined: Vec<Label> = Vec::new();
    let mut i: usize = 0;
    while i < n
        invariant
            0 <= i <= n,
            joined@ =~= Seq::new(i as nat, |k: int| Label::Trimmed(k as usize)),
        decreases n - i,
    {
        joined.push(Label::Trimmed(i));
        i = i + 1;
    }
    push_stage(&mut out, joined, Operation::Concat { segments: n, video: 1, audio: 0 }, Label::Video);
    let ghost video_part = scales + trims + seq![concat_stage(nn)];
    assert(stages_view(out@) =~= video_part);
    push_stage(&mut out, one_label(Label::AudioInput(n)), Operation::AudioFormat { duration: total, attenuate: false }, Label::Narration);
    if music {
        push_stage(&mut out, one_label(Label::AudioInput(n + 1)), Operation::AudioFormat { duration: total, attenuate: true }, Label::Background);
        push_stage(&mut out, two_labels(Label::Narration, Label::Background), Operation::Mix { inputs: 2 }, Label::MixedAudio);
    } else {
        push_stage(&mut out, one_label(Label::Narration), Operation::Mix { inputs: 1 }, Label::MixedAudio);
    }
    assert(stages_view(out@) =~= video_part + audio_stages(nn, total as nat, music));
    push_stage(&mut out, two_labels(Label::Video, Label::MixedAudio), Operation::Concat { segments: 1, video: 1, audio: 1 }, Label::Joined);
    push_caption_stages(&mut out, track);
    assert(stages_view(out@) =~= graph_of(durations@, total as nat, music, track@));
    out
}

/// Width of the output frame in pixels.
pub const FRAME_WIDTH: u64 = 1080;

/// Height of the output frame in pixels: the width over a 9:16 aspect ratio.
pub const FRAME_HEIGHT: u64 = FRAME_WIDTH * 16 / 9;

/// Characters that the compositor's filter syntax reads as structure.
pub open spec fn is_special(c: char) -> bool {
    c == '\\' || c == '\'' || c == ':' || c == ',' || c == ';' || c == '[' || c == ']'
}

/// `s` with a backslash before each special character.
pub open spec fn escaped(s: Seq<char>) -> Seq<char>
    decreases s.len(),
{
    if s.len() == 0 {
        Seq::empty()
    } else if is_special(s.last()) {
        escaped(s.drop_last()) + seq!['\\', s.last()]
    } else {
        escaped(s.drop_last()).push(s.last())
    }
}

/// The text of a label, in brackets.
pub open spec fn label_text(l: Label) -> Seq<char> {
    match l {
        Label::VideoInput(i) => seq!['['] + decimal(i as nat) + ":v]"@,
        Label::AudioInput(i) => seq!['['] + decimal(i as nat) + ":a]"@,
        Label::Scaled(i) => "[v"@ + decimal(i as nat) + seq![']'],
        Label::Trimmed(i) => "[v"@ + decimal(i as nat) + "trim]"@,
        Label::Video => "[outv]"@,
        Label::Narration => "[narration]"@,
        Label::Background => "[background]"@,
        Label::MixedAudio => "[mixed_audio]"@,
        Label::Joined => "[outv_a]"@,
        Label::Overlay(i) => "[ov"@ + decimal(i as nat) + seq![']'],
        Label::Output => "[output]"@,
    }
}

/// The texts of a sequence of labels, run together.
pub open spec fn labels_text(ls: Seq<Label>) -> Seq<char>
    decreases ls.len(),
{
    if ls.len() == 0 {
        Seq::empty()
    } else {
        labels_text(ls.drop_last()) + label_text(ls.last())
    }
}

/// The text of an operation.
pub open spec fn op_text(op: OpView) -> Seq<char> {
    match op {
        OpView::ScaleCrop => "scale="@ + decimal(FRAME_WIDTH as nat) + seq![':'] + decimal(FRAME_HEIGHT as nat)
            + ":force_original_aspect_ratio=increase,crop="@ + decimal(FRAME_WIDTH as nat) + seq![':']
            + decimal(FRAME_HEIGHT as nat) + ",setsar=1"@,
        OpView::Trim { duration } => "trim=0:"@ + seconds_text(duration) + ",setpts=PTS-STARTPTS"@,
        OpView::Concat { segments, video, audio } => "concat=n="@ + decimal(segments) + ":v="@ + decimal(video)
            + ":a="@ + decimal(audio),
        OpView::AudioFormat { duration, attenuate } => AUDIO_FORMAT@ + seconds_text(duration) + (if attenuate {
            ATTENUATION@
        } else {
            Seq::empty()
        }),
        OpView::Mix { inputs } => "amix=inputs="@ + decimal(inputs) + ":duration=first"@,
        OpView::Subtitles { path } => "ass="@ + escaped(path),
        OpView::DrawText { text, start, end, highlighted } => "drawtext=text="@ + escaped(text)
            + ":enable='between(t,"@ + seconds_text(start) + seq![','] + seconds_text(end) + ")':fontsize=72:fontcolor="@
            + (if highlighted { HIGHLIGHT_COLOUR@ } else { BASE_COLOUR@ }) + TEXT_PLACEMENT@,
        OpView::Pass => "null"@,
    }
}

/// Audio normalisation, up to the trim length.
pub const AUDIO_FORMAT: &'static str = "aformat=sample_fmts=fltp:sample_rates=44100:channel_layouts=stereo,atrim=0:";

/// The gain applied to background music.
pub const ATTENUATION: &'static str = ",volume=0.05";

/// Colour of a highlighted overlay word.
pub const HIGHLIGHT_COLOUR: &'static str = "0x5717FF";

/// Colour of an overlay word in the base style.
pub const BASE_COLOUR: &'static str = "white";

/// Where overlay words are drawn: centred.
pub const TEXT_PLACEMENT: &'static str = ":x=(w-text_w)/2:y=(h-text_h)/2";

/// The text of one stage: its input labels, its operation, its output label.
pub open spec fn stage_text(s: StageView) -> Seq<char> {
    labels_text(s.inputs) + op_text(s.op) + label_text(s.output)
}

/// The text of a graph: its stages separated by semicolons.
pub open spec fn graph_text(stages: Seq<StageView>) -> Seq<char>
    decreases stages.len(),
{
    if stages.len() == 0 {
        Seq::empty()
    } else if stages.len() == 1 {
        stage_text(stages[0])
    } else {
        graph_text(stages.drop_last()) + seq![';'] + stage_text(stages.last())
    }
}

fn push_escaped(out: &mut String, s: &str)
    ensures
        final(out)@ == old(out)@ + escaped(s@),
{
    let v = chars_of(s);
    let ghost start = out@;
    let mut i: usize = 0;
    while i < v.len()
        invariant
            0 <= i <= v@.len(),
            v@ == s@,
            out@ == start + escaped(s@.take(i as int)),
        decreases v@.len() - i,
    {
        let c = v[i];
        proof {
            reveal_strlit("\\");
            assert(s@.take(i + 1).drop_last() =~= s@.take(i as int));
            assert(s@.take(i + 1).last() == c);
        }
        if c == '\\' || c == '\'' || c == ':' || c == ',' || c == ';' || c == '[' || c == ']' {
            out.append("\\");
        }
        out.append(s.substring_char(i, i + 1));
        i = i + 1;
        assert(out@ =~= start + escaped(s@.take(i as int)));
    }
    assert(s@.take(i as int) =~= s@);
}

fn push_decimal(out: &mut String, n: usize)
    ensures
        final(out)@ == old(out)@ + decimal(n as nat),
{
    let d = to_decimal(n as u64);
    out.append(d.as_str());
}

fn push_label(out: &mut String, l: Label)
    ensures
        final(out)@ == old(out)@ + label_text(l),
{
    proof {
        reveal_strlit("[");
        reveal_strlit("]");
    }
    match l {
        Label::VideoInput(i) => {
            out.append("[");
            push_decimal(out, i);
            out.append(":v]");
        },
        Label::AudioInput(i) => {
            out.append("[");
            push_decimal(out, i);
            out.append(":a]");
        },
        Label::Scaled(i) => {
            out.append("[v");
            push_decimal(out, i);
            out.append("]");
        },
        Label::Trimmed(i) => {
            out.append("[v");
            push_decimal(out, i);
            out.append("trim]");
        },
        Label::Video => out.append("[outv]"),
        Label::Narration => out.append("[narration]"),
        Label::Background => out.append("[background]"),
        Label::MixedAudio => out.append("[mixed_audio]"),
        Label::Joined => out.append("[outv_a]"),
        Label::Overlay(i) => {
            out.append("[ov");
            push_decimal(out, i);
            out.append("]");
        },
        Label::Output => out.append("[output]"),
    }
    assert(final(out)@ =~= old(out)@ + label_text(l));
}

fn push_operation(out: &mut String, op: &Operation)
    ensures
        final(out)@ == old(out)@ + op_text(op@),
{
    proof {
        reveal_strlit(":");
        reveal_strlit(",");
    }
    match op {
        Operation::ScaleCrop => {
            out.append("scale=");
            out.append(to_decimal(FRAME_WIDTH).as_str());
            out.append(":");
            out.append(to_decimal(FRAME_HEIGHT).as_str());
            out.append(":force_original_aspect_ratio=increase,crop=");
            out.append(to_decimal(FRAME_WIDTH).as_str());
            out.append(":");
            out.append(to_decimal(FRAME_HEIGHT).as_str());
            out.append(",setsar=1");
        },
        Operation::Trim { duration } => {
            out.append("trim=0:");
            push_seconds(out, *duration);
            out.append(",setpts=PTS-STARTPTS");
        },
        Operation::Concat { segments, video, audio } => {
            out.append("concat=n=");
            push_decimal(out, *segments);
            out.append(":v=");
            push_decimal(out, *video);
            out.append(":a=");
            push_decimal(out, *audio);
        },
        Operation::AudioFormat { duration, attenuate } => {
            out.append(AUDIO_FORMAT);
            push_seconds(out, *duration);
            if *attenuate {
                out.append(ATTENUATION);
            }
        },
        Operation::Mix { inputs } => {
            out.append("amix=inputs=");
            push_decimal(out, *inputs);
            out.append(":duration=first");
        },
        Operation::Subtitles { path } => {
            out.append("ass=");
            push_escaped(out, path.as_str());
        },
        Operation::DrawText { text, start, end, highlighted } => {
            out.append("drawtext=text=");
            push_escaped(out, text.as_str());
            out.append(":enable='between(t,");
            push_seconds(out, *start);
            out.append(",");
            push_seconds(out, *end);
            out.append(")':fontsize=72:fontcolor=");
            if *highlighted {
                out.append(HIGHLIGHT_COLOUR);
            } else {
                out.append(BASE_COLOUR);
            }
            out.append(TEXT_PLACEMENT);
        },
        Operation::Pass => out.append("null"),
    }
    assert(final(out)@ =~= old(out)@ + op_text(op@));
}

fn push_stage_text(out: &mut String, stage: &FilterStage)
    ensures
        final(out)@ == old(out)@ + stage_text(stage@),
{
    let ghost start = out@;
    let mut i: usize = 0;
    while i < stage.inputs.len()
        invariant
            0 <= i <= stage.inputs@.len(),
            out@ == start + labels_text(stage.inputs@.take(i as int)),
        decreases stage.inputs@.len() - i,
    {
        assert(stage.inputs@.take(i + 1).drop_last() =~= stage.inputs@.take(i as int));
        push_label(out, stage.inputs[i]);
        i = i + 1;
        assert(out@ =~= start + labels_text(stage.inputs@.take(i as int)));
    }
    assert(stage.inputs@.take(i as int) =~= stage.inputs@);
    push_operation(out, &stage.operation);
    push_label(out, stage.output);
    assert(final(out)@ =~= start + stage_text(stage@));
}

/// Renders a filter graph as text: its stages, separated by semicolons.
pub fn render_graph(stages: &Vec<FilterStage>) -> (r: String)
    ensures
        r@ == graph_text(stages_view(stages@)),
{
    let ghost sv = stages_view(stages@);
    let mut out = String::new();
    let mut i: usize = 0;
    while i < stages.len()
        invariant
            0 <= i <= stages@.len(),
            sv == stages_view(stages@),
            out@ == graph_text(sv.take(i as int)),
        decreases stages@.len() - i,
    {
        proof {
            reveal_strlit(";");
            assert(sv[i as int] == stages@[i as int]@);
            assert(sv.take(i + 1).drop_last() =~= sv.take(i as int));
            assert(sv.take(i + 1)[0] == sv[0]);
        }
        if i > 0 {
            out.append(";");
        }
        push_stage_text(&mut out, &stages[i]);
        i = i + 1;
        assert(out@ =~= graph_text(sv.take(i as int)));
    }
    assert(sv.take(i as int) =~= sv);
    out
}

/// How many stages of `g` satisfy `p`.
pub open spec fn count_stages(g: Seq<StageView>, p: spec_fn(StageView) -> bool) -> nat
    decreases g.len(),
{
    if g.len() == 0 {
        0
    } else {
        count_stages(g.drop_last(), p) + if p(g.last()) { 1nat } else { 0nat }
    }
}

/// The stage scales and crops an image.
pub open spec fn is_scale(s: StageView) -> bool {
    s.op is ScaleCrop
}

/// The stage trims an image to its segment.
pub open spec fn is_trim(s: StageView) -> bool {
    s.op is Trim
}

/// The stage concatenates `n` video-only segments.
pub open spec fn is_segment_concat(s: StageView, n: nat) -> bool {
    s.op == (OpView::Concat { segments: n, video: 1, audio: 0 })
}

proof fn lemma_count_add(a: Seq<StageView>, b: Seq<StageView>, p: spec_fn(StageView) -> bool)
    ensures
        count_stages(a + b, p) == count_stages(a, p) + count_stages(b, p),
    decreases b.len(),
{
    if b.len() == 0 {
        assert(a + b =~= a);
    } else {
        assert((a + b).drop_last() =~= a + b.drop_last());
        lemma_count_add(a, b.drop_last(), p);
    }
}

proof fn lemma_count_uniform(g: Seq<StageView>, p: spec_fn(StageView) -> bool, all: bool)
    requires
        forall|i: int| 0 <= i < g.len() ==> p(#[trigger] g[i]) == all,
    ensures
        count_stages(g, p) == if all { g.len() } else { 0 },
    decreases g.len(),
{
    if g.len() > 0 {
        assert(p(g[g.len() - 1]) == all);
        lemma_count_uniform(g.drop_last(), p, all);
    }
}

/// For `n` images the graph has exactly `n` scale-and-crop stages, `n` trim stages and one
/// stage that concatenates `n` video segments.
pub proof fn lemma_graph_stage_counts(durations: Seq<u64>, total: nat, music: bool, track: TrackView)
    ensures
        count_stages(graph_of(durations, total, music, track), |s: StageView| is_scale(s)) == durations.len(),
        count_stages(graph_of(durations, total, music, track), |s: StageView| is_trim(s)) == durations.len(),
        count_stages(
            graph_of(durations, total, music, track),
            |s: StageView| is_segment_concat(s, durations.len()),
        ) == 1,
{
    let n = durations.len();
    let scales = Seq::new(n, |i: int| scale_stage(i));
    let trims = Seq::new(n, |i: int| trim_stage(i, durations[i] as nat));
    let concat = seq![concat_stage(n)];
    let audio = audio_stages(n, total, music);
    let join = seq![join_stage()];
    let caps = caption_stages(track);
    let ps = |s: StageView| is_scale(s);
    let pt = |s: StageView| is_trim(s);
    let pc = |s: StageView| is_segment_concat(s, n);
    assert(graph_of(durations, total, music, track) == scales + trims + concat + audio + join + caps);
    assert forall|i: int| 0 <= i < caps.len() implies !is_scale(#[trigger] caps[i]) && !is_trim(caps[i])
        && !is_segment_concat(caps[i], n) by {
        match track {
            TrackView::Subtitles { path } => {},
            TrackView::Overlays { events } => {},
        }
    }
    assert forall|i: int| 0 <= i < audio.len() implies !is_scale(#[trigger] audio[i]) && !is_trim(audio[i])
        && !is_segment_concat(audio[i], n) by {}
    lemma_count_uniform(scales, ps, true);
    lemma_count_uniform(scales, pt, false);
    lemma_count_uniform(scales, pc, false);
    lemma_count_uniform(trims, ps, false);
    lemma_count_uniform(trims, pt, true);
    lemma_count_uniform(trims, pc, false);
    lemma_count_uniform(concat, ps, false);
    lemma_count_uniform(concat, pt, false);
    lemma_count_uniform(concat, pc, true);
    lemma_count_uniform(audio, ps, false);
    lemma_count_uniform(audio, pt, false);
    lemma_count_uniform(audio, pc, false);
    lemma_count_uniform(join, ps, false);
    lemma_count_uniform(join, pt, false);
    lemma_count_uniform(join, pc, false);
    lemma_count_uniform(caps, ps, false);
    lemma_count_uniform(caps, pt, false);
    lemma_count_uniform(caps, pc, false);
    let g1 = scales + trims;
    let g2 = g1 + concat;
    let g3 = g2 + audio;
    let g4 = g3 + join;
    lemma_count_add(scales, trims, ps);
    lemma_count_add(g1, concat, ps);
    lemma_count_add(g2, audio, ps);
    lemma_count_add(g3, join, ps);
    lemma_count_add(g4, caps, ps);
    lemma_count_add(scales, trims, pt);
    lemma_count_add(g1, concat, pt);
    lemma_count_add(g2, audio, pt);
    lemma_count_add(g3, join, pt);
    lemma_count_add(g4, caps, pt);
    lemma_count_add(scales, trims, pc);
    lemma_count_add(g1, concat, pc);
    lemma_count_add(g2, audio, pc);
    lemma_count_add(g3, join, pc);
    lemma_count_add(g4, caps, pc);
}

/// A label that names a stream of one of the compositor's inputs.
pub open spec fn is_input_label(l: Label) -> bool {
    l is VideoInput || l is AudioInput
}

/// No two stages produce the same stream, and no stage produces an input's stream.
pub open spec fn outputs_unique(g: Seq<StageView>) -> bool {
    &&& forall|a: int, b: int| 0 <= a < b < g.len() ==> #[trigger] g[a].output != #[trigger] g[b].output
    &&& forall|a: int| 0 <= a < g.len() ==> !is_input_label(#[trigger] g[a].output)
}

/// Every stream that a stage reads is an input's or the output of an earlier stage.
pub open spec fn inputs_defined(g: Seq<StageView>) -> bool {
    forall|s: int, k: int|
        0 <= s < g.len() && 0 <= k < g[s].inputs.len() ==> is_input_label(#[trigger] g[s].inputs[k]) || exists|t: int|
            0 <= t < s && #[trigger] g[t].output == g[s].inputs[k]
}

/// The number of audio stages.
pub open spec fn audio_count(music: bool) -> int {
    if music { 3 } else { 2 }
}

/// The position of the stage that produces `l` in a graph of `n` images.
pub open spec fn producer(l: Label, n: int, music: bool, last: int) -> int {
    let a = audio_count(music);
    match l {
        Label::Scaled(i) => i as int,
        Label::Trimmed(i) => n + i,
        Label::Video => 2 * n,
        Label::Narration => 2 * n + 1,
        Label::Background => 2 * n + 2,
        Label::MixedAudio => 2 * n + a,
        Label::Joined => 2 * n + a + 1,
        Label::Overlay(k) => 2 * n + a + 2 + k,
        Label::Output => last,
        _ => -1,
    }
}

proof fn lemma_graph_stage(durations: Seq<u64>, total: nat, music: bool, track: TrackView, i: int)
    requires
        0 <= i < graph_of(durations, total, music, track).len(),
    ensures
        ({
            let g = graph_of(durations, total, music, track);
            let n = durations.len() as int;
            let a = audio_count(music);
            &&& g.len() == 2 * n + a + 2 + caption_stages(track).len()
            &&& i < n ==> g[i] == scale_stage(i)
            &&& n <= i < 2 * n ==> g[i] == trim_stage(i - n, durations[i - n] as nat)
            &&& i == 2 * n ==> g[i] == concat_stage(n as nat)
            &&& 2 * n < i <= 2 * n + a ==> g[i] == audio_stages(n as nat, total, music)[i - 2 * n - 1]
            &&& i == 2 * n + a + 1 ==> g[i] == join_stage()
            &&& i > 2 * n + a + 1 ==> g[i] == caption_stages(track)[i - 2 * n - a - 2]
        }),
{
    let n = durations.len();
    let scales = Seq::new(n, |i: int| scale_stage(i));
    let trims = Seq::new(n, |i: int| trim_stage(i, durations[i] as nat));
    let g1 = scales + trims;
    let g2 = g1 + seq![concat_stage(n)];
    let g3 = g2 + audio_stages(n, total, music);
    let g4 = g3 + seq![join_stage()];
    let g = g4 + caption_stages(track);
    assert(graph_of(durations, total, music, track) == g);
    assert(audio_stages(n, total, music).len() == audio_count(music));
}

proof fn lemma_stage_output(durations: Seq<u64>, total: nat, music: bool, track: TrackView, i: int)
    requires
        durations.len() + 2 <= usize::MAX,
        track matches TrackView::Overlays { events } ==> events.len() <= usize::MAX,
        0 <= i < graph_of(durations, total, music, track).len(),
    ensures
        producer(
            graph_of(durations, total, music, track)[i].output,
            durations.len() as int,
            music,
            graph_of(durations, total, music, track).len() - 1,
        ) == i,
        !is_input_label(graph_of(durations, total, music, track)[i].output),
{
    let g = graph_of(durations, total, music, track);
    lemma_graph_stage(durations, total, music, track, i);
    let n = durations.len() as int;
    let a = audio_count(music);
    if i > 2 * n + a + 1 {
        let c = i - 2 * n - a - 2;
        match track {
            TrackView::Subtitles { path } => {},
            TrackView::Overlays { events } => {
                if events.len() > 0 {
                    assert(caption_stages(track)[c] == overlay_stage(events[c], c, events.len() as int));
                }
            },
        }
    }
}

proof fn lemma_stage_inputs(durations: Seq<u64>, total: nat, music: bool, track: TrackView, st: int, k: int)
    requires
        durations.len() + 2 <= usize::MAX,
        track matches TrackView::Overlays { events } ==> events.len() <= usize::MAX,
        0 <= st < graph_of(durations, total, music, track).len(),
        0 <= k < graph_of(durations, total, music, track)[st].inputs.len(),
    ensures
        ({
            let g = graph_of(durations, total, music, track);
            let l = g[st].inputs[k];
            let t = producer(l, durations.len() as int, music, g.len() - 1);
            is_input_label(l) || (0 <= t < st && g[t].output == l)
        }),
{
    let g = graph_of(durations, total, music, track);
    let n = durations.len() as int;
    let a = audio_count(music);
    let l = g[st].inputs[k];
    let t = producer(l, n, music, g.len() - 1);
    lemma_graph_stage(durations, total, music, track, st);
    if st > 2 * n + a + 1 {
        let c = st - 2 * n - a - 2;
        match track {
            TrackView::Subtitles { path } => {},
            TrackView::Overlays { events } => {
                if events.len() > 0 {
                    assert(caption_stages(track)[c] == overlay_stage(events[c], c, events.len() as int));
                }
            },
        }
    }
    if !is_input_label(l) {
        lemma_graph_stage(durations, total, music, track, t);
        if t > 2 * n + a + 1 {
            let c = t - 2 * n - a - 2;
            match track {
                TrackView::Subtitles { path } => {},
                TrackView::Overlays { events } => {
                    assert(caption_stages(track)[c] == overlay_stage(events[c], c, events.len() as int));
                },
            }
        }
    }
}

/// The graph is well formed: each stream is produced by one stage only, every stream a stage
/// reads is an input's or was produced by an earlier stage, and the last stage produces the
/// final stream.
pub proof fn lemma_graph_well_formed(durations: Seq<u64>, total: nat, music: bool, track: TrackView)
    requires
        durations.len() + 2 <= usize::MAX,
        track matches TrackView::Overlays { events } ==> events.len() <= usize::MAX,
    ensures
        outputs_unique(graph_of(durations, total, music, track)),
        inputs_defined(graph_of(durations, total, music, track)),
        graph_of(durations, total, music, track).last().output == Label::Output,
{
    let g = graph_of(durations, total, music, track);
    let n = durations.len() as int;
    let last = g.len() - 1;
    lemma_graph_stage(durations, total, music, track, 0);
    assert forall|a: int, b: int| 0 <= a < b < g.len() implies #[trigger] g[a].output != #[trigger] g[b].output by {
        lemma_stage_output(durations, total, music, track, a);
        lemma_stage_output(durations, total, music, track, b);
    }
    assert forall|a: int| 0 <= a < g.len() implies !is_input_label(#[trigger] g[a].output) by {
        lemma_stage_output(durations, total, music, track, a);
    }
    assert forall|st: int, k: int|
        0 <= st < g.len() && 0 <= k < g[st].inputs.len() implies is_input_label(#[trigger] g[st].inputs[k])
            || exists|t: int| 0 <= t < st && #[trigger] g[t].output == g[st].inputs[k] by {
        lemma_stage_inputs(durations, total, music, track, st, k);
        let t = producer(g[st].inputs[k], n, music, last);
        if !is_input_label(g[st].inputs[k]) {
            assert(g[t].output == g[st].inputs[k]);
        }
    }
    lemma_stage_output(durations, total, music, track, last);
}

} // verus!
