use vstd::prelude::*;
use vstd::string::*;

use crate::captions::{
    ass_document, events_view, flash_events, flash_track, karaoke_events, karaoke_track, render_ass, render_srt,
    srt_document, CaptionEvent, EventView,
};
use crate::graph::{build_graph, graph_of, graph_text, render_graph, CaptionTrack, TrackView};
use crate::images::{
    assets_view, all_ordinals, distinct_ordinals, segment_duration, segment_durations, segment_durations_of, sequence, sorted_assets, texts,
    AssetError, AssetView, ImageAsset,
};
use crate::transcript::{Span, Transcript};

verus! {

/// Why a job's options were refused.
#[derive(Debug, Clone, Copy, PartialEq, Eq, Structural)]
pub enum ConfigError {
    /// The music selection is empty.
    MissingMusic,
    /// The music selection is not one of the known tracks.
    UnknownMusic,
}

/// The background tracks that a job may select.
pub open spec fn is_music_option(s: Seq<char>) -> bool {
    s == "_another-love"@ || s == "_bladerunner-2049"@ || s == "_constellations"@ || s == "_fallen"@
        || s == "_hotline"@ || s == "_izzamuzzic"@ || s == "_nas"@ || s == "_paris-else"@ || s == "_snowfall"@
}

/// The file of a background track in the music directory.
pub open spec fn music_file(dir: Seq<char>, selection: Seq<char>) -> Seq<char> {
    dir + seq!['/'] + selection + ".mp3"@
}

/// What a music selection resolves to: no music, a track file, or an error.
pub open spec fn music_choice(dir: Seq<char>, selection: Option<Seq<char>>) -> Result<Option<Seq<char>>, ConfigError> {
    match selection {
        None => Ok(None),
        Some(s) => if s.len() == 0 {
            Err(ConfigError::MissingMusic)
        } else if !is_music_option(s) {
            Err(ConfigError::UnknownMusic)
        } else {
            Ok(Some(music_file(dir, s)))
        },
    }
}

fn is_known_music(s: &String) -> (r: bool)
    ensures
        r == is_music_option(s@),
{
    String::from_str("_another-love") == *s || String::from_str("_bladerunner-2049") == *s
        || String::from_str("_constellations") == *s || String::from_str("_fallen") == *s
        || String::from_str("_hotline") == *s || String::from_str("_izzamuzzic") == *s
        || String::from_str("_nas") == *s || String::from_str("_paris-else") == *s
        || String::from_str("_snowfall") == *s
}

/// Resolves an optional music selection against the known tracks in `dir`.
pub fn resolve_music(dir: &str, selection: Option<&String>) -> (r: Result<Option<String>, ConfigError>)
    ensures
        music_choice(dir@, match selection {
            Some(s) => Some(s@),
            None => None,
        }) == match r {
            Ok(Some(p)) => Ok(Some(p@)),
            Ok(None) => Ok(None),
            Err(e) => Err::<Option<Seq<char>>, ConfigError>(e),
        },
{
    match selection {
        None => Ok(None),
        Some(s) => {
            if s.as_str().unicode_len() == 0 {
                return Err(ConfigError::MissingMusic);
            }
            if !is_known_music(s) {
                return Err(ConfigError::UnknownMusic);
            }
            let mut p = String::from_str(dir);
            proof {
                reveal_strlit("/");
            }
            p.append("/");
            p.append(s.as_str());
            p.append(".mp3");
            assert(p@ =~= music_file(dir@, s@));
            Ok(Some(p))
        },
    }
}

/// Which caption track a job burns in.
#[derive(Debug, Clone, Copy, PartialEq, Eq, Structural)]
pub enum CaptionStyle {
    /// Every word flashed over the picture, in the base style and highlighted.
    Flash,
    /// Chunks of three words with a rolling highlight, from a structured subtitle document.
    Karaoke,
}

/// The arguments that declare image `path` as a looped still input.
pub open spec fn image_input(path: Seq<char>) -> Seq<Seq<char>> {
    seq!["-loop"@, "1"@, "-i"@, path]
}

/// The input declarations of all images, in order.
pub open spec fn image_inputs(paths: Seq<Seq<char>>) -> Seq<Seq<char>> {
    Seq::new(paths.len(), |i: int| image_input(paths[i])).flatten()
}

/// The fixed encoding arguments: the output stream map, codecs, preset, quality, fast start,
/// pixel format.
pub open spec fn encode_arguments() -> Seq<Seq<char>> {
    seq![
        "-map"@, "[output]"@, "-c:a"@, "aac"@, "-c:v"@, "libx264"@, "-preset"@, "medium"@, "-crf"@, "23"@,
        "-movflags"@, "+faststart"@, "-pix_fmt"@, "yuv420p"@,
    ]
}

/// The compositor's argument list: overwrite, the images, the narration, the music if any,
/// the graph, the encoding arguments, the output path.
pub open spec fn arguments_of(
    images: Seq<Seq<char>>,
    narration: Seq<char>,
    music: Option<Seq<char>>,
    graph: Seq<char>,
    output: Seq<char>,
) -> Seq<Seq<char>> {
    seq!["-y"@] + image_inputs(images) + seq!["-i"@, narration] + match music {
        Some(m) => seq!["-i"@, m],
        None => Seq::empty(),
    } + seq!["-filter_complex"@, graph] + encode_arguments() + seq![output]
}

/// Everything the compositor is handed for one job.
pub struct CompositionPlan {
    pub arguments: Vec<String>,
    pub graph_text: String,
    pub output_path: String,
}

/// What a composition plan is.
pub struct PlanView {
    pub arguments: Seq<Seq<char>>,
    pub graph_text: Seq<char>,
    pub output_path: Seq<char>,
}

impl View for CompositionPlan {
    type V = PlanView;

    open spec fn view(&self) -> PlanView {
        PlanView { arguments: texts(self.arguments@), graph_text: self.graph_text@, output_path: self.output_path@ }
    }
}

fn push_text(v: &mut Vec<String>, s: &str)
    ensures
        texts(final(v)@) == texts(old(v)@).push(s@),
{
    let t = String::from_str(s);
    let ghost before = v@;
    v.push(t);
    assert(texts(v@) =~= texts(before).push(s@));
}

/// Builds the compositor's argument list.
pub fn composition_arguments(
    images: &Vec<String>,
    narration: &str,
    music: Option<&String>,
    graph: &str,
    output: &str,
) -> (r: Vec<String>)
    ensures
        texts(r@) == arguments_of(texts(images@), narration@, match music {
            Some(m) => Some(m@),
            None => None,
        }, graph@, output@),
{
    let mut args: Vec<String> = Vec::new();
    push_text(&mut args, "-y");
    let ghost ims = texts(images@);
    let ghost per = Seq::new(ims.len(), |i: int| image_input(ims[i]));
    let ghost head = texts(args@);
    let mut i: usize = 0;
    while i < images.len()
        invariant
            0 <= i <= images@.len(),
            ims == texts(images@),
            per == Seq::new(ims.len(), |i: int| image_input(ims[i])),
            texts(args@) =~= head + per.take(i as int).flatten(),
        decreases images@.len() - i,
    {
        assert(ims[i as int] == images@[i as int]@);
        push_text(&mut args, "-loop");
        push_text(&mut args, "1");
        push_text(&mut args, "-i");
        push_text(&mut args, images[i].as_str());
        proof {
            assert(per.take(i + 1) =~= per.take(i as int).push(per[i as int]));
            per.take(i as int).lemma_flatten_push(per[i as int]);
        }
        i = i + 1;
    }
    assert(per.take(i as int) =~= per);
    push_text(&mut args, "-i");
    push_text(&mut args, narration);
    match music {
        Some(m) => {
            push_text(&mut args, "-i");
            push_text(&mut args, m.as_str());
        },
        None => {},
    }
    push_text(&mut args, "-filter_complex");
    push_text(&mut args, graph);
    push_text(&mut args, "-map");
    push_text(&mut args, "[output]");
    push_text(&mut args, "-c:a");
    push_text(&mut args, "aac");
    push_text(&mut args, "-c:v");
    push_text(&mut args, "libx264");
    push_text(&mut args, "-preset");
    push_text(&mut args, "medium");
    push_text(&mut args, "-crf");
    push_text(&mut args, "23");
    push_text(&mut args, "-movflags");
    push_text(&mut args, "+faststart");
    push_text(&mut args, "-pix_fmt");
    push_text(&mut args, "yuv420p");
    push_text(&mut args, output);
    assert(texts(args@) =~= arguments_of(ims, narration@, match music {
        Some(m) => Some(m@),
        None => None,
    }, graph@, output@));
    args
}

/// Why a job could not be planned.
#[derive(Debug, Clone, Copy, PartialEq, Eq, Structural)]
pub enum PlanError {
    Config(ConfigError),
    Assets(AssetError),
}

/// Where the planner finds music and writes a job's subtitle document.
pub struct PlannerConfig {
    pub music_dir: String,
    pub scratch_dir: String,
}

/// The plan of one job: the subtitle document to write, where, and the compositor's plan.
pub struct JobPlan {
    pub subtitle_path: String,
    pub subtitle_document: String,
    pub composition: CompositionPlan,
}

/// What a job plan is.
pub struct JobPlanView {
    pub subtitle_path: Seq<char>,
    pub subtitle_document: Seq<char>,
    pub composition: PlanView,
}

impl View for JobPlan {
    type V = JobPlanView;

    open spec fn view(&self) -> JobPlanView {
        JobPlanView {
            subtitle_path: self.subtitle_path@,
            subtitle_document: self.subtitle_document@,
            composition: self.composition@,
        }
    }
}

/// The subtitle document of a job, named after the job so that jobs do not share it.
pub open spec fn subtitle_path_of(scratch: Seq<char>, job_id: Seq<char>, style: CaptionStyle) -> Seq<char> {
    scratch + seq!['/'] + job_id + match style {
        CaptionStyle::Karaoke => ".ass"@,
        CaptionStyle::Flash => ".srt"@,
    }
}

/// The caption events of a style.
pub open spec fn captions_of(sentences: Seq<Span>, words: Seq<Span>, style: CaptionStyle) -> Seq<EventView> {
    match style {
        CaptionStyle::Karaoke => karaoke_track(sentences, words),
        CaptionStyle::Flash => flash_track(words),
    }
}

/// The subtitle document of a style: structured for karaoke, sequential for flash.
pub open spec fn document_of(events: Seq<EventView>, style: CaptionStyle) -> Seq<char> {
    match style {
        CaptionStyle::Karaoke => ass_document(events),
        CaptionStyle::Flash => srt_document(events),
    }
}

/// How the captions reach the picture: karaoke through the subtitle document, flash as overlays.
pub open spec fn track_of(style: CaptionStyle, path: Seq<char>, events: Seq<EventView>) -> TrackView {
    match style {
        CaptionStyle::Karaoke => TrackView::Subtitles { path },
        CaptionStyle::Flash => TrackView::Overlays { events },
    }
}

/// The display durations of the images.
pub open spec fn durations_of(sentences: Seq<Span>) -> Seq<u64> {
    Seq::new(sentences.len(), |i: int| segment_duration(sentences, i) as u64)
}

/// The paths of ordered assets.
pub open spec fn asset_paths(assets: Seq<AssetView>) -> Seq<Seq<char>> {
    assets.map_values(|a: AssetView| a.path)
}

/// What ordering the image files gives: an error, or the assets in ordinal order.
pub open spec fn assets_outcome(paths: Seq<Seq<char>>, count: nat) -> Result<Seq<AssetView>, AssetError> {
    if paths.len() != count {
        Err(AssetError::CountMismatch)
    } else if !all_ordinals(paths) {
        Err(AssetError::UnparsableOrdinal)
    } else if !distinct_ordinals(paths) {
        Err(AssetError::DuplicateOrdinal)
    } else {
        Ok(sorted_assets(paths, paths.len() as int))
    }
}

/// The plan of a job whose music and images were accepted.
pub open spec fn job_plan_of(
    scratch: Seq<char>,
    job_id: Seq<char>,
    music: Option<Seq<char>>,
    style: CaptionStyle,
    sentences: Seq<Span>,
    words: Seq<Span>,
    assets: Seq<AssetView>,
    narration: Seq<char>,
    output: Seq<char>,
) -> JobPlanView {
    let sp = subtitle_path_of(scratch, job_id, style);
    let evs = captions_of(sentences, words, style);
    let graph = graph_text(
        graph_of(durations_of(sentences), sentences.last().end, music is Some, track_of(style, sp, evs)),
    );
    JobPlanView {
        subtitle_path: sp,
        subtitle_document: document_of(evs, style),
        composition: PlanView {
            arguments: arguments_of(asset_paths(assets), narration, music, graph, output),
            graph_text: graph,
            output_path: output,
        },
    }
}

/// The outcome of planning a job: the music is checked first, then the images, then the plan
/// is built.
pub open spec fn plan_of(
    music_dir: Seq<char>,
    scratch: Seq<char>,
    job_id: Seq<char>,
    music: Option<Seq<char>>,
    style: CaptionStyle,
    sentences: Seq<Span>,
    words: Seq<Span>,
    images: Seq<Seq<char>>,
    narration: Seq<char>,
    output: Seq<char>,
) -> Result<JobPlanView, PlanError> {
    match music_choice(music_dir, music) {
        Err(e) => Err(PlanError::Config(e)),
        Ok(m) => match assets_outcome(images, sentences.len()) {
            Err(e) => Err(PlanError::Assets(e)),
            Ok(assets) => Ok(
                job_plan_of(scratch, job_id, m, style, sentences, words, assets, narration, output),
            ),
        },
    }
}

/// The view of an optional string.
pub open spec fn opt_view(o: Option<&String>) -> Option<Seq<char>> {
    match o {
        Some(s) => Some(s@),
        None => None,
    }
}

/// The view of a planning outcome.
pub open spec fn outcome_view(r: Result<JobPlan, PlanError>) -> Result<JobPlanView, PlanError> {
    match r {
        Ok(p) => Ok(p@),
        Err(e) => Err(e),
    }
}

fn subtitle_path(scratch: &str, job_id: &str, style: CaptionStyle) -> (r: String)
    ensures
        r@ == subtitle_path_of(scratch@, job_id@, style),
{
    let mut p = String::from_str(scratch);
    proof {
        reveal_strlit("/");
    }
    p.append("/");
    p.append(job_id);
    match style {
        CaptionStyle::Karaoke => p.append(".ass"),
        CaptionStyle::Flash => p.append(".srt"),
    }
    assert(p@ =~= subtitle_path_of(scratch@, job_id@, style));
    p
}

fn paths_of(assets: &Vec<ImageAsset>) -> (r: Vec<String>)
    ensures
        texts(r@) == asset_paths(assets_view(assets@)),
{
    let mut r: Vec<String> = Vec::new();
    let mut i: usize = 0;
    while i < assets.len()
        invariant
            0 <= i <= assets@.len(),
            texts(r@) =~= asset_paths(assets_view(assets@)).take(i as int),
        decreases assets@.len() - i,
    {
        let ghost before = r@;
        r.push(assets[i].path.clone());
        i = i + 1;
        assert(texts(r@) =~= texts(before).push(assets@[i - 1].path@));
        assert(asset_paths(assets_view(assets@)).take(i as int) =~= asset_paths(assets_view(assets@)).take(
            i - 1,
        ).push(assets@[i - 1].path@));
    }
    assert(asset_paths(assets_view(assets@)).take(i as int) =~= asset_paths(assets_view(assets@)));
    r
}

/// Plans one job: checks the music selection, orders the images, derives the captions and
/// the subtitle document, builds and renders the filter graph, and lists the compositor's
/// arguments.
pub fn plan_job(
    config: &PlannerConfig,
    job_id: &str,
    music: Option<&String>,
    style: CaptionStyle,
    transcript: &Transcript,
    images: &Vec<String>,
    narration: &str,
    output: &str,
) -> (r: Result<JobPlan, PlanError>)
    requires
        transcript.wf(),
        images@.len() + 2 <= usize::MAX,
    ensures
        outcome_view(r) == plan_of(
            config.music_dir@,
            config.scratch_dir@,
            job_id@,
            opt_view(music),
            style,
            transcript.sentence_spans(),
            transcript.word_spans(),
            texts(images@),
            narration@,
            output@,
        ),
{
    let music_path = match resolve_music(config.music_dir.as_str(), music) {
        Ok(m) => m,
        Err(e) => {
            return Err(PlanError::Config(e));
        },
    };
    let assets = match sequence(images, transcript.sentences.len()) {
        Ok(a) => a,
        Err(e) => {
            return Err(PlanError::Assets(e));
        },
    };
    let ghost ss = transcript.sentence_spans();
    let ghost ws = transcript.word_spans();
    let durations = segment_durations(transcript);
    proof {
        assert forall|i: int| 0 <= i < durations@.len() implies durations@[i] == durations_of(ss)[i] by {
            assert(durations@[i] as int == segment_durations_of(ss)[i]);
        }
        assert(durations@ =~= durations_of(ss));
    }
    let total = transcript.total_duration();
    let events: Vec<CaptionEvent> = match style {
        CaptionStyle::Karaoke => karaoke_events(transcript),
        CaptionStyle::Flash => flash_events(transcript),
    };
    let sub_path = subtitle_path(config.scratch_dir.as_str(), job_id, style);
    let document = match style {
        CaptionStyle::Karaoke => render_ass(&events),
        CaptionStyle::Flash => render_srt(&events),
    };
    let ghost evs = events_view(events@);
    let track = match style {
        CaptionStyle::Karaoke => CaptionTrack::Subtitles { path: sub_path.clone() },
        CaptionStyle::Flash => CaptionTrack::Overlays { events },
    };
    assert(track@ == track_of(style, sub_path@, evs));
    let has_music = match &music_path {
        Some(_) => true,
        None => false,
    };
    let stages = build_graph(&durations, total, has_music, &track);
    let graph = render_graph(&stages);
    let paths = paths_of(&assets);
    let music_ref: Option<&String> = match &music_path {
        Some(m) => Some(m),
        None => None,
    };
    let arguments = composition_arguments(&paths, narration, music_ref, graph.as_str(), output);
    let composition = CompositionPlan { arguments, graph_text: graph, output_path: String::from_str(output) };
    Ok(JobPlan { subtitle_path: sub_path, subtitle_document: document, composition })
}

/// An empty or unknown music selection refuses the job with a configuration error, whatever
/// the other inputs: no plan is made, so the compositor is never started.
pub proof fn lemma_bad_music_refused(
    music_dir: Seq<char>,
    scratch: Seq<char>,
    job_id: Seq<char>,
    selection: Seq<char>,
    style: CaptionStyle,
    sentences: Seq<Span>,
    words: Seq<Span>,
    images: Seq<Seq<char>>,
    narration: Seq<char>,
    output: Seq<char>,
)
    requires
        selection.len() == 0 || !is_music_option(selection),
    ensures
        plan_of(music_dir, scratch, job_id, Some(selection), style, sentences, words, images, narration, output)
            matches Err(PlanError::Config(_)),
{
}

/// The plan, its argument list included, is a function of the job's inputs: planning the same
/// job twice gives the same plan, byte for byte.
pub proof fn lemma_plan_reproducible(
    music_dir: Seq<char>,
    scratch: Seq<char>,
    job_id: Seq<char>,
    music: Option<Seq<char>>,
    style: CaptionStyle,
    sentences: Seq<Span>,
    words: Seq<Span>,
    images: Seq<Seq<char>>,
    narration: Seq<char>,
    output: Seq<char>,
    first: Result<JobPlanView, PlanError>,
    second: Result<JobPlanView, PlanError>,
)
    requires
        first == plan_of(music_dir, scratch, job_id, music, style, sentences, words, images, narration, output),
        second == plan_of(music_dir, scratch, job_id, music, style, sentences, words, images, narration, output),
    ensures
        first == second,
        first matches Ok(p) ==> second matches Ok(q) && p.composition.arguments == q.composition.arguments,
{
}

/// Job identifiers only name the job's subtitle document: with flash captions, which the graph
/// draws itself, two jobs that differ in nothing else get the same argument list.
pub proof fn lemma_flash_arguments_ignore_job(
    music_dir: Seq<char>,
    scratch: Seq<char>,
    first_job: Seq<char>,
    second_job: Seq<char>,
    music: Option<Seq<char>>,
    sentences: Seq<Span>,
    words: Seq<Span>,
    images: Seq<Seq<char>>,
    narration: Seq<char>,
    output: Seq<char>,
)
    ensures
        ({
            let a = plan_of(music_dir, scratch, first_job, music, CaptionStyle::Flash, sentences, words, images, narration, output);
            let b = plan_of(music_dir, scratch, second_job, music, CaptionStyle::Flash, sentences, words, images, narration, output);
            &&& a is Ok <==> b is Ok
            &&& a is Ok ==> a->Ok_0.composition == b->Ok_0.composition
        }),
{
}

/// How a compositor run ended.
pub enum CompositorOutcome {
    /// The compositor could not be started.
    LaunchFailed { reason: String },
    /// The compositor ran and exited, successfully or not, with its diagnostic output.
    Exited { success: bool, diagnostics: String },
}

/// Why a composition failed, with what the compositor (or the launch) reported.
pub struct CompositorError {
    pub diagnostics: String,
}

/// Interprets a compositor run: success gives the plan's output path; a failed launch or a
/// failed exit gives an error that carries the diagnostics.
pub fn finish(plan: &CompositionPlan, outcome: CompositorOutcome) -> (r: Result<String, CompositorError>)
    ensures
        match outcome {
            CompositorOutcome::Exited { success: true, diagnostics: _ } => r matches Ok(p) && p@ == plan.output_path@,
            CompositorOutcome::Exited { success: false, diagnostics } => r matches Err(e) && e.diagnostics@
                == diagnostics@,
            CompositorOutcome::LaunchFailed { reason } => r matches Err(e) && e.diagnostics@ == reason@,
        },
{
    match outcome {
        CompositorOutcome::Exited { success, diagnostics } => {
            if success {
                Ok(plan.output_path.clone())
            } else {
                Err(CompositorError { diagnostics })
            }
        },
        CompositorOutcome::LaunchFailed { reason } => Err(CompositorError { diagnostics: reason }),
    }
}

} // verus!
