use slideshow_service::captions::{CaptionEvent, Run, Tone};
use slideshow_service::graph::{build_graph, render_graph, CaptionTrack, Label, Operation, FRAME_HEIGHT, FRAME_WIDTH};
use slideshow_service::plan::{
    composition_arguments, finish, plan_job, resolve_music, CaptionStyle, CompositionPlan, CompositorOutcome,
    ConfigError, PlanError, PlannerConfig,
};
use slideshow_service::images::AssetError;
use slideshow_service::transcript::{Sentence, Transcript, Word};

fn subtitles(path: &str) -> CaptionTrack {
    CaptionTrack::Subtitles { path: path.to_string() }
}

fn config() -> PlannerConfig {
    PlannerConfig { music_dir: "/tmp/music".to_string(), scratch_dir: "/tmp".to_string() }
}

fn transcript() -> Transcript {
    Transcript::new(
        vec![
            Sentence { start: 0, end: 1500, text: "Hi there.".to_string() },
            Sentence { start: 1500, end: 4000, text: "Bye.".to_string() },
        ],
        vec![
            Word { start: 0, end: 600, text: "Hi".to_string() },
            Word { start: 700, end: 1400, text: "there.".to_string() },
            Word { start: 1600, end: 3900, text: "Bye.".to_string() },
        ],
    )
    .unwrap()
}

fn strings(v: &[&str]) -> Vec<String> {
    v.iter().map(|s| s.to_string()).collect()
}

#[test]
fn frame_is_vertical_full_hd() {
    assert_eq!(FRAME_WIDTH, 1080);
    assert_eq!(FRAME_HEIGHT, 1920);
}

#[test]
fn graph_has_one_scale_and_trim_per_image_and_one_concat() {
    for n in 0..5usize {
        let durations: Vec<u64> = (0..n as u64).map(|i| 1000 + i).collect();
        let g = build_graph(&durations, 9000, true, &subtitles("/tmp/j.ass"));
        let scales = g.iter().filter(|s| matches!(s.operation, Operation::ScaleCrop)).count();
        let trims = g.iter().filter(|s| matches!(s.operation, Operation::Trim { .. })).count();
        let concats = g
            .iter()
            .filter(|s| matches!(s.operation, Operation::Concat { segments, video: 1, audio: 0 } if segments == n))
            .count();
        assert_eq!((scales, trims, concats), (n, n, 1));
    }
}

#[test]
fn graph_text_with_music() {
    let g = build_graph(&vec![1500, 2500], 4000, true, &subtitles("/tmp/job1.ass"));
    let expected = "[0:v]scale=1080:1920:force_original_aspect_ratio=increase,crop=1080:1920,setsar=1[v0];\
[1:v]scale=1080:1920:force_original_aspect_ratio=increase,crop=1080:1920,setsar=1[v1];\
[v0]trim=0:1.500,setpts=PTS-STARTPTS[v0trim];\
[v1]trim=0:2.500,setpts=PTS-STARTPTS[v1trim];\
[v0trim][v1trim]concat=n=2:v=1:a=0[outv];\
[2:a]aformat=sample_fmts=fltp:sample_rates=44100:channel_layouts=stereo,atrim=0:4.000[narration];\
[3:a]aformat=sample_fmts=fltp:sample_rates=44100:channel_layouts=stereo,atrim=0:4.000,volume=0.05[background];\
[narration][background]amix=inputs=2:duration=first[mixed_audio];\
[outv][mixed_audio]concat=n=1:v=1:a=1[outv_a];\
[outv_a]ass=/tmp/job1.ass[output]";
    assert_eq!(render_graph(&g), expected);
}

#[test]
fn graph_without_music_passes_narration_alone() {
    let g = build_graph(&vec![1000], 1000, false, &subtitles("s.ass"));
    let text = render_graph(&g);
    assert!(text.contains("[1:a]aformat=sample_fmts=fltp:sample_rates=44100:channel_layouts=stereo,atrim=0:1.000[narration];[narration]amix=inputs=1:duration=first[mixed_audio];"));
    assert!(!text.contains("background"));
}

#[test]
fn overlay_chain_escapes_text() {
    let events = vec![
        CaptionEvent { start: 0, end: 500, runs: vec![Run { text: "it's".to_string(), tone: Tone::Plain }] },
        CaptionEvent { start: 0, end: 500, runs: vec![Run { text: "a:b,c".to_string(), tone: Tone::Highlighted }] },
    ];
    let g = build_graph(&vec![500], 500, false, &CaptionTrack::Overlays { events });
    let last = &g[g.len() - 1];
    assert_eq!(last.inputs, vec![Label::Overlay(0)]);
    assert_eq!(last.output, Label::Output);
    let text = render_graph(&g);
    assert!(text.ends_with(
        "[outv_a]drawtext=text=it\\'s:enable='between(t,0.000,0.500)':fontsize=72:fontcolor=white:x=(w-text_w)/2:y=(h-text_h)/2[ov0];\
[ov0]drawtext=text=a\\:b\\,c:enable='between(t,0.000,0.500)':fontsize=72:fontcolor=0x5717FF:x=(w-text_w)/2:y=(h-text_h)/2[output]"
    ));
}

#[test]
fn overlay_chain_without_events_passes_through() {
    let g = build_graph(&vec![500], 500, false, &CaptionTrack::Overlays { events: vec![] });
    assert!(render_graph(&g).ends_with("[outv_a]null[output]"));
}

#[test]
fn arguments_in_order() {
    let music = "/m/x.mp3".to_string();
    let args = composition_arguments(&strings(&["i1.png", "i2.png"]), "n.mp3", Some(&music), "G", "out.mp4");
    let expected = strings(&[
        "-y", "-loop", "1", "-i", "i1.png", "-loop", "1", "-i", "i2.png", "-i", "n.mp3", "-i", "/m/x.mp3",
        "-filter_complex", "G", "-map", "[output]", "-c:a", "aac", "-c:v", "libx264", "-preset", "medium", "-crf",
        "23", "-movflags", "+faststart", "-pix_fmt", "yuv420p", "out.mp4",
    ]);
    assert_eq!(args, expected);
}

#[test]
fn music_resolves_to_a_track_file() {
    let sel = "_nas".to_string();
    assert_eq!(resolve_music("/tmp/music", Some(&sel)), Ok(Some("/tmp/music/_nas.mp3".to_string())));
    assert_eq!(resolve_music("/tmp/music", None), Ok(None));
}

#[test]
fn empty_music_is_a_config_error() {
    let sel = String::new();
    assert_eq!(resolve_music("/tmp/music", Some(&sel)), Err(ConfigError::MissingMusic));
    let r = plan_job(&config(), "job", Some(&sel), CaptionStyle::Karaoke, &transcript(), &strings(&["image_1.png", "image_2.png"]), "n.mp3", "o.mp4");
    assert!(matches!(r, Err(PlanError::Config(ConfigError::MissingMusic))));
}

#[test]
fn unknown_music_is_a_config_error() {
    let sel = "_unknown".to_string();
    let r = plan_job(&config(), "job", Some(&sel), CaptionStyle::Karaoke, &transcript(), &strings(&["image_1.png"]), "n.mp3", "o.mp4");
    assert!(matches!(r, Err(PlanError::Config(ConfigError::UnknownMusic))));
}

#[test]
fn image_count_must_match_sentences() {
    let sel = "_fallen".to_string();
    let r = plan_job(&config(), "job", Some(&sel), CaptionStyle::Karaoke, &transcript(), &strings(&["image_1.png"]), "n.mp3", "o.mp4");
    assert!(matches!(r, Err(PlanError::Assets(AssetError::CountMismatch))));
}

#[test]
fn planning_twice_gives_the_same_arguments() {
    let sel = "_hotline".to_string();
    let images = strings(&["d/image_2.png", "d/image_1.png"]);
    let a = plan_job(&config(), "job7", Some(&sel), CaptionStyle::Karaoke, &transcript(), &images, "n.mp3", "o.mp4").unwrap();
    let b = plan_job(&config(), "job7", Some(&sel), CaptionStyle::Karaoke, &transcript(), &images, "n.mp3", "o.mp4").unwrap();
    assert_eq!(a.composition.arguments, b.composition.arguments);
    assert_eq!(a.subtitle_document, b.subtitle_document);
    assert_eq!(a.subtitle_path, "/tmp/job7.ass");
    let args = &a.composition.arguments;
    assert_eq!(args[0], "-y");
    assert_eq!(args[4], "d/image_1.png");
    assert_eq!(args[8], "d/image_2.png");
    assert_eq!(args[12], "/tmp/music/_hotline.mp3");
    assert!(args[14].ends_with("[outv_a]ass=/tmp/job7.ass[output]"));
    assert!(args[14].contains("[v0]trim=0:1.500,setpts=PTS-STARTPTS[v0trim];[v1]trim=0:2.500,"));
    assert_eq!(args[args.len() - 1], "o.mp4");
}

#[test]
fn flash_plan_draws_every_word_twice() {
    let a = plan_job(&config(), "j", None, CaptionStyle::Flash, &transcript(), &strings(&["image_1.png", "image_2.png"]), "n.mp3", "o.mp4").unwrap();
    assert_eq!(a.subtitle_path, "/tmp/j.srt");
    assert_eq!(a.composition.graph_text.matches("drawtext=").count(), 6);
    assert!(a.subtitle_document.starts_with("1\n00:00:00,000 --> 00:00:00,600\nHi\n\n2\n"));
    assert!(!a.composition.arguments.iter().any(|s| s.ends_with(".mp3") && s.contains("music")));
}

#[test]
fn compositor_outcomes() {
    let plan = CompositionPlan { arguments: vec![], graph_text: String::new(), output_path: "o.mp4".to_string() };
    let ok = finish(&plan, CompositorOutcome::Exited { success: true, diagnostics: "noise".to_string() });
    assert_eq!(ok.ok(), Some("o.mp4".to_string()));
    let failed = finish(&plan, CompositorOutcome::Exited { success: false, diagnostics: "bad filter".to_string() });
    assert_eq!(failed.err().map(|e| e.diagnostics), Some("bad filter".to_string()));
    let launch = finish(&plan, CompositorOutcome::LaunchFailed { reason: "not found".to_string() });
    assert_eq!(launch.err().map(|e| e.diagnostics), Some("not found".to_string()));
}

fn three_overlay_events() -> Vec<CaptionEvent> {
    vec![
        CaptionEvent { start: 0, end: 500, runs: vec![Run { text: "a".to_string(), tone: Tone::Plain }] },
        CaptionEvent { start: 0, end: 500, runs: vec![Run { text: "a".to_string(), tone: Tone::Highlighted }] },
        CaptionEvent { start: 600, end: 900, runs: vec![Run { text: "b".to_string(), tone: Tone::Plain }] },
    ]
}

#[test]
fn every_stream_produced_once_and_read_after() {
    for music in [false, true] {
        let g = build_graph(&vec![300, 400, 200], 900, music, &CaptionTrack::Overlays { events: three_overlay_events() });
        for (i, s) in g.iter().enumerate() {
            assert!(g[..i].iter().all(|t| t.output != s.output));
            for l in &s.inputs {
                let raw = matches!(l, Label::VideoInput(_) | Label::AudioInput(_));
                assert!(raw || g[..i].iter().any(|t| t.output == *l));
            }
        }
        assert_eq!(g[g.len() - 1].output, Label::Output);
    }
}
