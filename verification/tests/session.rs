use clip_extractor::app::{
    default_output_dir, ready_message, ClipApp, ExportStep, Indicator, Job, LoadStep, ModelFile, Pending,
    PlayStep,
};
use clip_extractor::fixed::Fraction;
use clip_extractor::model::{Handle, OutputFormat, Phase, WhisperModelKind, Word, WorkerMsg};
use std::collections::VecDeque;
use std::sync::Arc;

const S: i128 = 1_000_000_000;

fn model(on_disk: bool) -> ModelFile {
    ModelFile { path: "/m/ggml-base.en.bin".to_owned(), on_disk }
}

fn half() -> Fraction {
    Fraction { billionths: 500_000_000 }
}

fn decoded(seconds: i128) -> WorkerMsg {
    WorkerMsg::DecodeDone {
        samples: vec![1, 2, 3],
        duration: seconds * S,
        pcm16k: Arc::new(vec![0; 16_000 * seconds as usize]),
    }
}

fn word(start: i128, end: i128) -> Word {
    Word { start, end, text: "w".to_owned() }
}

fn loaded() -> ClipApp {
    let mut app = ClipApp::new("/out".to_owned());
    app.load_file("/v/a.mp4".to_owned(), true);
    app.apply_message(decoded(8), &model(true));
    app.apply_message(WorkerMsg::TranscribeDone(vec![word(S, 2 * S), word(2 * S, 3 * S)]), &model(true));
    app
}

#[test]
fn starts_idle() {
    let app = ClipApp::new("/home".to_owned());
    assert_eq!(app.status, "Open a media file to begin.");
    assert_eq!(app.out_dir, "/home");
    assert!(!app.busy() && !app.can_load() && !app.can_play() && !app.can_export());
    assert!(app.output_format == OutputFormat::Mp4 && app.model_kind == WhisperModelKind::Base);
    assert!(matches!(ready_message(), WorkerMsg::Status(s) if s == "Ready — open a media file to begin."));
    assert_eq!(default_output_dir(Some("P".to_owned()), Some("H".to_owned())), "P");
    assert_eq!(default_output_dir(None, Some("H".to_owned())), "H");
    assert_eq!(default_output_dir(None, None), ".");
}

#[test]
fn local_file_becomes_a_transcript() {
    let mut app = ClipApp::new("/out".to_owned());
    app.source_input = "  /v/a.mp4 ".to_owned();
    assert!(app.can_load());
    let source = match app.start_load() {
        LoadStep::CheckFile(s) => s,
        _ => panic!("not a file"),
    };
    assert_eq!(source, "/v/a.mp4");
    assert!(matches!(app.load_file(source, true), Job::Decode(p) if p == "/v/a.mp4"));
    assert_eq!(app.status, "Decoding /v/a.mp4…");
    assert!(app.busy() && !app.can_load() && !app.can_export());
    let reply = app.apply_message(decoded(8), &model(true));
    assert!(reply.stop_playback);
    assert!(matches!(reply.job, Job::Transcribe(WhisperModelKind::Base)));
    assert_eq!(app.status, "Decoded 8.0s.");
    assert!(app.cancel);
    assert!(matches!(app.indicator(), Indicator::Bar { pct, text } if pct.billionths == 0 && text == "Transcribing…"));
    app.apply_message(WorkerMsg::TranscribeProgress(half()), &model(true));
    assert!(matches!(app.phase, Phase::Transcribing { progress } if progress == half()));
    app.apply_message(WorkerMsg::TranscribeDone(vec![word(0, S)]), &model(true));
    assert_eq!(app.status, "Transcription complete — 1 words.");
    assert!(!app.busy() && !app.cancel && app.words.len() == 1);
    assert_eq!((app.sel_in, app.sel_out), (0, 8 * S));
}

#[test]
fn missing_file_is_reported() {
    let mut app = ClipApp::new("/out".to_owned());
    assert!(matches!(app.load_file("x".to_owned(), false), Job::Nothing));
    assert_eq!(app.status, "File not found: x");
    assert!(!app.busy() && app.file.is_none());
}

#[test]
fn url_is_downloaded_first() {
    let mut app = ClipApp::new(" /out ".to_owned());
    app.source_input = "https://x".to_owned();
    match app.start_load() {
        LoadStep::MakeDir { dir, url } => assert_eq!((dir.as_str(), url.as_str()), ("/out", "https://x")),
        _ => panic!("not a download"),
    }
    assert!(!app.start_download(Err("denied".to_owned())));
    assert_eq!(app.status, "Cannot create output dir: denied");
    assert!(!app.busy());
    assert!(app.start_download(Ok(())));
    assert_eq!(app.status, "Downloading…");
    assert!(matches!(app.indicator(), Indicator::Bar { text, .. } if text == "starting…"));
    app.apply_message(WorkerMsg::DownloadProgress { pct: half(), eta: String::new() }, &model(true));
    assert!(matches!(app.indicator(), Indicator::Bar { text, .. } if text == "50%"));
    app.apply_message(WorkerMsg::DownloadProgress { pct: half(), eta: "00:05".to_owned() }, &model(true));
    assert!(matches!(app.indicator(), Indicator::Bar { text, .. } if text == "50% (ETA 00:05)"));
    assert!(app.cancel && app.request_cancel());
    assert_eq!(app.status, "Cancelling…");
    let reply = app.apply_message(WorkerMsg::DownloadDone("/out/v.mp4".to_owned()), &model(true));
    assert!(matches!(reply.job, Job::Decode(p) if p == "/out/v.mp4"));
    assert!(!app.cancel && !app.request_cancel());
    assert!(matches!(app.indicator(), Indicator::Spinner));
}

#[test]
fn output_directory_is_needed() {
    let mut app = ClipApp::new("  ".to_owned());
    app.source_input = "http://x".to_owned();
    assert!(matches!(app.start_load(), LoadStep::Nothing));
    assert_eq!(app.status, "Set an output directory first.");
    let mut ready = loaded();
    ready.out_dir = String::new();
    assert!(matches!(ready.start_export(), ExportStep::Nothing));
    assert_eq!(ready.status, "Set an output directory first.");
}

#[test]
fn missing_model_is_fetched() {
    let mut app = ClipApp::new("/out".to_owned());
    app.model_kind = WhisperModelKind::Small;
    app.decode_file("/v/a.mp4".to_owned());
    let reply = app.apply_message(decoded(2), &model(false));
    assert!(matches!(reply.job, Job::FetchModel(WhisperModelKind::Small)));
    assert_eq!(app.status, "Downloading small — accurate (~500 MB) model…");
    app.apply_message(WorkerMsg::ModelProgress { pct: half() }, &model(false));
    assert_eq!(app.status, "Downloading model… 50%");
    assert!(matches!(app.indicator(), Indicator::Bar { text, .. } if text == "model"));
    let reply = app.apply_message(WorkerMsg::ModelReady, &model(true));
    assert!(matches!(reply.job, Job::Transcribe(WhisperModelKind::Small)));
    assert!(app.busy() && app.cancel);
}

#[test]
fn model_that_vanished_is_reported() {
    let mut app = loaded();
    app.apply_message(WorkerMsg::ModelReady, &model(false));
    assert_eq!(app.status, "Model not found at /m/ggml-base.en.bin.");
    assert!(!app.busy());
    let mut empty = ClipApp::new("/out".to_owned());
    assert!(matches!(empty.start_transcription(&model(true)), Job::Nothing));
    assert!(matches!(empty.ensure_model_then_transcribe(&model(false)), Job::Nothing));
    assert!(!empty.busy());
}

#[test]
fn failures_lose_nothing() {
    let failures = |e: &str| {
        vec![
            WorkerMsg::DownloadFailed(e.to_owned()),
            WorkerMsg::DecodeFailed(e.to_owned()),
            WorkerMsg::ModelFailed(e.to_owned()),
            WorkerMsg::TranscribeFailed(e.to_owned()),
            WorkerMsg::ExportFailed(e.to_owned()),
        ]
    };
    for msg in failures("broken") {
        let mut app = loaded();
        app.phase = Phase::Decoding;
        let reply = app.apply_message(msg, &model(true));
        assert!(matches!(reply.job, Job::Nothing) && !reply.stop_playback);
        assert_eq!(app.status, "broken");
        assert!(!app.busy() && app.words.len() == 2 && app.sel_out == 8 * S);
        assert_eq!(app.file.as_deref(), Some("/v/a.mp4"));
    }
}

#[test]
fn status_messages() {
    let mut app = loaded();
    app.apply_message(WorkerMsg::Status("hi".to_owned()), &model(true));
    assert_eq!(app.status, "hi");
    app.apply_message(WorkerMsg::ExportDone("/out/c.mp3".to_owned()), &model(true));
    assert_eq!(app.status, "Exported /out/c.mp3");
    assert!(matches!(app.indicator(), Indicator::Nothing));
}

#[test]
fn exports_the_selection() {
    let mut app = loaded();
    app.click_word(1);
    app.output_format = OutputFormat::Mp3;
    assert!(app.can_export());
    let dir = match app.start_export() {
        ExportStep::MakeDir(d) => d,
        ExportStep::Nothing => panic!("nothing to export"),
    };
    assert!(app.export_to(dir.clone(), Err("full".to_owned())).is_none());
    assert_eq!(app.status, "Cannot create output dir: full");
    let job = app.export_to(dir, Ok(())).unwrap();
    assert_eq!((job.input.as_str(), job.out_dir.as_str()), ("/v/a.mp4", "/out"));
    assert_eq!((job.sel_in, job.sel_out), (2 * S, 3 * S));
    assert!(job.format == OutputFormat::Mp3);
    assert_eq!(app.status, "Exporting…");
    assert!(app.busy());
    let mut empty = ClipApp::new("/out".to_owned());
    assert!(matches!(empty.start_export(), ExportStep::Nothing));
    assert!(empty.export_to("/out".to_owned(), Ok(())).is_none());
}

#[test]
fn clicking_a_word_selects_it() {
    let mut app = loaded();
    assert!(app.word_selected(0) && app.word_selected(1));
    app.click_word(0);
    assert!(app.word_selected(0) && !app.word_selected(1));
    assert_eq!(app.selection_text(), "Selection: 1.00s → 2.00s  (1.00s)");
}

#[test]
fn dragging_the_handles() {
    let mut app = loaded();
    app.grab(S);
    assert!(app.dragging == Some(Handle::In));
    app.drag(3 * S);
    assert_eq!((app.sel_in, app.sel_out), (3 * S, 8 * S));
    app.drag(20 * S);
    assert_eq!(app.sel_in, 8 * S - 50_000_000);
    app.drag(-S);
    assert_eq!(app.sel_in, 0);
    app.release();
    app.drag(4 * S);
    assert_eq!((app.sel_in, app.sel_out), (0, 8 * S));
    app.grab(7 * S);
    assert!(app.dragging == Some(Handle::Out));
    app.drag(5 * S);
    assert_eq!(app.sel_out, 5 * S);
    app.drag(-5 * S);
    assert_eq!(app.sel_out, 50_000_000);
    app.drag(i128::MAX);
    assert_eq!(app.sel_out, 8 * S);
    app.grab(4 * S);
    assert!(app.dragging == Some(Handle::In));
    assert_eq!(app.on_axis(9 * S), 8 * S);
}

#[test]
fn nothing_to_drag_on() {
    let mut app = ClipApp::new("/out".to_owned());
    app.grab(S);
    assert!(app.dragging.is_none() && !app.has_waveform());
    app.dragging = Some(Handle::Out);
    app.drag(S);
    assert_eq!((app.sel_in, app.sel_out), (0, 0));
}

#[test]
fn plays_the_selection() {
    let mut app = loaded();
    assert_eq!(app.toggle_play_selection(false), PlayStep::Play { from: 0, to: 128_000 });
    assert_eq!(app.toggle_play_selection(true), PlayStep::Stop);
    app.click_word(0);
    assert!(app.can_play());
    assert_eq!(app.toggle_play_selection(false), PlayStep::Play { from: 16_000, to: 32_000 });
    app.sel_out = 100 * S;
    assert_eq!(app.toggle_play_selection(false), PlayStep::Play { from: 16_000, to: 128_000 });
    app.sel_out = S;
    assert!(!app.can_play());
    assert_eq!(app.toggle_play_selection(false), PlayStep::Nothing);
    assert_eq!(ClipApp::new("/".to_owned()).toggle_play_selection(false), PlayStep::Nothing);
    app.audio_unavailable("none");
    assert_eq!(app.status, "Audio output unavailable: none");
    app.playback_failed("busy");
    assert_eq!(app.status, "Playback failed: busy");
}

#[test]
fn pending_messages_are_applied_in_order() {
    let messages = || {
        vec![
            WorkerMsg::Status("one".to_owned()),
            WorkerMsg::DownloadDone("/out/v.mp4".to_owned()),
            decoded(8),
            WorkerMsg::TranscribeDone(vec![word(0, S)]),
            WorkerMsg::Status("last".to_owned()),
        ]
    };
    let pending = |msg: WorkerMsg| Pending { msg, model: model(true) };
    let mut whole = ClipApp::new("/out".to_owned());
    let mut queue: VecDeque<Pending> = messages().into_iter().map(pending).collect();
    let replies = whole.drain_messages(&mut queue);
    assert!(queue.is_empty());
    assert_eq!(replies.len(), 5);
    assert!(matches!(replies[0].job, Job::Nothing));
    assert!(matches!(&replies[1].job, Job::Decode(p) if p == "/out/v.mp4"));
    assert!(replies[2].stop_playback && !replies[3].stop_playback);
    assert!(matches!(replies[2].job, Job::Transcribe(WhisperModelKind::Base)));
    assert_eq!(whole.status, "last");
    assert_eq!((whole.words.len(), whole.sel_out), (1, 8 * S));

    let mut parts = ClipApp::new("/out".to_owned());
    let mut later: VecDeque<Pending> = messages().into_iter().map(pending).collect();
    let mut first: VecDeque<Pending> = later.drain(..2).collect();
    parts.drain_messages(&mut first);
    assert!(parts.busy() && parts.words.is_empty());
    parts.drain_messages(&mut later);
    assert_eq!(parts.status, whole.status);
    assert_eq!(parts.words.len(), whole.words.len());
    assert_eq!((parts.sel_in, parts.sel_out), (whole.sel_in, whole.sel_out));
    assert!(parts.drain_messages(&mut VecDeque::new()).is_empty());
}
