use clip_extractor::model::{OutputFormat, WhisperModelKind, WorkerMsg};
use clip_extractor::resources::{
    extract_message, is_stale, model_message, plan_model, ModelPlan, Transfer, TransferEvent,
    TransferStep,
};

#[test]
fn model_names() {
    assert_eq!(OutputFormat::Mp3.ext(), "mp3");
    assert_eq!(OutputFormat::Mp4.ext(), "mp4");
    assert_eq!(WhisperModelKind::Base.label(), "base — fast (~150 MB)");
    assert_eq!(WhisperModelKind::Small.label(), "small — accurate (~500 MB)");
    assert_eq!(WhisperModelKind::Medium.label(), "medium — most accurate (~1.5 GB)");
    assert_eq!(
        WhisperModelKind::Medium.url(),
        "https://huggingface.co/ggerganov/whisper.cpp/resolve/main/ggml-medium.en.bin"
    );
    for kind in WhisperModelKind::ALL {
        assert!(kind.url().ends_with(kind.filename()));
        assert_eq!(kind.is_embedded(), kind == WhisperModelKind::Base);
        for other in WhisperModelKind::ALL {
            assert_eq!(kind.filename() == other.filename(), kind == other);
        }
    }
}

#[test]
fn model_plans() {
    let (base, small) = (WhisperModelKind::Base, WhisperModelKind::Small);
    assert_eq!(plan_model(base, true, true), ModelPlan::Ready);
    assert_eq!(plan_model(base, false, true), ModelPlan::Extract);
    assert_eq!(plan_model(base, false, false), ModelPlan::Download);
    assert_eq!(plan_model(small, false, true), ModelPlan::Download);
    assert!(is_stale(None, 3));
    assert!(is_stale(Some(2), 3));
    assert!(!is_stale(Some(3), 3));
}

fn failure(msg: WorkerMsg) -> String {
    match msg {
        WorkerMsg::ModelFailed(e) => e,
        _ => panic!("not a failure"),
    }
}

#[test]
fn model_messages() {
    assert!(matches!(model_message(Ok(true)), WorkerMsg::ModelReady));
    assert_eq!(failure(model_message(Ok(false))), "Model download cancelled.");
    assert_eq!(failure(model_message(Err("404".to_owned()))), "Model download failed: 404");
    assert!(matches!(extract_message(Ok(())), WorkerMsg::ModelReady));
    assert_eq!(failure(extract_message(Err("full".to_owned()))), "Could not extract model: full");
}

#[test]
fn transfer_reports_each_percent_once() {
    let mut t = Transfer::new(Some("1000"));
    let mut reports: Vec<u32> = Vec::new();
    let mut i = 0;
    while i < 250 {
        match t.step(TransferEvent::Read(4)) {
            TransferStep::Write(Some(f)) => reports.push(f.billionths / 10_000_000),
            TransferStep::Write(None) => {}
            _ => panic!("transfer ended"),
        }
        i += 1;
    }
    assert_eq!(t.step(TransferEvent::Read(0)), TransferStep::Commit);
    assert_eq!(reports.len(), 101);
    assert_eq!(reports[0], 0);
    assert_eq!(reports[100], 100);
    assert!(reports.windows(2).all(|w| w[0] < w[1]));
}

#[test]
fn transfer_without_a_size_reports_nothing() {
    for length in [None, Some("many"), Some("0")] {
        let mut t = Transfer::new(length);
        assert_eq!(t.step(TransferEvent::Read(9)), TransferStep::Write(None));
        assert_eq!(t.downloaded, 9);
        assert_eq!(t.step(TransferEvent::Cancelled), TransferStep::Discard);
    }
}
