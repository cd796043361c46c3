use clip_extractor::model::{WhisperModelKind, Word, WorkerMsg};
use clip_extractor::transcribe::{
    check_audio, dtw_preset, earliest, is_non_speech, is_spoken, onsets, progress_message, settings,
    transcribe, transcribe_message, words, DtwPreset, Onset, Segment,
};

const CS: i128 = 10_000_000;

fn segment(text: &str, token_times: &[i64], start: i64) -> Segment {
    Segment { text: text.to_owned(), token_times: token_times.to_vec(), start }
}

fn onset(centis: i64, text: &str) -> Onset {
    Onset { centis, text: text.to_owned() }
}

#[test]
fn enclosed_tokens_are_no_speech() {
    for s in ["*Music*", "[Music]", "(applause)", "*", "**", "()", "[x y]"] {
        assert!(is_non_speech(s), "{s}");
    }
    for s in ["", "Music", "*Music", "[Music)", "(a) b", "x*"] {
        assert!(!is_non_speech(s), "{s}");
    }
}

#[test]
fn spoken_text() {
    assert!(is_spoken("What", true));
    assert!(!is_spoken("...", false));
    assert!(!is_spoken("", true));
    assert!(!is_spoken("[Music]", true));
}

#[test]
fn earliest_aligned_token() {
    assert_eq!(earliest(&vec![-1, 30, 20, 25, -1]), 20);
    assert_eq!(earliest(&vec![-1, -1]), i64::MAX);
    assert_eq!(earliest(&vec![]), i64::MAX);
    assert_eq!(earliest(&vec![0]), 0);
}

#[test]
fn only_spoken_segments_have_onsets() {
    let found = onsets(&vec![
        segment(" *Music*", &[10], 0),
        segment(" What ", &[-1, 494, 500], 480),
        segment(" ...", &[520], 520),
        segment("   ", &[530], 530),
        segment(" the", &[-1], 554),
        segment(" Ünï7", &[600], 0),
        segment(" 藏", &[610], 0),
        segment(" ¿¡", &[620], 0),
    ]);
    let got: Vec<(i64, &str)> = found.iter().map(|o| (o.centis, o.text.as_str())).collect();
    assert_eq!(got, vec![(494, "What"), (554, "the"), (600, "Ünï7"), (610, "藏")]);
}

#[test]
fn word_spans() {
    let ws = words(&vec![onset(494, "What"), onset(554, "the"), onset(900, "end"), onset(900, "x")], 16_000 * 10);
    let spans: Vec<(i128, i128)> = ws.iter().map(|w| (w.start / CS, w.end / CS)).collect();
    assert_eq!(spans, vec![(494, 554), (554, 704), (900, 901), (900, 950)]);
    assert_eq!(ws[1].text, "the");
}

#[test]
fn words_of_a_sentence() {
    let times = [494, 554, 582, 622, 652, 680, 710, 736];
    let list: Vec<Onset> = times.iter().map(|&t| onset(t, "w")).collect();
    let ws = words(&list, 16_000 * 8);
    for (k, w) in ws.iter().enumerate() {
        assert_eq!(w.start, i128::from(times[k]) * CS);
        let end = if k + 1 < times.len() { times[k + 1] } else { 786 };
        assert_eq!(w.end, i128::from(end) * CS);
    }
}

#[test]
fn order_of_the_segments_is_kept() {
    let first = vec![segment("b", &[9], 0), segment("(x)", &[1], 0)];
    let later = vec![segment("a", &[3], 0)];
    let all: Vec<Segment> = first.iter().chain(later.iter()).cloned().collect();
    let texts: Vec<String> = onsets(&all).into_iter().map(|o| o.text).collect();
    let mut parts: Vec<String> = onsets(&first).into_iter().map(|o| o.text).collect();
    parts.extend(onsets(&later).into_iter().map(|o| o.text));
    assert_eq!(texts, parts);
    assert_eq!(texts, vec!["b", "a"]);
}

#[test]
fn last_word_ends_with_the_audio() {
    let ws = words(&vec![onset(780, "it")], 16_000 * 8);
    assert_eq!((ws[0].start, ws[0].end), (780 * CS, 800 * CS));
    let late = words(&vec![onset(900, "it")], 16_000 * 8);
    assert_eq!((late[0].start, late[0].end), (900 * CS, 901 * CS));
}

#[test]
fn silence_in_front_moves_the_words() {
    let now = words(&vec![onset(494, "What"), onset(554, "the")], 16_000 * 8);
    let later = words(&vec![onset(5_494, "What"), onset(5_554, "the")], 16_000 * 58);
    for (a, b) in now.iter().zip(later.iter()) {
        assert_eq!(a.start + 5_000 * CS, b.start);
        assert_eq!(a.end + 5_000 * CS, b.end);
        assert_eq!(a.text, b.text);
    }
}

#[test]
fn audio_that_cannot_be_transcribed() {
    assert_eq!(check_audio(&vec![]).unwrap_err(), "no audio to transcribe");
    for s in [f32::NAN, f32::INFINITY, f32::NEG_INFINITY] {
        let pcm = vec![0.5f32.to_bits(), s.to_bits()];
        assert_eq!(check_audio(&pcm).unwrap_err(), "audio contains non-finite samples");
        assert!(transcribe(&pcm, Ok(vec![])).is_err());
    }
    assert!(check_audio(&vec![f32::MAX.to_bits(), (-0.0f32).to_bits()]).is_ok());
}

#[test]
fn transcribes_what_was_recognised() {
    let pcm = vec![0u32; 16_000 * 8];
    let reply = Ok(vec![segment("[Music]", &[0], 0), segment(" What", &[494], 0), segment(" the", &[554], 0)]);
    let ws: Vec<Word> = transcribe(&pcm, reply).unwrap();
    assert_eq!(ws.len(), 2);
    assert_eq!((ws[0].text.as_str(), ws[0].start, ws[0].end), ("What", 494 * CS, 554 * CS));
    assert_eq!((ws[1].text.as_str(), ws[1].start, ws[1].end), ("the", 554 * CS, 604 * CS));
    assert_eq!(transcribe(&pcm, Err("aborted".to_owned())).unwrap_err(), "aborted");
}

#[test]
fn whisper_settings() {
    assert_eq!(dtw_preset(WhisperModelKind::Base), DtwPreset::BaseEn);
    assert_eq!(dtw_preset(WhisperModelKind::Small), DtwPreset::SmallEn);
    assert_eq!(dtw_preset(WhisperModelKind::Medium), DtwPreset::MediumEn);
    let s = settings(WhisperModelKind::Small, Some(64));
    assert_eq!((s.preset, s.language, s.threads, s.max_len), (DtwPreset::SmallEn, "en", 8, 1));
    assert!(s.token_timestamps && s.split_on_word);
    assert_eq!(settings(WhisperModelKind::Base, Some(3)).threads, 3);
    assert_eq!(settings(WhisperModelKind::Base, None).threads, 4);
}

#[test]
fn transcription_messages() {
    assert!(matches!(progress_message(25), WorkerMsg::TranscribeProgress(f) if f.billionths == 250_000_000));
    assert!(matches!(progress_message(-1), WorkerMsg::TranscribeProgress(f) if f.billionths == 0));
    assert!(matches!(progress_message(500), WorkerMsg::TranscribeProgress(f) if f.billionths == 1_000_000_000));
    assert!(matches!(transcribe_message(Ok(vec![])), WorkerMsg::TranscribeDone(w) if w.is_empty()));
    assert!(matches!(
        transcribe_message(Err("x".to_owned())),
        WorkerMsg::TranscribeFailed(m) if m == "Transcription failed: x"
    ));
}
