//! Shared data types.
use crate::fixed::{Fraction, Nanos};
use std::sync::Arc;
use vstd::prelude::*;

verus! {

/// One transcript word with its time span.
#[derive(Clone, Debug)]
pub struct Word {
    pub start: Nanos,
    pub end: Nanos,
    pub text: String,
}

/// A word, with its text as characters.
pub ghost struct WordView {
    pub start: int,
    pub end: int,
    pub text: Seq<char>,
}

impl View for Word {
    type V = WordView;

    open spec fn view(&self) -> WordView {
        WordView { start: self.start as int, end: self.end as int, text: self.text@ }
    }
}

/// Which selection handle is being dragged on the waveform.
#[derive(Clone, Copy, PartialEq, Eq, Structural, Debug)]
pub enum Handle {
    In,
    Out,
}

/// What an exported clip should be.
#[derive(Clone, Copy, PartialEq, Eq, Structural, Debug)]
pub enum OutputFormat {
    Mp3,
    Mp4,
}

impl OutputFormat {
    /// The file extension of a clip of this format.
    pub open spec fn ext_of(self) -> Seq<char> {
        match self {
            OutputFormat::Mp3 => "mp3"@,
            OutputFormat::Mp4 => "mp4"@,
        }
    }

    /// The file extension of a clip of this format.
    pub fn ext(self) -> (r: &'static str)
        ensures
            r@ == self.ext_of(),
    {
        match self {
            OutputFormat::Mp3 => "mp3",
            OutputFormat::Mp4 => "mp4",
        }
    }
}

/// Whisper model the user can choose. `Base` is embedded in the binary; the
/// larger ones are downloaded on demand.
#[derive(Clone, Copy, PartialEq, Eq, Structural, Debug)]
pub enum WhisperModelKind {
    Base,
    Small,
    Medium,
}

impl WhisperModelKind {
    /// Every model, in the order of the picker.
    pub const ALL: [WhisperModelKind; 3] = [
        WhisperModelKind::Base,
        WhisperModelKind::Small,
        WhisperModelKind::Medium,
    ];

    /// The label of the picker.
    pub open spec fn label_of(self) -> Seq<char> {
        match self {
            WhisperModelKind::Base => "base — fast (~150 MB)"@,
            WhisperModelKind::Small => "small — accurate (~500 MB)"@,
            WhisperModelKind::Medium => "medium — most accurate (~1.5 GB)"@,
        }
    }

    /// The file name of the model.
    pub open spec fn filename_of(self) -> Seq<char> {
        match self {
            WhisperModelKind::Base => "ggml-base.en.bin"@,
            WhisperModelKind::Small => "ggml-small.en.bin"@,
            WhisperModelKind::Medium => "ggml-medium.en.bin"@,
        }
    }

    /// Where the model is downloaded from: the model directory, then the file
    /// name.
    pub open spec fn url_of(self) -> Seq<char> {
        "https://huggingface.co/ggerganov/whisper.cpp/resolve/main/"@ + self.filename_of()
    }

    /// Human-readable label for the picker.
    pub fn label(self) -> (r: &'static str)
        ensures
            r@ == self.label_of(),
    {
        match self {
            WhisperModelKind::Base => "base — fast (~150 MB)",
            WhisperModelKind::Small => "small — accurate (~500 MB)",
            WhisperModelKind::Medium => "medium — most accurate (~1.5 GB)",
        }
    }

    /// ggml model filename (English-only weights).
    pub fn filename(self) -> (r: &'static str)
        ensures
            r@ == self.filename_of(),
    {
        match self {
            WhisperModelKind::Base => "ggml-base.en.bin",
            WhisperModelKind::Small => "ggml-small.en.bin",
            WhisperModelKind::Medium => "ggml-medium.en.bin",
        }
    }

    /// Download URL for on-demand fetch.
    pub fn url(self) -> (r: &'static str)
        ensures
            r@ == self.url_of(),
    {
        proof {
            reveal_strlit("https://huggingface.co/ggerganov/whisper.cpp/resolve/main/");
            reveal_strlit("ggml-base.en.bin");
            reveal_strlit("ggml-small.en.bin");
            reveal_strlit("ggml-medium.en.bin");
            reveal_strlit(
                "https://huggingface.co/ggerganov/whisper.cpp/resolve/main/ggml-base.en.bin",
            );
            reveal_strlit(
                "https://huggingface.co/ggerganov/whisper.cpp/resolve/main/ggml-small.en.bin",
            );
            reveal_strlit(
                "https://huggingface.co/ggerganov/whisper.cpp/resolve/main/ggml-medium.en.bin",
            );
        }
        match self {
            WhisperModelKind::Base => {
                "https://huggingface.co/ggerganov/whisper.cpp/resolve/main/ggml-base.en.bin"
            },
            WhisperModelKind::Small => {
                "https://huggingface.co/ggerganov/whisper.cpp/resolve/main/ggml-small.en.bin"
            },
            WhisperModelKind::Medium => {
                "https://huggingface.co/ggerganov/whisper.cpp/resolve/main/ggml-medium.en.bin"
            },
        }
    }

    /// Whether this model ships embedded in the binary.
    pub fn is_embedded(self) -> (r: bool)
        ensures
            r == (self is Base),
    {
        matches!(self, WhisperModelKind::Base)
    }
}

/// Different models have different file names, hence different download
/// addresses and different places in the cache.
pub proof fn law_models_are_told_apart(a: WhisperModelKind, b: WhisperModelKind)
    requires
        a != b,
    ensures
        a.filename_of() != b.filename_of(),
        a.url_of() != b.url_of(),
        a.label_of() != b.label_of(),
{
    let dir = "https://huggingface.co/ggerganov/whisper.cpp/resolve/main/"@;
    reveal_strlit("ggml-base.en.bin");
    reveal_strlit("ggml-small.en.bin");
    reveal_strlit("ggml-medium.en.bin");
    reveal_strlit("base — fast (~150 MB)");
    reveal_strlit("small — accurate (~500 MB)");
    reveal_strlit("medium — most accurate (~1.5 GB)");
    assert(a.filename_of()[5] != b.filename_of()[5]);
    assert(a.label_of()[0] != b.label_of()[0]);
    assert(a.url_of()[dir.len() as int + 5] == a.filename_of()[5]);
    assert(b.url_of()[dir.len() as int + 5] == b.filename_of()[5]);
}

/// The current long-running job, if any. Drives the progress widget and
/// disables actions while work is in flight.
pub enum Phase {
    Idle,
    Downloading { pct: Fraction, label: String },
    Decoding,
    Transcribing { progress: Fraction },
    Exporting,
}

/// A phase, with the text that it shows.
pub ghost enum PhaseView {
    Idle,
    Downloading { pct: Fraction, label: Seq<char> },
    Decoding,
    Transcribing { progress: Fraction },
    Exporting,
}

impl View for Phase {
    type V = PhaseView;

    open spec fn view(&self) -> PhaseView {
        match self {
            Phase::Idle => PhaseView::Idle,
            Phase::Downloading { pct, label } => PhaseView::Downloading { pct: *pct, label: label@ },
            Phase::Decoding => PhaseView::Decoding,
            Phase::Transcribing { progress } => PhaseView::Transcribing { progress: *progress },
            Phase::Exporting => PhaseView::Exporting,
        }
    }
}

/// Messages sent from worker threads back to the UI thread. The UI drains them
/// once per frame.
///
/// An audio sample is the bit pattern of a single-precision number.
pub enum WorkerMsg {
    // Download (yt-dlp)
    DownloadProgress { pct: Fraction, eta: String },
    DownloadDone(String),
    DownloadFailed(String),
    // Decode -> waveform + duration + 16 kHz mono PCM
    DecodeDone { samples: Vec<u32>, duration: Nanos, pcm16k: Arc<Vec<u32>> },
    DecodeFailed(String),
    // Model fetch (whisper ggml)
    ModelProgress { pct: Fraction },
    ModelReady,
    ModelFailed(String),
    // Transcribe
    TranscribeProgress(Fraction),
    TranscribeDone(Vec<Word>),
    TranscribeFailed(String),
    // Export (ffmpeg)
    ExportDone(String),
    ExportFailed(String),
    /// Generic status-line update.
    Status(String),
}

/// Models are English-only weights that come from one place under their own file names.
pub proof fn law_models_have_one_source(kind: WhisperModelKind)
    ensures
        kind.url_of() == "https://huggingface.co/ggerganov/whisper.cpp/resolve/main/"@
            + kind.filename_of(),
        kind is Base ==> kind.filename_of() == "ggml-"@ + "base"@ + ".en.bin"@,
        kind is Small ==> kind.filename_of() == "ggml-"@ + "small"@ + ".en.bin"@,
        kind is Medium ==> kind.filename_of() == "ggml-"@ + "medium"@ + ".en.bin"@,
{
    reveal_strlit("ggml-");
    reveal_strlit("base");
    reveal_strlit("small");
    reveal_strlit("medium");
    reveal_strlit(".en.bin");
    reveal_strlit("ggml-base.en.bin");
    reveal_strlit("ggml-small.en.bin");
    reveal_strlit("ggml-medium.en.bin");
    assert("ggml-base.en.bin"@ == "ggml-"@ + "base"@ + ".en.bin"@);
    assert("ggml-small.en.bin"@ == "ggml-"@ + "small"@ + ".en.bin"@);
    assert("ggml-medium.en.bin"@ == "ggml-"@ + "medium"@ + ".en.bin"@);
}

} // verus!
