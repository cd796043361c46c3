//! The state of the application, and what the user's actions and the workers'
//! messages make of it. What is left to do outside comes back as a job.
use crate::fixed::{
    distance, distance_of, fixed_of, fixed_text, span_text, Fraction, Nanos,
};
use crate::model::{
    Handle, OutputFormat, Phase, PhaseView, WhisperModelKind, Word, WordView, WorkerMsg,
};
use crate::text::{decimal_of, joined, optional_view, push_decimal, starts_with, trim, trimmed};
use crate::transcribe::{word_views, SAMPLE_16K};
use std::collections::VecDeque;
use std::sync::Arc;
use vstd::prelude::*;

verus! {

/// The shortest selection that dragging leaves.
pub const MIN_SELECTION: i128 = 50_000_000;

/// The application state.
pub struct ClipApp {
    /// The loaded media file.
    pub file: Option<String>,
    pub duration: Nanos,
    /// The waveform envelope, as sample patterns.
    pub samples: Vec<u32>,
    pub words: Vec<Word>,
    pub sel_in: Nanos,
    pub sel_out: Nanos,
    pub dragging: Option<Handle>,
    pub status: String,
    /// URL (e.g. YouTube) or local file path.
    pub source_input: String,
    /// Directory exported clips are written to.
    pub out_dir: String,
    pub output_format: OutputFormat,
    pub model_kind: WhisperModelKind,
    /// The current long-running job, if any.
    pub phase: Phase,
    /// Decoded 16 kHz mono PCM, cached so transcription needn't re-decode.
    pub pcm16k: Option<Arc<Vec<u32>>>,
    /// Whether the job in flight has an abort flag.
    pub cancel: bool,
}

/// The application state, with texts as characters.
pub ghost struct AppView {
    pub file: Option<Seq<char>>,
    pub duration: int,
    pub samples: Seq<u32>,
    pub words: Seq<WordView>,
    pub sel_in: int,
    pub sel_out: int,
    pub dragging: Option<Handle>,
    pub status: Seq<char>,
    pub source_input: Seq<char>,
    pub out_dir: Seq<char>,
    pub output_format: OutputFormat,
    pub model_kind: WhisperModelKind,
    pub phase: PhaseView,
    pub pcm16k: Option<Seq<u32>>,
    pub cancel: bool,
}

impl View for ClipApp {
    type V = AppView;

    open spec fn view(&self) -> AppView {
        AppView {
            file: optional_view(self.file),
            duration: self.duration as int,
            samples: self.samples@,
            words: word_views(self.words@),
            sel_in: self.sel_in as int,
            sel_out: self.sel_out as int,
            dragging: self.dragging,
            status: self.status@,
            source_input: self.source_input@,
            out_dir: self.out_dir@,
            output_format: self.output_format,
            model_kind: self.model_kind,
            phase: self.phase@,
            pcm16k: match self.pcm16k {
                Some(p) => Some(p@),
                None => None,
            },
            cancel: self.cancel,
        }
    }
}

/// The file of the selected model.
#[derive(Debug)]
pub struct ModelFile {
    pub path: String,
    /// Whether it is there.
    pub on_disk: bool,
}

/// A message that waits to be applied, and the file of the selected model when it
/// came.
pub struct Pending {
    pub msg: WorkerMsg,
    pub model: ModelFile,
}

/// A job for a worker.
#[derive(Debug)]
pub enum Job {
    Nothing,
    /// Decode this file.
    Decode(String),
    /// Bring this model to disk, with an abort flag.
    FetchModel(WhisperModelKind),
    /// Transcribe the cached PCM with this model, with an abort flag.
    Transcribe(WhisperModelKind),
}

/// A job, with its path as characters.
pub ghost enum JobView {
    Nothing,
    Decode(Seq<char>),
    FetchModel(WhisperModelKind),
    Transcribe(WhisperModelKind),
}

impl View for Job {
    type V = JobView;

    open spec fn view(&self) -> JobView {
        match self {
            Job::Nothing => JobView::Nothing,
            Job::Decode(path) => JobView::Decode(path@),
            Job::FetchModel(kind) => JobView::FetchModel(*kind),
            Job::Transcribe(kind) => JobView::Transcribe(*kind),
        }
    }
}

/// What a message asks for.
#[derive(Debug)]
pub struct Reply {
    /// Whether a preview that plays has to stop.
    pub stop_playback: bool,
    pub job: Job,
}

/// A reply, with the path of its job as characters.
pub ghost struct ReplyView {
    pub stop_playback: bool,
    pub job: JobView,
}

impl View for Reply {
    type V = ReplyView;

    open spec fn view(&self) -> ReplyView {
        ReplyView { stop_playback: self.stop_playback, job: self.job@ }
    }
}

/// The label of a download: how much came, and the time left where it is known.
pub open spec fn progress_label(pct: Fraction, eta: Seq<char>) -> Seq<char> {
    if eta.len() == 0 {
        percent_text_of(pct) + "%"@
    } else {
        percent_text_of(pct) + "% (ETA "@ + eta + ")"@
    }
}

/// `f` in whole percent.
pub open spec fn percent_text_of(f: Fraction) -> Seq<char> {
    fixed_of(f.billionths * 100, 0)
}

impl AppView {
    /// With another status line.
    pub open spec fn saying(self, status: Seq<char>) -> AppView {
        AppView { status, ..self }
    }

    /// With no job in flight.
    pub open spec fn idle(self) -> AppView {
        AppView { phase: PhaseView::Idle, ..self }
    }

    /// With no abort flag.
    pub open spec fn without_flag(self) -> AppView {
        AppView { cancel: false, ..self }
    }

    /// While `path` is decoded.
    pub open spec fn decoding(self, path: Seq<char>) -> AppView {
        AppView {
            status: "Decoding "@ + path + "…"@,
            phase: PhaseView::Decoding,
            file: Some(path),
            ..self
        }
    }

    /// Once audio is decoded: the whole of it is selected.
    pub open spec fn decoded(
        self,
        samples: Seq<u32>,
        duration: int,
        pcm16k: Seq<u32>,
    ) -> AppView {
        AppView {
            samples,
            duration,
            sel_in: 0,
            sel_out: duration,
            pcm16k: Some(pcm16k),
            status: "Decoded "@ + fixed_of(duration, 1) + "s."@,
            ..self
        }
    }

    /// When transcription is to start and the model's file is `path`: it starts
    /// if there is PCM and the model is there.
    pub open spec fn transcription(self, path: Seq<char>, on_disk: bool) -> (AppView, JobView) {
        if self.pcm16k is None {
            (self.idle(), JobView::Nothing)
        } else if !on_disk {
            (self.saying("Model not found at "@ + path + "."@).idle(), JobView::Nothing)
        } else {
            (
                AppView {
                    cancel: true,
                    phase: PhaseView::Transcribing { progress: Fraction { billionths: 0 } },
                    ..self
                },
                JobView::Transcribe(self.model_kind),
            )
        }
    }

    /// When the PCM is to be transcribed, with a model that may have to be
    /// brought first.
    pub open spec fn model_then_transcription(self, path: Seq<char>, on_disk: bool) -> (
        AppView,
        JobView,
    ) {
        if self.pcm16k is None || on_disk {
            self.transcription(path, on_disk)
        } else {
            (
                AppView {
                    cancel: true,
                    phase: PhaseView::Downloading {
                        pct: Fraction { billionths: 0 },
                        label: "model"@,
                    },
                    status: "Downloading "@ + self.model_kind.label_of() + " model…"@,
                    ..self
                },
                JobView::FetchModel(self.model_kind),
            )
        }
    }

    /// What a worker's message makes of the state, and the job that follows it,
    /// when the file of the selected model is `path`.
    pub open spec fn after_message(self, msg: WorkerMsg, path: Seq<char>, on_disk: bool) -> (
        AppView,
        JobView,
    ) {
        match msg {
            WorkerMsg::Status(s) => (self.saying(s@), JobView::Nothing),
            WorkerMsg::DownloadProgress { pct, eta } => (
                AppView {
                    phase: PhaseView::Downloading { pct, label: progress_label(pct, eta@) },
                    ..self
                },
                JobView::Nothing,
            ),
            WorkerMsg::DownloadDone(file) => (
                self.without_flag().decoding(file@),
                JobView::Decode(file@),
            ),
            WorkerMsg::DownloadFailed(e) => (
                self.saying(e@).idle().without_flag(),
                JobView::Nothing,
            ),
            WorkerMsg::DecodeDone { samples, duration, pcm16k } => self.decoded(
                samples@,
                duration as int,
                pcm16k@,
            ).model_then_transcription(path, on_disk),
            WorkerMsg::DecodeFailed(e) => (self.saying(e@).idle(), JobView::Nothing),
            WorkerMsg::ModelProgress { pct } => (
                AppView {
                    phase: PhaseView::Downloading { pct, label: "model"@ },
                    status: "Downloading model… "@ + percent_text_of(pct) + "%"@,
                    ..self
                },
                JobView::Nothing,
            ),
            WorkerMsg::ModelReady => self.without_flag().transcription(path, on_disk),
            WorkerMsg::ModelFailed(e) => (
                self.saying(e@).idle().without_flag(),
                JobView::Nothing,
            ),
            WorkerMsg::TranscribeProgress(progress) => (
                AppView { phase: PhaseView::Transcribing { progress }, ..self },
                JobView::Nothing,
            ),
            WorkerMsg::TranscribeDone(words) => (
                AppView {
                    words: word_views(words@),
                    status: "Transcription complete — "@ + decimal_of(words@.len()) + " words."@,
                    ..self
                }.idle().without_flag(),
                JobView::Nothing,
            ),
            WorkerMsg::TranscribeFailed(e) => (
                self.saying(e@).idle().without_flag(),
                JobView::Nothing,
            ),
            WorkerMsg::ExportDone(file) => (
                self.saying("Exported "@ + file@).idle(),
                JobView::Nothing,
            ),
            WorkerMsg::ExportFailed(e) => (self.saying(e@).idle(), JobView::Nothing),
        }
    }

    /// What the messages of a queue make of the state, each applied to what those
    /// before it made, and the replies to them.
    pub open spec fn after_messages(self, queue: Seq<Pending>) -> (AppView, Seq<ReplyView>)
        decreases queue.len(),
    {
        if queue.len() == 0 {
            (self, seq![])
        } else {
            let (before, replies) = self.after_messages(queue.drop_last());
            let p = queue.last();
            let (after, job) = before.after_message(p.msg, p.model.path@, p.model.on_disk);
            (after, replies.push(ReplyView { stop_playback: p.msg is DecodeDone, job }))
        }
    }
}

/// What the replies ask for.
pub open spec fn reply_views(replies: Seq<Reply>) -> Seq<ReplyView> {
    replies.map_values(|r: Reply| r@)
}

/// `f` in whole percent.
fn percent_text(f: Fraction) -> (r: String)
    ensures
        r@ == percent_text_of(f),
{
    fixed_text(f.billionths as i128 * 100, 0)
}

impl ClipApp {
    /// The state at startup, with clips going to `out_dir`.
    pub fn new(out_dir: String) -> (r: ClipApp)
        ensures
            r@ == (AppView {
                file: None,
                duration: 0,
                samples: seq![],
                words: seq![],
                sel_in: 0,
                sel_out: 0,
                dragging: None,
                status: "Open a media file to begin."@,
                source_input: seq![],
                out_dir: out_dir@,
                output_format: OutputFormat::Mp4,
                model_kind: WhisperModelKind::Base,
                phase: PhaseView::Idle,
                pcm16k: None,
                cancel: false,
            }),
    {
        let app = ClipApp {
            file: None,
            duration: 0,
            samples: Vec::new(),
            words: Vec::new(),
            sel_in: 0,
            sel_out: 0,
            dragging: None,
            status: "Open a media file to begin.".to_owned(),
            source_input: String::new(),
            out_dir,
            output_format: OutputFormat::Mp4,
            model_kind: WhisperModelKind::Base,
            phase: Phase::Idle,
            pcm16k: None,
            cancel: false,
        };
        assert(word_views(app.words@) == Seq::<WordView>::empty());
        app
    }

    /// Begin decoding a local media file.
    pub fn decode_file(&mut self, path: String) -> (r: Job)
        ensures
            final(self)@ == old(self)@.decoding(path@),
            r@ == JobView::Decode(path@),
    {
        let mut status = joined("Decoding ", path.as_str());
        status.append("…");
        self.status = status;
        self.phase = Phase::Decoding;
        self.file = Some(path.clone());
        Job::Decode(path)
    }

    /// Begin transcribing the cached PCM with the selected model, which must
    /// already be on disk.
    pub fn start_transcription(&mut self, model: &ModelFile) -> (r: Job)
        ensures
            (final(self)@, r@) == old(self)@.transcription(model.path@, model.on_disk),
    {
        if self.pcm16k.is_none() {
            self.phase = Phase::Idle;
            return Job::Nothing;
        }
        if !model.on_disk {
            let mut status = joined("Model not found at ", model.path.as_str());
            status.append(".");
            self.status = status;
            self.phase = Phase::Idle;
            return Job::Nothing;
        }
        self.cancel = true;
        self.phase = Phase::Transcribing { progress: Fraction::none() };
        Job::Transcribe(self.model_kind)
    }

    /// Ensure the selected model is present (downloading on demand), then
    /// transcribe the cached PCM.
    pub fn ensure_model_then_transcribe(&mut self, model: &ModelFile) -> (r: Job)
        ensures
            (final(self)@, r@) == old(self)@.model_then_transcription(model.path@, model.on_disk),
    {
        if self.pcm16k.is_none() {
            self.phase = Phase::Idle;
            return Job::Nothing;
        }
        if model.on_disk {
            return self.start_transcription(model);
        }
        self.cancel = true;
        self.phase = Phase::Downloading { pct: Fraction::none(), label: "model".to_owned() };
        let mut status = joined("Downloading ", self.model_kind.label());
        status.append(" model…");
        self.status = status;
        Job::FetchModel(self.model_kind)
    }

    /// Apply one worker message to the state. A preview stops when other audio
    /// takes its place.
    pub fn apply_message(&mut self, msg: WorkerMsg, model: &ModelFile) -> (r: Reply)
        ensures
            (final(self)@, r.job@) == old(self)@.after_message(msg, model.path@, model.on_disk),
            r.stop_playback == (msg is DecodeDone),
    {
        let mut stop_playback: bool = false;
        let mut job = Job::Nothing;
        match msg {
            WorkerMsg::Status(s) => {
                self.status = s;
            },
            WorkerMsg::DownloadProgress { pct, eta } => {
                let mut label = percent_text(pct);
                if eta.as_str().is_empty() {
                    label.append("%");
                } else {
                    label.append("% (ETA ");
                    label.append(eta.as_str());
                    label.append(")");
                }
                self.phase = Phase::Downloading { pct, label };
            },
            WorkerMsg::DownloadDone(path) => {
                self.cancel = false;
                job = self.decode_file(path);
            },
            WorkerMsg::DownloadFailed(e) => {
                self.status = e;
                self.phase = Phase::Idle;
                self.cancel = false;
            },
            WorkerMsg::DecodeDone { samples, duration, pcm16k } => {
                stop_playback = true;
                self.samples = samples;
                self.duration = duration;
                self.sel_in = 0;
                self.sel_out = duration;
                self.pcm16k = Some(pcm16k);
                let mut status = joined("Decoded ", fixed_text(duration, 1).as_str());
                status.append("s.");
                self.status = status;
                job = self.ensure_model_then_transcribe(model);
            },
            WorkerMsg::DecodeFailed(e) => {
                self.status = e;
                self.phase = Phase::Idle;
            },
            WorkerMsg::ModelProgress { pct } => {
                self.phase = Phase::Downloading { pct, label: "model".to_owned() };
                let mut status = joined("Downloading model… ", percent_text(pct).as_str());
                status.append("%");
                self.status = status;
            },
            WorkerMsg::ModelReady => {
                self.cancel = false;
                job = self.start_transcription(model);
            },
            WorkerMsg::ModelFailed(e) => {
                self.status = e;
                self.phase = Phase::Idle;
                self.cancel = false;
            },
            WorkerMsg::TranscribeProgress(progress) => {
                self.phase = Phase::Transcribing { progress };
            },
            WorkerMsg::TranscribeDone(words) => {
                let mut status = "Transcription complete — ".to_owned();
                push_decimal(&mut status, words.len() as u128);
                status.append(" words.");
                self.status = status;
                self.words = words;
                self.phase = Phase::Idle;
                self.cancel = false;
            },
            WorkerMsg::TranscribeFailed(e) => {
                self.status = e;
                self.phase = Phase::Idle;
                self.cancel = false;
            },
            WorkerMsg::ExportDone(path) => {
                self.status = joined("Exported ", path.as_str());
                self.phase = Phase::Idle;
            },
            WorkerMsg::ExportFailed(e) => {
                self.status = e;
                self.phase = Phase::Idle;
            },
        }
        Reply { stop_playback, job }
    }

    /// Apply all pending messages to the state, in the order in which they came.
    /// The replies are in that order too.
    pub fn drain_messages(&mut self, queue: &mut VecDeque<Pending>) -> (r: Vec<Reply>)
        ensures
            (final(self)@, reply_views(r@)) == old(self)@.after_messages(old(queue)@),
            final(queue)@.len() == 0,
    {
        let ghost start = self@;
        let ghost all = queue@;
        let mut r: Vec<Reply> = Vec::new();
        let ghost mut k: int = 0;
        assert(all.take(0) == Seq::<Pending>::empty());
        assert(all.skip(0) == all);
        assert(reply_views(r@) == Seq::<ReplyView>::empty());
        loop
            invariant_except_break
                0 <= k <= all.len(),
                queue@ == all.skip(k),
                (self@, reply_views(r@)) == start.after_messages(all.take(k)),
            ensures
                queue@.len() == 0,
                (self@, reply_views(r@)) == start.after_messages(all),
            decreases queue@.len(),
        {
            let p: Pending = match queue.pop_front() {
                Some(p) => p,
                None => {
                    assert(all.take(k) == all);
                    break;
                },
            };
            let ghost before = r@;
            let reply = self.apply_message(p.msg, &p.model);
            r.push(reply);
            proof {
                assert(all.take(k + 1).drop_last() == all.take(k));
                assert(all.take(k + 1).last() == p);
                assert(reply_views(r@) == reply_views(before).push(reply@));
                k = k + 1;
            }
        }
        r
    }
}

/// What to do to load the source.
#[derive(Debug)]
pub enum LoadStep {
    Nothing,
    /// Make the directory, then download the URL into it.
    MakeDir { dir: String, url: String },
    /// See whether this is a file.
    CheckFile(String),
}

/// What to do to export the selection.
#[derive(Debug)]
pub enum ExportStep {
    Nothing,
    /// Make the directory that the clip goes to.
    MakeDir(String),
}

/// A clip to cut.
#[derive(Debug)]
pub struct ExportJob {
    pub input: String,
    pub out_dir: String,
    pub sel_in: Nanos,
    pub sel_out: Nanos,
    pub format: OutputFormat,
}

/// What the play button does.
#[derive(Clone, Copy, PartialEq, Eq, Structural, Debug)]
pub enum PlayStep {
    Nothing,
    /// Stop the preview.
    Stop,
    /// Play the samples from `from` to before `to`.
    Play { from: usize, to: usize },
}

/// What the status bar shows beside the status line.
#[derive(Debug)]
pub enum Indicator {
    Nothing,
    Spinner,
    Bar { pct: Fraction, text: String },
}

/// Whether `source` is an address rather than a path.
pub open spec fn is_url(source: Seq<char>) -> bool {
    "http://"@.is_prefix_of(source) || "https://"@.is_prefix_of(source)
}

/// The sample at 16 kHz that is heard at time `t`, of `len` samples; the end for
/// what is behind it, and the first for what is before it.
pub open spec fn sample_at(t: int, len: nat) -> nat {
    if t < 0 {
        0
    } else if t / SAMPLE_16K as int > len {
        len
    } else {
        (t / SAMPLE_16K as int) as nat
    }
}

/// `t` held between the start and the end of the audio.
pub open spec fn held(t: int, duration: int) -> int {
    if t < 0 {
        0
    } else if t > duration {
        duration
    } else {
        t
    }
}

impl AppView {
    /// Whether there is a waveform to draw and to drag on.
    pub open spec fn has_waveform(self) -> bool {
        self.samples.len() > 0 && self.duration > 0
    }

    /// With the handle that was taken hold of at time `at`: the nearer one, and
    /// the left one of two that are equally near.
    pub open spec fn grabbed(self, at: int) -> AppView {
        AppView {
            dragging: Some(
                if distance_of(at, held(self.sel_in, self.duration)) <= distance_of(
                    at,
                    held(self.sel_out, self.duration),
                ) {
                    Handle::In
                } else {
                    Handle::Out
                },
            ),
            ..self
        }
    }

    /// With the handle that is held moved to time `at`, as far as the audio
    /// reaches and the other handle lets it.
    pub open spec fn dragged(self, at: int) -> AppView {
        let t = held(at, self.duration);
        match self.dragging {
            Some(Handle::In) => {
                let most = self.sel_out - MIN_SELECTION;
                let moved = if t < most {
                    t
                } else {
                    most
                };
                AppView {
                    sel_in: if moved < 0 {
                        0
                    } else {
                        moved
                    },
                    ..self
                }
            },
            Some(Handle::Out) => {
                let least = self.sel_in + MIN_SELECTION;
                let moved = if t > least {
                    t
                } else {
                    least
                };
                AppView {
                    sel_out: if moved > self.duration {
                        self.duration
                    } else {
                        moved
                    },
                    ..self
                }
            },
            None => self,
        }
    }

    /// With the selection set to word `i`.
    pub open spec fn clicked(self, i: int) -> AppView {
        AppView { sel_in: self.words[i].start, sel_out: self.words[i].end, ..self }
    }

    /// Once a handle is let go.
    pub open spec fn released(self) -> AppView {
        AppView { dragging: None, ..self }
    }

    /// Once a download starts.
    pub open spec fn downloading(self) -> AppView {
        AppView {
            cancel: true,
            phase: PhaseView::Downloading {
                pct: Fraction { billionths: 0 },
                label: "starting…"@,
            },
            status: "Downloading…"@,
            ..self
        }
    }

    /// Once an export starts.
    pub open spec fn exporting(self) -> AppView {
        AppView { phase: PhaseView::Exporting, status: "Exporting…"@, ..self }
    }

    /// Whether word `i` lies in the selection.
    pub open spec fn selects(self, i: int) -> bool {
        self.words[i].start >= self.sel_in && self.words[i].end <= self.sel_out
    }
}

impl ClipApp {
    /// Whether a job is in flight.
    pub fn busy(&self) -> (r: bool)
        ensures
            r == !(self@.phase is Idle),
    {
        !matches!(self.phase, Phase::Idle)
    }

    /// Whether the source can be loaded: there is one, and nothing is in flight.
    pub fn can_load(&self) -> (r: bool)
        ensures
            r == (self@.phase is Idle && trimmed(self@.source_input).len() > 0),
    {
        !self.busy() && !trim(self.source_input.as_str()).as_str().is_empty()
    }

    /// Whether the selection can be played: there is audio, and some of it is
    /// selected.
    pub fn can_play(&self) -> (r: bool)
        ensures
            r == (self@.pcm16k is Some && self@.sel_out > self@.sel_in),
    {
        self.pcm16k.is_some() && self.sel_out > self.sel_in
    }

    /// Whether the selection can be exported: a file is loaded, and nothing is in
    /// flight.
    pub fn can_export(&self) -> (r: bool)
        ensures
            r == (self@.file is Some && self@.phase is Idle),
    {
        self.file.is_some() && !self.busy()
    }

    /// Give up on the job in flight. Tells whether there is a flag to raise.
    pub fn request_cancel(&mut self) -> (r: bool)
        ensures
            final(self)@ == old(self)@.saying("Cancelling…"@),
            r == old(self)@.cancel,
    {
        self.status = "Cancelling…".to_owned();
        self.cancel
    }

    /// What the status bar shows: how far a download or a transcription is, or
    /// that something else is in flight.
    pub fn indicator(&self) -> (r: Indicator)
        ensures
            match self@.phase {
                PhaseView::Idle => r is Nothing,
                PhaseView::Downloading { pct, label } => r is Bar && r->pct == pct && r->text@
                    == label,
                PhaseView::Transcribing { progress } => r is Bar && r->pct == progress && r->text@
                    == "Transcribing…"@,
                PhaseView::Decoding => r is Spinner,
                PhaseView::Exporting => r is Spinner,
            },
    {
        match &self.phase {
            Phase::Idle => Indicator::Nothing,
            Phase::Downloading { pct, label } => Indicator::Bar { pct: *pct, text: label.clone() },
            Phase::Transcribing { progress } => Indicator::Bar {
                pct: *progress,
                text: "Transcribing…".to_owned(),
            },
            Phase::Decoding => Indicator::Spinner,
            Phase::Exporting => Indicator::Spinner,
        }
    }

    /// Whether word `i` lies in the selection.
    pub fn word_selected(&self, i: usize) -> (r: bool)
        requires
            i < self.words.len(),
        ensures
            r == self@.selects(i as int),
    {
        self.words[i].start >= self.sel_in && self.words[i].end <= self.sel_out
    }

    /// Set the selection to word `i`.
    pub fn click_word(&mut self, i: usize)
        requires
            i < old(self).words.len(),
        ensures
            final(self)@ == old(self)@.clicked(i as int),
    {
        self.sel_in = self.words[i].start;
        self.sel_out = self.words[i].end;
    }

    /// The selection, and how long it is, in seconds.
    pub fn selection_text(&self) -> (r: String)
        ensures
            r@ == "Selection: "@ + fixed_of(self@.sel_in, 2) + "s → "@ + fixed_of(self@.sel_out, 2)
                + "s  ("@ + fixed_of(
                if self@.sel_in < self@.sel_out {
                    self@.sel_out - self@.sel_in
                } else {
                    0
                },
                2,
            ) + "s)"@,
    {
        let mut s = joined("Selection: ", fixed_text(self.sel_in, 2).as_str());
        s.append("s → ");
        s.append(fixed_text(self.sel_out, 2).as_str());
        s.append("s  (");
        s.append(span_text(self.sel_in, self.sel_out, 2).as_str());
        s.append("s)");
        s
    }

    /// Validate the output directory; returns the one to create, or says in the
    /// status line that there is none.
    pub fn ensure_out_dir(&mut self) -> (r: Option<String>)
        ensures
            match r {
                Some(dir) => dir@ == trimmed(old(self)@.out_dir) && dir@.len() > 0
                    && final(self)@ == old(self)@,
                None => trimmed(old(self)@.out_dir).len() == 0 && final(self)@ == old(
                    self,
                )@.saying("Set an output directory first."@),
            },
    {
        let dir = trim(self.out_dir.as_str());
        if dir.as_str().is_empty() {
            self.status = "Set an output directory first.".to_owned();
            return None;
        }
        Some(dir)
    }

    /// Whether the output directory is there, given how making it ended; says in
    /// the status line why it is not.
    pub fn out_dir_made(&mut self, made: Result<(), String>) -> (r: bool)
        ensures
            r == (made is Ok),
            final(self)@ == match made {
                Ok(_) => old(self)@,
                Err(e) => old(self)@.saying("Cannot create output dir: "@ + e@),
            },
    {
        match made {
            Ok(_) => true,
            Err(e) => {
                self.status = joined("Cannot create output dir: ", e.as_str());
                false
            },
        }
    }

    /// Resolve the source (URL or local path) and begin loading.
    pub fn start_load(&mut self) -> (r: LoadStep)
        ensures
            ({
                let source = trimmed(old(self)@.source_input);
                let dir = trimmed(old(self)@.out_dir);
                if !is_url(source) {
                    r is CheckFile && r->CheckFile_0@ == source && final(self)@ == old(self)@
                } else if dir.len() == 0 {
                    r is Nothing && final(self)@ == old(self)@.saying(
                        "Set an output directory first."@,
                    )
                } else {
                    r is MakeDir && r->dir@ == dir && r->url@ == source && final(self)@ == old(
                        self,
                    )@
                }
            }),
    {
        let source = trim(self.source_input.as_str());
        if starts_with(source.as_str(), "http://") || starts_with(source.as_str(), "https://") {
            match self.ensure_out_dir() {
                Some(dir) => LoadStep::MakeDir { dir, url: source },
                None => LoadStep::Nothing,
            }
        } else {
            LoadStep::CheckFile(source)
        }
    }

    /// Begin the download, given how making the directory ended. Tells whether it
    /// begins.
    pub fn start_download(&mut self, made: Result<(), String>) -> (r: bool)
        ensures
            r == (made is Ok),
            final(self)@ == match made {
                Ok(_) => old(self)@.downloading(),
                Err(e) => old(self)@.saying("Cannot create output dir: "@ + e@),
            },
    {
        if !self.out_dir_made(made) {
            return false;
        }
        self.cancel = true;
        self.phase = Phase::Downloading { pct: Fraction::none(), label: "starting…".to_owned() };
        self.status = "Downloading…".to_owned();
        true
    }

    /// Begin loading the local path `source`, given whether it is a file.
    pub fn load_file(&mut self, source: String, is_file: bool) -> (r: Job)
        ensures
            (final(self)@, r@) == if is_file {
                (old(self)@.decoding(source@), JobView::Decode(source@))
            } else {
                (old(self)@.saying("File not found: "@ + source@), JobView::Nothing)
            },
    {
        if !is_file {
            self.status = joined("File not found: ", source.as_str());
            return Job::Nothing;
        }
        self.decode_file(source)
    }

    /// Export the selected range: the directory comes first, if a file is loaded.
    pub fn start_export(&mut self) -> (r: ExportStep)
        ensures
            ({
                let dir = trimmed(old(self)@.out_dir);
                if old(self)@.file is None {
                    r is Nothing && final(self)@ == old(self)@
                } else if dir.len() == 0 {
                    r is Nothing && final(self)@ == old(self)@.saying(
                        "Set an output directory first."@,
                    )
                } else {
                    r is MakeDir && r->MakeDir_0@ == dir && final(self)@ == old(self)@
                }
            }),
    {
        if self.file.is_none() {
            return ExportStep::Nothing;
        }
        match self.ensure_out_dir() {
            Some(dir) => ExportStep::MakeDir(dir),
            None => ExportStep::Nothing,
        }
    }

    /// Begin the export to `out_dir`, given how making it ended. The job is what
    /// was selected.
    pub fn export_to(&mut self, out_dir: String, made: Result<(), String>) -> (r: Option<ExportJob>)
        ensures
            match r {
                Some(job) => {
                    &&& made is Ok
                    &&& Some(job.input@) == old(self)@.file
                    &&& job.out_dir == out_dir
                    &&& job.sel_in == old(self)@.sel_in
                    &&& job.sel_out == old(self)@.sel_out
                    &&& job.format == old(self)@.output_format
                    &&& final(self)@ == old(self)@.exporting()
                },
                None => match made {
                    Ok(_) => old(self)@.file is None && final(self)@ == old(self)@,
                    Err(e) => final(self)@ == old(self)@.saying(
                        "Cannot create output dir: "@ + e@,
                    ),
                },
            },
    {
        if !self.out_dir_made(made) {
            return None;
        }
        let input: String = match &self.file {
            Some(f) => f.clone(),
            None => {
                return None;
            },
        };
        self.phase = Phase::Exporting;
        self.status = "Exporting…".to_owned();
        Some(
            ExportJob {
                input,
                out_dir,
                sel_in: self.sel_in,
                sel_out: self.sel_out,
                format: self.output_format,
            },
        )
    }

    /// Whether there is a waveform to draw and to drag on.
    pub fn has_waveform(&self) -> (r: bool)
        ensures
            r == self@.has_waveform(),
    {
        self.samples.len() > 0 && self.duration > 0
    }

    /// `t` held between the start and the end of the audio.
    pub fn on_axis(&self, t: Nanos) -> (r: Nanos)
        ensures
            r == held(t as int, self@.duration),
    {
        if t < 0 {
            0
        } else if t > self.duration {
            self.duration
        } else {
            t
        }
    }

    /// Take hold of a handle with the pointer at time `at`.
    pub fn grab(&mut self, at: Nanos)
        ensures
            final(self)@ == if old(self)@.has_waveform() {
                old(self)@.grabbed(at as int)
            } else {
                old(self)@
            },
    {
        if !self.has_waveform() {
            return;
        }
        let din: u128 = distance(at, self.on_axis(self.sel_in));
        let dout: u128 = distance(at, self.on_axis(self.sel_out));
        self.dragging = Some(
            if din <= dout {
                Handle::In
            } else {
                Handle::Out
            },
        );
    }

    /// Move the handle that is held with the pointer at time `at`.
    pub fn drag(&mut self, at: Nanos)
        ensures
            final(self)@ == if old(self)@.has_waveform() {
                old(self)@.dragged(at as int)
            } else {
                old(self)@
            },
    {
        if !self.has_waveform() {
            return;
        }
        let t: i128 = self.on_axis(at);
        match self.dragging {
            Some(Handle::In) => {
                let most: i128 = if self.sel_out >= MIN_SELECTION {
                    self.sel_out - MIN_SELECTION
                } else {
                    0
                };
                self.sel_in = if t < most {
                    t
                } else {
                    most
                };
            },
            Some(Handle::Out) => {
                if self.sel_in > self.duration - MIN_SELECTION {
                    self.sel_out = self.duration;
                } else {
                    let least: i128 = self.sel_in + MIN_SELECTION;
                    self.sel_out = if t > least {
                        t
                    } else {
                        least
                    };
                }
            },
            None => {},
        }
    }

    /// Let go of the handle.
    pub fn release(&mut self)
        ensures
            final(self)@ == old(self)@.released(),
    {
        self.dragging = None;
    }

    /// Toggle preview playback of the selected range, using the cached 16 kHz
    /// PCM. If something is already playing, it is stopped instead.
    pub fn toggle_play_selection(&self, playing: bool) -> (r: PlayStep)
        ensures
            r == if playing {
                PlayStep::Stop
            } else {
                match self@.pcm16k {
                    None => PlayStep::Nothing,
                    Some(pcm) => {
                        let from = sample_at(self@.sel_in, pcm.len());
                        let to = sample_at(self@.sel_out, pcm.len());
                        if from < to {
                            PlayStep::Play { from: from as usize, to: to as usize }
                        } else {
                            PlayStep::Nothing
                        }
                    },
                }
            },
    {
        if playing {
            return PlayStep::Stop;
        }
        let len: usize = match &self.pcm16k {
            Some(pcm) => pcm.len(),
            None => {
                return PlayStep::Nothing;
            },
        };
        let from: usize = sample_index(self.sel_in, len);
        let to: usize = sample_index(self.sel_out, len);
        if from >= to {
            return PlayStep::Nothing;
        }
        PlayStep::Play { from, to }
    }

    /// Say in the status line that no audio device could be opened.
    pub fn audio_unavailable(&mut self, e: &str)
        ensures
            final(self)@ == old(self)@.saying("Audio output unavailable: "@ + e@),
    {
        self.status = joined("Audio output unavailable: ", e);
    }

    /// Say in the status line that the preview could not be played.
    pub fn playback_failed(&mut self, e: &str)
        ensures
            final(self)@ == old(self)@.saying("Playback failed: "@ + e@),
    {
        self.status = joined("Playback failed: ", e);
    }
}

/// The sample that is heard at time `t`, of `len` samples.
fn sample_index(t: Nanos, len: usize) -> (r: usize)
    ensures
        r == sample_at(t as int, len as nat),
        r <= len,
{
    if t < 0 {
        return 0;
    }
    let i: i128 = t / SAMPLE_16K;
    if i > len as i128 {
        len
    } else {
        i as usize
    }
}

/// A reasonable default output directory: the user's home, else the current one.
pub fn default_output_dir(user_profile: Option<String>, home: Option<String>) -> (r: String)
    ensures
        r@ == match (optional_view(user_profile), optional_view(home)) {
            (Some(d), _) => d,
            (None, Some(d)) => d,
            (None, None) => "."@,
        },
{
    match user_profile {
        Some(d) => d,
        None => match home {
            Some(d) => d,
            None => ".".to_owned(),
        },
    }
}

/// The message that a worker sends shortly after startup.
pub fn ready_message() -> (r: WorkerMsg)
    ensures
        r matches WorkerMsg::Status(s) && s@ == "Ready — open a media file to begin."@,
{
    WorkerMsg::Status("Ready — open a media file to begin.".to_owned())
}

} // verus!
