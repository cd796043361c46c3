//! What holds of the application over several messages and actions.
use crate::app::{held, is_url, sample_at, AppView, JobView, Pending, ReplyView, MIN_SELECTION};
use crate::fixed::{distance_of, fixed_of, Fraction};
use crate::model::{Handle, PhaseView, Word, WordView, WorkerMsg};
use crate::text::decimal_of;
use crate::transcribe::{word_views, SAMPLE_16K};
use vstd::prelude::*;

verus! {

/// Whether a message reports that a job failed.
pub open spec fn is_failure(msg: WorkerMsg) -> bool {
    msg is DownloadFailed || msg is DecodeFailed || msg is ModelFailed || msg is TranscribeFailed
        || msg is ExportFailed
}

/// Whether a message reports how far a job is.
pub open spec fn is_progress(msg: WorkerMsg) -> bool {
    msg is DownloadProgress || msg is ModelProgress || msg is TranscribeProgress
}

/// Whether a message comes from the job of the phase, or from no job.
pub open spec fn expected(phase: PhaseView, msg: WorkerMsg) -> bool {
    match msg {
        WorkerMsg::Status(_) => true,
        WorkerMsg::DownloadProgress { .. } => phase is Downloading,
        WorkerMsg::DownloadDone(_) => phase is Downloading,
        WorkerMsg::DownloadFailed(_) => phase is Downloading,
        WorkerMsg::ModelProgress { .. } => phase is Downloading,
        WorkerMsg::ModelReady => phase is Downloading,
        WorkerMsg::ModelFailed(_) => phase is Downloading,
        WorkerMsg::DecodeDone { .. } => phase is Decoding,
        WorkerMsg::DecodeFailed(_) => phase is Decoding,
        WorkerMsg::TranscribeProgress(_) => phase is Transcribing,
        WorkerMsg::TranscribeDone(_) => phase is Transcribing,
        WorkerMsg::TranscribeFailed(_) => phase is Transcribing,
        WorkerMsg::ExportDone(_) => phase is Exporting,
        WorkerMsg::ExportFailed(_) => phase is Exporting,
    }
}

/// Whether exactly the jobs that can be given up on, downloads and
/// transcriptions, have an abort flag.
pub open spec fn armed(app: AppView) -> bool {
    app.cancel == (app.phase is Downloading || app.phase is Transcribing)
}

/// The user can give up on a download or a transcription at any time, and no
/// abort flag outlives its job: as long as messages come from the job in flight,
/// exactly those jobs have a flag.
pub proof fn law_flag_follows_job(app: AppView, msg: WorkerMsg, path: Seq<char>, on_disk: bool)
    requires
        armed(app),
        expected(app.phase, msg),
    ensures
        armed(app.after_message(msg, path, on_disk).0),
{
}

/// What the user starts keeps to that as well: a download starts with a flag, and
/// decoding and exporting start without one where nothing was in flight. Nothing
/// else that the user does touches the flag or the job.
pub proof fn law_actions_keep_flag(app: AppView, text: Seq<char>, at: int, i: int)
    requires
        armed(app),
        app.phase is Idle,
    ensures
        armed(app.downloading()),
        armed(app.decoding(text)),
        armed(app.exporting()),
        armed(app.saying(text)),
        armed(app.grabbed(at)),
        armed(app.dragged(at)),
        armed(app.released()),
        armed(app.clicked(i)),
{
}

/// A job that follows a message is the one that the application then waits for.
pub proof fn law_job_follows_phase(app: AppView, msg: WorkerMsg, path: Seq<char>, on_disk: bool)
    ensures
        match app.after_message(msg, path, on_disk).1 {
            JobView::Nothing => true,
            JobView::Decode(_) => app.after_message(msg, path, on_disk).0.phase is Decoding,
            JobView::FetchModel(_) => app.after_message(msg, path, on_disk).0.phase is Downloading,
            JobView::Transcribe(_) => on_disk && app.after_message(
                msg,
                path,
                on_disk,
            ).0.phase is Transcribing,
        },
{
}

/// Every pending message is applied, in the order in which they came: to drain a
/// queue is to drain its first part and then the rest.
pub proof fn law_messages_are_applied_in_order(app: AppView, a: Seq<Pending>, b: Seq<Pending>)
    ensures
        app.after_messages(a + b).0 == app.after_messages(a).0.after_messages(b).0,
        app.after_messages(a + b).1 == app.after_messages(a).1 + app.after_messages(
            a,
        ).0.after_messages(b).1,
        app.after_messages(a).1.len() == a.len(),
    decreases a.len() + b.len(),
{
    if b.len() == 0 {
        assert(a + b == a);
        if a.len() > 0 {
            law_messages_are_applied_in_order(app, a.drop_last(), b);
        }
    } else {
        law_messages_are_applied_in_order(app, a, b.drop_last());
        assert((a + b).drop_last() == a + b.drop_last());
    }
}

/// A failed job frees the application and loses nothing: nothing is in flight
/// afterwards, no job follows, and the file, the audio, the transcript and the
/// selection are as they were.
pub proof fn law_failure_loses_nothing(
    app: AppView,
    msg: WorkerMsg,
    path: Seq<char>,
    on_disk: bool,
)
    requires
        is_failure(msg),
    ensures
        app.after_message(msg, path, on_disk).1 is Nothing,
        app.after_message(msg, path, on_disk).0.phase is Idle,
        app.after_message(msg, path, on_disk).0 == (AppView {
            phase: PhaseView::Idle,
            status: app.after_message(msg, path, on_disk).0.status,
            cancel: app.after_message(msg, path, on_disk).0.cancel,
            ..app
        }),
{
}

/// Progress is shown and changes nothing else.
pub proof fn law_progress_changes_nothing_else(
    app: AppView,
    msg: WorkerMsg,
    path: Seq<char>,
    on_disk: bool,
)
    requires
        is_progress(msg),
    ensures
        app.after_message(msg, path, on_disk).1 is Nothing,
        !(app.after_message(msg, path, on_disk).0.phase is Idle),
        app.after_message(msg, path, on_disk).0 == (AppView {
            phase: app.after_message(msg, path, on_disk).0.phase,
            status: app.after_message(msg, path, on_disk).0.status,
            ..app
        }),
{
}

/// A message never touches what the user entered: the source, the output
/// directory, the format and the model.
pub proof fn law_messages_keep_inputs(app: AppView, msg: WorkerMsg, path: Seq<char>, on_disk: bool)
    ensures
        ({
            let next = app.after_message(msg, path, on_disk).0;
            &&& next.source_input == app.source_input
            &&& next.out_dir == app.out_dir
            &&& next.output_format == app.output_format
            &&& next.model_kind == app.model_kind
            &&& next.dragging == app.dragging
        }),
{
}

/// Loading a local file ends with its transcript: the file is decoded, its audio
/// is transcribed at once where the model is there, and at the end nothing is in
/// flight, the whole of the audio is selected, and the transcript is shown.
pub proof fn law_file_becomes_transcript(
    app: AppView,
    file: Seq<char>,
    decoded: WorkerMsg,
    transcribed: WorkerMsg,
    path: Seq<char>,
)
    requires
        decoded is DecodeDone,
        transcribed is TranscribeDone,
    ensures
        ({
            let (listening, job) = app.decoding(file).after_message(decoded, path, true);
            let (ready, _) = listening.after_message(transcribed, path, true);
            &&& job == JobView::Transcribe(app.model_kind)
            &&& listening.phase is Transcribing
            &&& ready.phase is Idle
            &&& !ready.cancel
            &&& ready.file == Some(file)
            &&& ready.sel_in == 0
            &&& ready.sel_out == ready.duration == decoded->DecodeDone_duration
            &&& ready.samples == decoded->DecodeDone_samples@
            &&& ready.words == word_views(transcribed->TranscribeDone_0@)
        }),
{
}

/// Loading an address goes through the same: what was downloaded is decoded as a
/// file that was there, and its download leaves no abort flag behind.
pub proof fn law_download_becomes_file(
    app: AppView,
    file: String,
    path: Seq<char>,
    on_disk: bool,
)
    ensures
        ({
            let done = WorkerMsg::DownloadDone(file);
            let (next, job) = app.downloading().after_message(done, path, on_disk);
            &&& app.downloading().cancel
            &&& job == JobView::Decode(file@)
            &&& next == app.without_flag().decoding(file@)
        }),
{
}

/// Where the model has to be brought first, it is, and the same audio is
/// transcribed once it is there.
pub proof fn law_missing_model_is_fetched(
    app: AppView,
    decoded: WorkerMsg,
    path: Seq<char>,
)
    requires
        decoded is DecodeDone,
    ensures
        ({
            let (fetching, job) = app.after_message(decoded, path, false);
            let (listening, next) = fetching.after_message(WorkerMsg::ModelReady, path, true);
            &&& job == JobView::FetchModel(app.model_kind)
            &&& fetching.phase is Downloading
            &&& next == JobView::Transcribe(app.model_kind)
            &&& listening.phase is Transcribing
            &&& listening.pcm16k == Some(decoded->DecodeDone_pcm16k@)
        }),
{
}

/// Whether the selection lies in the audio.
pub open spec fn selection_in_audio(app: AppView) -> bool {
    0 <= app.sel_in <= app.sel_out <= app.duration
}

/// Dragging moves one handle and leaves the other where it is.
pub proof fn law_drag_moves_one_handle(app: AppView, at: int)
    ensures
        app.dragging == Some(Handle::In) ==> app.dragged(at) == (AppView {
            sel_in: app.dragged(at).sel_in,
            ..app
        }),
        app.dragging == Some(Handle::Out) ==> app.dragged(at) == (AppView {
            sel_out: app.dragged(at).sel_out,
            ..app
        }),
        app.dragging is None ==> app.dragged(at) == app,
{
}

/// The handles never cross and never leave the audio, however they are dragged,
/// and a selection of at least `MIN_SELECTION` stays that long.
pub proof fn law_handles_never_cross(app: AppView, at: int)
    requires
        app.has_waveform(),
        selection_in_audio(app),
    ensures
        selection_in_audio(app.dragged(at)),
        app.sel_out - app.sel_in >= MIN_SELECTION ==> app.dragged(at).sel_out - app.dragged(
            at,
        ).sel_in >= MIN_SELECTION,
{
}

/// A handle follows the pointer as far as it may: within the audio, and as long
/// as `MIN_SELECTION` stays selected.
pub proof fn law_handle_follows_pointer(app: AppView, at: int)
    requires
        0 <= at <= app.duration,
    ensures
        app.dragging == Some(Handle::In) && at + MIN_SELECTION <= app.sel_out ==> app.dragged(
            at,
        ).sel_in == at,
        app.dragging == Some(Handle::Out) && app.sel_in + MIN_SELECTION <= at ==> app.dragged(
            at,
        ).sel_out == at,
{
}

/// Taking hold of the waveform takes the nearer handle, and moves nothing.
pub proof fn law_grab_takes_nearer_handle(app: AppView, at: int)
    requires
        selection_in_audio(app),
    ensures
        app.grabbed(at) == (AppView { dragging: app.grabbed(at).dragging, ..app }),
        distance_of(at, app.sel_in) < distance_of(at, app.sel_out) ==> app.grabbed(at).dragging
            == Some(Handle::In),
        distance_of(at, app.sel_in) > distance_of(at, app.sel_out) ==> app.grabbed(at).dragging
            == Some(Handle::Out),
{
}

/// Decoded audio is selected as a whole, within itself.
pub proof fn law_decoded_audio_is_selected(
    app: AppView,
    decoded: WorkerMsg,
    path: Seq<char>,
    on_disk: bool,
)
    requires
        decoded is DecodeDone,
        decoded->DecodeDone_duration >= 0,
    ensures
        selection_in_audio(app.after_message(decoded, path, on_disk).0),
        app.after_message(decoded, path, on_disk).0.sel_in == 0,
        app.after_message(decoded, path, on_disk).0.sel_out == app.after_message(
            decoded,
            path,
            on_disk,
        ).0.duration,
{
}

/// A click on a word selects that word, and any other only if it lies within the
/// span of the clicked one.
pub proof fn law_click_selects_word(app: AppView, i: int, k: int)
    requires
        0 <= i < app.words.len(),
        0 <= k < app.words.len(),
    ensures
        app.clicked(i).selects(i),
        app.clicked(i).selects(k) <==> app.words[i].start <= app.words[k].start
            && app.words[k].end <= app.words[i].end,
{
}

/// What is played is the selection: a sample is heard exactly if it ends behind
/// the start of the selection and no later than its end.
pub proof fn law_playback_is_selection(sel_in: int, sel_out: int, len: nat, k: int)
    requires
        0 <= k < len,
    ensures
        sel_in <= sel_out ==> sample_at(sel_in, len) <= sample_at(sel_out, len) <= len,
        sample_at(sel_in, len) <= k < sample_at(sel_out, len) <==> {
            &&& sel_in < (k + 1) * SAMPLE_16K
            &&& (k + 1) * SAMPLE_16K <= sel_out
        },
{
}

/// Another status line changes nothing else.
pub proof fn law_status_line(app: AppView, text: Seq<char>, path: Seq<char>, on_disk: bool)
    ensures
        app.saying(text) == (AppView { status: text, ..app }),
        forall|s: String| #[trigger]
            app.after_message(WorkerMsg::Status(s), path, on_disk) == (
                AppView { status: s@, ..app },
                JobView::Nothing,
            ),
{
}

/// A finished job frees the application: from whatever state, when a transcription or
/// an export is done, or any job failed, nothing is in flight and no job follows. No
/// abort flag outlives a transcription, nor a download or a transcription that failed.
pub proof fn law_finished_job_frees(app: AppView, msg: WorkerMsg, path: Seq<char>, on_disk: bool)
    requires
        msg is ExportDone || msg is TranscribeDone || is_failure(msg),
    ensures
        app.after_message(msg, path, on_disk).0.phase is Idle,
        app.after_message(msg, path, on_disk).1 is Nothing,
        msg is TranscribeDone || msg is TranscribeFailed || msg is DownloadFailed
            || msg is ModelFailed ==> !app.after_message(msg, path, on_disk).0.cancel,
        msg is ExportDone || msg is ExportFailed || msg is DecodeFailed ==> app.after_message(
            msg,
            path,
            on_disk,
        ).0.cancel == app.cancel,
{
}

/// What went wrong is told in the words of the job.
pub proof fn law_failure_is_told(app: AppView, e: String, path: Seq<char>, on_disk: bool)
    ensures
        app.after_message(WorkerMsg::DownloadFailed(e), path, on_disk).0.status == e@,
        app.after_message(WorkerMsg::DecodeFailed(e), path, on_disk).0.status == e@,
        app.after_message(WorkerMsg::ModelFailed(e), path, on_disk).0.status == e@,
        app.after_message(WorkerMsg::TranscribeFailed(e), path, on_disk).0.status == e@,
        app.after_message(WorkerMsg::ExportFailed(e), path, on_disk).0.status == e@,
{
}

/// A whole export leaves the application as it was, ready for the next one, but for
/// its status line, which names the clip or says why there is none.
pub proof fn law_export_leaves_no_trace(
    app: AppView,
    file: String,
    e: String,
    path: Seq<char>,
    on_disk: bool,
)
    ensures
        app.exporting() == (AppView {
            phase: PhaseView::Exporting,
            status: "Exporting…"@,
            ..app
        }),
        app.exporting().after_message(WorkerMsg::ExportDone(file), path, on_disk) == (
            AppView { phase: PhaseView::Idle, status: "Exported "@ + file@, ..app },
            JobView::Nothing,
        ),
        app.exporting().after_message(WorkerMsg::ExportFailed(e), path, on_disk) == (
            AppView { phase: PhaseView::Idle, status: e@, ..app },
            JobView::Nothing,
        ),
{
}

/// A download starts from nothing, with an abort flag; one that failed leaves the
/// application as it was, but for its status line.
pub proof fn law_failed_download_leaves_no_trace(
    app: AppView,
    e: String,
    path: Seq<char>,
    on_disk: bool,
)
    requires
        app.phase is Idle,
        !app.cancel,
    ensures
        app.downloading().cancel,
        app.downloading().status == "Downloading…"@,
        app.downloading().phase matches PhaseView::Downloading { pct, label } && pct.billionths == 0
            && label == "starting…"@,
        app.downloading().after_message(WorkerMsg::DownloadFailed(e), path, on_disk) == (
            AppView { status: e@, ..app },
            JobView::Nothing,
        ),
{
}

/// What is decoded is the file from then on, whether it was there or was downloaded;
/// one that cannot be decoded leaves the rest as it was.
pub proof fn law_decoded_file_is_loaded(
    app: AppView,
    file: String,
    e: String,
    path: Seq<char>,
    on_disk: bool,
)
    ensures
        app.decoding(file@) == (AppView {
            status: "Decoding "@ + file@ + "…"@,
            phase: PhaseView::Decoding,
            file: Some(file@),
            ..app
        }),
        app.after_message(WorkerMsg::DownloadDone(file), path, on_disk) == (
            AppView {
                status: "Decoding "@ + file@ + "…"@,
                phase: PhaseView::Decoding,
                file: Some(file@),
                cancel: false,
                ..app
            },
            JobView::Decode(file@),
        ),
        app.decoding(file@).after_message(WorkerMsg::DecodeFailed(e), path, on_disk).0 == (AppView {
            status: e@,
            phase: PhaseView::Idle,
            file: Some(file@),
            ..app
        }),
{
}

/// Decoded audio takes the place of what was there: its waveform, its length, all of
/// it as the selection, and its PCM. The file, the transcript and what the user
/// entered stay. It is transcribed with the selected model at once if that is on disk,
/// and once it is brought if not.
pub proof fn law_decoded_audio_is_kept(
    app: AppView,
    samples: Vec<u32>,
    duration: i128,
    pcm: std::sync::Arc<Vec<u32>>,
    path: Seq<char>,
    on_disk: bool,
)
    ensures
        ({
            let msg = WorkerMsg::DecodeDone { samples, duration, pcm16k: pcm };
            let (next, job) = app.after_message(msg, path, on_disk);
            &&& next == (AppView {
                samples: samples@,
                duration: duration as int,
                sel_in: 0,
                sel_out: duration as int,
                pcm16k: Some(pcm@),
                cancel: true,
                phase: next.phase,
                status: next.status,
                ..app
            })
            &&& if on_disk {
                &&& job == JobView::Transcribe(app.model_kind)
                &&& next.phase matches PhaseView::Transcribing { progress }
                    && progress.billionths == 0
                &&& next.status == "Decoded "@ + fixed_of(duration as int, 1) + "s."@
            } else {
                &&& job == JobView::FetchModel(app.model_kind)
                &&& next.phase matches PhaseView::Downloading { pct, label } && pct.billionths == 0
                    && label == "model"@
                &&& next.status == "Downloading "@ + app.model_kind.label_of() + " model…"@
            }
        }),
{
}

/// A model that is ready is used at once, on the PCM that is there. Where there is
/// none, or the model is gone after all, nothing is in flight, and the missing file is
/// named.
pub proof fn law_ready_model_transcribes(app: AppView, path: Seq<char>, on_disk: bool)
    ensures
        ({
            let (next, job) = app.after_message(WorkerMsg::ModelReady, path, on_disk);
            if app.pcm16k is Some && on_disk {
                &&& job == JobView::Transcribe(app.model_kind)
                &&& next.cancel
                &&& next.phase matches PhaseView::Transcribing { progress }
                    && progress.billionths == 0
                &&& next == (AppView { phase: next.phase, cancel: true, ..app })
            } else {
                &&& job is Nothing
                &&& next == (AppView {
                    phase: PhaseView::Idle,
                    cancel: false,
                    status: if app.pcm16k is Some {
                        "Model not found at "@ + path + "."@
                    } else {
                        app.status
                    },
                    ..app
                })
            }
        }),
        app.pcm16k is None ==> app.model_then_transcription(path, on_disk) == (
            AppView { phase: PhaseView::Idle, ..app },
            JobView::Nothing,
        ),
        app.transcription(path, on_disk).1 is Transcribe <==> app.pcm16k is Some && on_disk,
        app.model_then_transcription(path, on_disk).1 is FetchModel <==> app.pcm16k is Some
            && !on_disk,
{
}

/// A transcription that is done replaces the transcript and nothing else, and says how
/// many words there are.
pub proof fn law_transcript_is_replaced(
    app: AppView,
    words: Vec<Word>,
    path: Seq<char>,
    on_disk: bool,
)
    ensures
        app.after_message(WorkerMsg::TranscribeDone(words), path, on_disk) == (
            AppView {
                words: Seq::new(
                    words@.len(),
                    |i: int|
                        WordView {
                            start: words[i].start as int,
                            end: words[i].end as int,
                            text: words[i].text@,
                        },
                ),
                status: "Transcription complete — "@ + decimal_of(words@.len()) + " words."@,
                phase: PhaseView::Idle,
                cancel: false,
                ..app
            },
            JobView::Nothing,
        ),
{
    let next = app.after_message(WorkerMsg::TranscribeDone(words), path, on_disk).0;
    assert(next.words == Seq::new(
        words@.len(),
        |i: int|
            WordView {
                start: words[i].start as int,
                end: words[i].end as int,
                text: words[i].text@,
            },
    ));
}

/// What is shown of a job is how far it said it is.
pub proof fn law_progress_is_shown(
    app: AppView,
    pct: Fraction,
    eta: String,
    path: Seq<char>,
    on_disk: bool,
)
    ensures
        ({
            let msg = WorkerMsg::DownloadProgress { pct, eta };
            let next = app.after_message(msg, path, on_disk).0;
            &&& next.status == app.status
            &&& next.phase matches PhaseView::Downloading { pct: shown, label } && shown == pct
                && label == if eta@.len() == 0 {
                fixed_of(pct.billionths * 100, 0) + "%"@
            } else {
                fixed_of(pct.billionths * 100, 0) + "% (ETA "@ + eta@ + ")"@
            }
        }),
        ({
            let next = app.after_message(WorkerMsg::ModelProgress { pct }, path, on_disk).0;
            &&& next.status == "Downloading model… "@ + fixed_of(pct.billionths * 100, 0) + "%"@
            &&& next.phase matches PhaseView::Downloading { pct: shown, label } && shown == pct
                && label == "model"@
        }),
        ({
            let next = app.after_message(WorkerMsg::TranscribeProgress(pct), path, on_disk).0;
            &&& next.status == app.status
            &&& next.phase matches PhaseView::Transcribing { progress } && progress == pct
        }),
{
}

/// A queue of one message does what the message does; a preview stops exactly when
/// other audio comes.
pub proof fn law_single_message(app: AppView, p: Pending)
    ensures
        app.after_messages(seq![]) == (app, Seq::<ReplyView>::empty()),
        app.after_messages(seq![p]).0 == app.after_message(
            p.msg,
            p.model.path@,
            p.model.on_disk,
        ).0,
        app.after_messages(seq![p]).1.len() == 1,
        app.after_messages(seq![p]).1[0].job == app.after_message(
            p.msg,
            p.model.path@,
            p.model.on_disk,
        ).1,
        app.after_messages(seq![p]).1[0].stop_playback == (p.msg is DecodeDone),
{
    assert(seq![p].drop_last() == Seq::<Pending>::empty());
    reveal_with_fuel(AppView::after_messages, 2);
}

/// A click on a word sets the selection to its span, and changes nothing else; a word
/// is marked exactly if its span lies within the selection.
pub proof fn law_selection_snaps_to_word(app: AppView, i: int)
    ensures
        app.clicked(i) == (AppView {
            sel_in: app.words[i].start,
            sel_out: app.words[i].end,
            ..app
        }),
        app.selects(i) <==> app.sel_in <= app.words[i].start && app.words[i].end <= app.sel_out,
{
}

/// Where the pointer is too far, a handle stops: the left one at the start of the
/// audio and 50 milliseconds before the right one, the right one at the end of the
/// audio and 50 milliseconds behind the left one. Where it is not, the handle is where
/// the pointer is.
pub proof fn law_handle_stops(app: AppView, at: int)
    requires
        app.has_waveform(),
        0 <= app.sel_in,
        app.sel_in + 50_000_000 <= app.sel_out <= app.duration,
    ensures
        app.dragging == Some(Handle::In) ==> app.dragged(at).sel_in == if at < 0 {
            0
        } else if at > app.sel_out - 50_000_000 {
            app.sel_out - 50_000_000
        } else {
            at
        },
        app.dragging == Some(Handle::Out) ==> app.dragged(at).sel_out == if at > app.duration {
            app.duration
        } else if at < app.sel_in + 50_000_000 {
            app.sel_in + 50_000_000
        } else {
            at
        },
{
}

/// Handles can be dragged exactly where a waveform is drawn; the left one is taken
/// where both are equally near, and one that is let go is not dragged on.
pub proof fn law_handles_are_held(app: AppView, at: int)
    ensures
        app.has_waveform() <==> app.samples.len() > 0 && app.duration > 0,
        app.grabbed(at).dragging is Some,
        app.sel_in == app.sel_out ==> app.grabbed(at).dragging == Some(Handle::In),
        app.released() == (AppView { dragging: None, ..app }),
        app.released().dragged(at) == app.released(),
{
}

/// The sample that is heard at a time is the last one that starts no later, at 16000
/// samples to the second; none is before the first or behind the last.
pub proof fn law_sample_is_heard(t: int, len: nat)
    ensures
        sample_at(t, len) <= len,
        t <= 0 ==> sample_at(t, len) == 0,
        0 <= t < len * 62_500 ==> sample_at(t, len) * 62_500 <= t < (sample_at(t, len) + 1)
            * 62_500,
        t >= len * 62_500 ==> sample_at(t, len) == len,
{
}

/// An address is what starts with `http://` or `https://`; anything else is a path.
pub proof fn law_address_or_path(rest: Seq<char>)
    ensures
        is_url("http://"@ + rest),
        is_url("https://"@ + rest),
        is_url(rest) ==> rest.len() >= 7 && rest[0] == 'h' && rest[1] == 't' && rest[2] == 't'
            && rest[3] == 'p',
        is_url(rest) ==> (rest[4] == ':' && rest[5] == '/' && rest[6] == '/') || (rest.len() >= 8
            && rest[4] == 's' && rest[5] == ':' && rest[6] == '/' && rest[7] == '/'),
{
    reveal_strlit("http://");
    reveal_strlit("https://");
    let (a, b) = ("http://"@, "https://"@);
    assert((a + rest).subrange(0, 7) == a);
    assert((b + rest).subrange(0, 8) == b);
    if a.is_prefix_of(rest) {
        let front = rest.subrange(0, 7);
        assert(front == a);
        assert(front[0] == 'h' && front[1] == 't' && front[2] == 't' && front[3] == 'p' && front[4]
            == ':' && front[5] == '/' && front[6] == '/');
    } else if b.is_prefix_of(rest) {
        let front = rest.subrange(0, 8);
        assert(front == b);
        assert(front[0] == 'h' && front[1] == 't' && front[2] == 't' && front[3] == 'p' && front[4]
            == 's' && front[5] == ':' && front[6] == '/' && front[7] == '/');
    }
}

/// The handle that is taken is the one on the pointer's side of the middle between the
/// two.
pub proof fn law_grab_takes_side(app: AppView, at: int)
    requires
        selection_in_audio(app),
        app.sel_in < app.sel_out,
    ensures
        app.grabbed(at).dragging == Some(Handle::In) <==> 2 * at <= app.sel_in + app.sel_out,
        app.grabbed(at).dragging == Some(Handle::Out) <==> 2 * at > app.sel_in + app.sel_out,
{
}

/// A time is held within the audio, and left alone where it is.
pub proof fn law_time_is_held(t: int, duration: int)
    requires
        0 <= duration,
    ensures
        0 <= held(t, duration) <= duration,
        0 <= t <= duration ==> held(t, duration) == t,
        t < 0 ==> held(t, duration) == 0,
        t > duration ==> held(t, duration) == duration,
{
}

} // verus!
