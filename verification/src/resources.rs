//! Where cached assets stand (whisper models and extracted programs), and how a
//! model is brought there.
use crate::fixed::{share_of, Fraction};
use crate::model::{WhisperModelKind, WorkerMsg};
use crate::number::{parse_u64, whole_number_of};
use crate::paths::{
    keeps_prefix, last_point, law_extension_stays_in_directory, law_join_names_file,
    law_names_are_told_apart,
    lemma_third_name, plain_name, stem_of, Platform,
};
use crate::text::{joined, optional_view};
use vstd::prelude::*;

verus! {

/// The directory that the cache root stands in: the platform's own for local
/// data, else the one for caches, else the one under the user's home, else the
/// current one.
pub open spec fn cache_base_of(
    local_app_data: Option<Seq<char>>,
    xdg_cache_home: Option<Seq<char>>,
    home: Option<Seq<char>>,
) -> Seq<char> {
    match (local_app_data, xdg_cache_home, home) {
        (Some(d), _, _) => d,
        (None, Some(d), _) => d,
        (None, None, Some(h)) => h + "/.cache"@,
        (None, None, None) => "."@,
    }
}

/// The cached models.
pub open spec fn models_dir_of(platform: Platform, root: Seq<char>) -> Seq<char> {
    platform.join_of(root, "models"@)
}

/// The extracted programs.
pub open spec fn bin_dir_of(platform: Platform, root: Seq<char>) -> Seq<char> {
    platform.join_of(root, "bin"@)
}

/// The file of a model.
pub open spec fn model_path_of(
    platform: Platform,
    root: Seq<char>,
    kind: WhisperModelKind,
) -> Seq<char> {
    platform.join_of(models_dir_of(platform, root), kind.filename_of())
}

/// The file name of the ffmpeg program.
pub open spec fn ffmpeg_exe_of(platform: Platform) -> Seq<char> {
    match platform {
        Platform::Unix => "ffmpeg"@,
        Platform::Windows => "ffmpeg.exe"@,
    }
}

/// The file name of the yt-dlp program.
pub open spec fn ytdlp_exe_of(platform: Platform) -> Seq<char> {
    match platform {
        Platform::Unix => "yt-dlp"@,
        Platform::Windows => "yt-dlp.exe"@,
    }
}

/// Per-user cache root, for instance `%LOCALAPPDATA%\clip-extractor`, given the
/// environment variables that say where caches go.
pub fn cache_root(
    platform: Platform,
    local_app_data: Option<String>,
    xdg_cache_home: Option<String>,
    home: Option<String>,
) -> (r: String)
    ensures
        r@ == platform.join_of(
            cache_base_of(
                optional_view(local_app_data),
                optional_view(xdg_cache_home),
                optional_view(home),
            ),
            "clip-extractor"@,
        ),
{
    let base: String = match local_app_data {
        Some(d) => d,
        None => match xdg_cache_home {
            Some(d) => d,
            None => match home {
                Some(h) => joined(h.as_str(), "/.cache"),
                None => ".".to_owned(),
            },
        },
    };
    platform.join(base.as_str(), "clip-extractor")
}

/// Directory whisper models are cached in, under the cache root.
pub fn models_dir(platform: Platform, root: &str) -> (r: String)
    ensures
        r@ == models_dir_of(platform, root@),
{
    platform.join(root, "models")
}

/// Directory extracted sidecar programs live in, under the cache root.
pub fn bin_dir(platform: Platform, root: &str) -> (r: String)
    ensures
        r@ == bin_dir_of(platform, root@),
{
    platform.join(root, "bin")
}

/// Expected on-disk path of a given model.
pub fn model_path(platform: Platform, root: &str, kind: WhisperModelKind) -> (r: String)
    ensures
        r@ == model_path_of(platform, root@, kind),
{
    platform.join(models_dir(platform, root).as_str(), kind.filename())
}

/// The file name of the ffmpeg program.
pub fn ffmpeg_exe(platform: Platform) -> (r: &'static str)
    ensures
        r@ == ffmpeg_exe_of(platform),
{
    match platform {
        Platform::Unix => "ffmpeg",
        Platform::Windows => "ffmpeg.exe",
    }
}

/// The file name of the yt-dlp program.
pub fn ytdlp_exe(platform: Platform) -> (r: &'static str)
    ensures
        r@ == ytdlp_exe_of(platform),
{
    match platform {
        Platform::Unix => "yt-dlp",
        Platform::Windows => "yt-dlp.exe",
    }
}

/// The path of the ffmpeg program: the extracted copy if there is one.
pub open spec fn ffmpeg_path_of(platform: Platform, root: Seq<char>, extracted: bool) -> Seq<char> {
    if extracted {
        platform.join_of(bin_dir_of(platform, root), ffmpeg_exe_of(platform))
    } else {
        "ffmpeg"@
    }
}

/// Path to the ffmpeg program: the extracted copy if there is one, else whatever
/// `PATH` gives.
pub fn ffmpeg_path(platform: Platform, root: &str, extracted: bool) -> (r: String)
    ensures
        r@ == ffmpeg_path_of(platform, root@, extracted),
{
    if extracted {
        platform.join(bin_dir(platform, root).as_str(), ffmpeg_exe(platform))
    } else {
        "ffmpeg".to_owned()
    }
}

/// Path to the yt-dlp program: the extracted copy if there is one, else a copy
/// that is cached in the same place, else whatever `PATH` gives.
pub fn ytdlp_path(platform: Platform, root: &str, extracted: bool, cached: bool) -> (r: String)
    ensures
        r@ == if extracted || cached {
            platform.join_of(bin_dir_of(platform, root@), ytdlp_exe_of(platform))
        } else {
            "yt-dlp"@
        },
{
    if extracted || cached {
        platform.join(bin_dir(platform, root).as_str(), ytdlp_exe(platform))
    } else {
        "yt-dlp".to_owned()
    }
}

/// Whether an embedded asset of `len` bytes has to be written out, given the
/// size of the file on disk, if there is one.
pub fn is_stale(on_disk: Option<u64>, len: u64) -> (r: bool)
    ensures
        r == (on_disk != Some(len)),
{
    match on_disk {
        Some(n) => n != len,
        None => true,
    }
}

/// How a model is brought to disk.
#[derive(Clone, Copy, PartialEq, Eq, Structural, Debug)]
pub enum ModelPlan {
    /// It is there.
    Ready,
    /// Write out the embedded copy.
    Extract,
    /// Download it.
    Download,
}

/// A model that is on disk is ready; one that ships embedded is extracted, in a
/// binary that holds assets; any other is downloaded.
pub fn plan_model(kind: WhisperModelKind, on_disk: bool, assets_embedded: bool) -> (r: ModelPlan)
    ensures
        r == if on_disk {
            ModelPlan::Ready
        } else if assets_embedded && kind is Base {
            ModelPlan::Extract
        } else {
            ModelPlan::Download
        },
{
    if on_disk {
        ModelPlan::Ready
    } else if assets_embedded && kind.is_embedded() {
        ModelPlan::Extract
    } else {
        ModelPlan::Download
    }
}

/// The message that reports how extracting a model ended.
pub fn extract_message(result: Result<(), String>) -> (r: WorkerMsg)
    ensures
        match result {
            Ok(_) => r is ModelReady,
            Err(e) => r matches WorkerMsg::ModelFailed(m) && m@ == "Could not extract model: "@ + e@,
        },
{
    match result {
        Ok(_) => WorkerMsg::ModelReady,
        Err(e) => WorkerMsg::ModelFailed(joined("Could not extract model: ", e.as_str())),
    }
}

/// The message that reports how downloading a model ended; `Ok(false)` says that
/// it was cancelled.
pub fn model_message(result: Result<bool, String>) -> (r: WorkerMsg)
    ensures
        match result {
            Ok(done) => if done {
                r is ModelReady
            } else {
                r matches WorkerMsg::ModelFailed(m) && m@ == "Model download cancelled."@
            },
            Err(e) => r matches WorkerMsg::ModelFailed(m) && m@ == "Model download failed: "@ + e@,
        },
{
    match result {
        Ok(done) => if done {
            WorkerMsg::ModelReady
        } else {
            WorkerMsg::ModelFailed("Model download cancelled.".to_owned())
        },
        Err(e) => WorkerMsg::ModelFailed(joined("Model download failed: ", e.as_str())),
    }
}

/// The file that a download is written to before it is complete.
pub fn partial_path(platform: Platform, dest: &str) -> (r: String)
    ensures
        r@ == platform.with_extension_of(dest@, "partial"@),
{
    platform.with_extension(dest, "partial")
}

/// How many percent `downloaded` is of `total`, rounded down, and at most a
/// hundred.
pub open spec fn percent_of(downloaded: nat, total: nat) -> nat {
    if downloaded * 100 / total < 100 {
        downloaded * 100 / total
    } else {
        100
    }
}

/// A file transfer in progress.
#[derive(Debug)]
pub struct Transfer {
    /// The size of the file; zero if the server did not tell it.
    pub total: u64,
    /// How much of it has come.
    pub downloaded: u64,
    /// The percentage that was last reported.
    pub reported: Option<u32>,
}

/// What happened to a transfer.
#[derive(Clone, Copy, Debug)]
pub enum TransferEvent {
    /// The user gave up on it.
    Cancelled,
    /// So many bytes came; none at the end of the file.
    Read(usize),
}

/// What to do about it.
#[derive(Clone, Copy, PartialEq, Eq, Structural, Debug)]
pub enum TransferStep {
    /// Remove what was written.
    Discard,
    /// Give the complete file its name.
    Commit,
    /// Write the bytes, and report progress if it is told.
    Write(Option<Fraction>),
}

impl Transfer {
    /// The percentage that was last reported is that of what has come; none was
    /// reported exactly where nothing came or the size is not known.
    pub open spec fn wf(self) -> bool {
        match self.reported {
            Some(p) => self.total > 0 && self.downloaded > 0 && p == percent_of(
                self.downloaded as nat,
                self.total as nat,
            ),
            None => self.total == 0 || self.downloaded == 0,
        }
    }

    /// A transfer that starts, given the content length that the server tells.
    pub fn new(content_length: Option<&str>) -> (r: Transfer)
        ensures
            r.wf(),
            r.downloaded == 0,
            r.reported is None,
            r.total == match content_length {
                Some(s) => match whole_number_of(s@, u64::MAX as nat) {
                    Some(n) => n,
                    None => 0,
                },
                None => 0,
            },
    {
        let total: u64 = match content_length {
            Some(s) => match parse_u64(s) {
                Some(n) => n,
                None => 0,
            },
            None => 0,
        };
        Transfer { total, downloaded: 0, reported: None }
    }

    /// A cancelled transfer is discarded, and a complete one committed. What
    /// comes is written, and progress is reported when the percentage is another
    /// than before.
    pub fn step(&mut self, event: TransferEvent) -> (r: TransferStep)
        requires
            old(self).wf(),
            event matches TransferEvent::Read(n) ==> old(self).downloaded + n <= u64::MAX,
        ensures
            final(self).wf(),
            final(self).total == old(self).total,
            match event {
                TransferEvent::Cancelled => r is Discard && *final(self) == *old(self),
                TransferEvent::Read(n) => if n == 0 {
                    r is Commit && *final(self) == *old(self)
                } else {
                    let percent = percent_of(
                        final(self).downloaded as nat,
                        final(self).total as nat,
                    );
                    &&& final(self).downloaded == old(self).downloaded + n
                    &&& match r {
                        TransferStep::Write(Some(f)) => {
                            &&& final(self).total > 0
                            &&& old(self).reported != Some(percent as u32)
                            &&& final(self).reported == Some(percent as u32)
                            &&& f.wf()
                            &&& f.billionths == share_of(
                                final(self).downloaded as nat,
                                final(self).total as nat,
                            )
                        },
                        TransferStep::Write(None) => {
                            &&& final(self).total == 0 || old(self).reported == Some(percent as u32)
                            &&& final(self).reported == old(self).reported
                        },
                        _ => false,
                    }
                },
            },
    {
        let n: usize = match event {
            TransferEvent::Cancelled => {
                return TransferStep::Discard;
            },
            TransferEvent::Read(n) => n,
        };
        if n == 0 {
            return TransferStep::Commit;
        }
        self.downloaded = self.downloaded + n as u64;
        if self.total == 0 {
            return TransferStep::Write(None);
        }
        let scaled: u128 = self.downloaded as u128 * 100u128 / self.total as u128;
        let percent: u32 = if scaled < 100 {
            scaled as u32
        } else {
            100
        };
        let same: bool = match self.reported {
            Some(p) => p == percent,
            None => false,
        };
        if same {
            return TransferStep::Write(None);
        }
        self.reported = Some(percent);
        TransferStep::Write(Some(Fraction::of(self.downloaded, self.total)))
    }
}

/// Progress never falls: more bytes are at least as many percent, at most a
/// hundred, and all of them are a hundred.
pub proof fn law_percent_rises(before: nat, after: nat, total: nat)
    requires
        before <= after,
        total > 0,
    ensures
        percent_of(before, total) <= percent_of(after, total) <= 100,
        after >= total ==> percent_of(after, total) == 100,
{
    assert(before * 100 / total <= after * 100 / total) by (nonlinear_arith)
        requires
            before <= after,
            total > 0,
    ;
    if after >= total {
        assert(after * 100 / total >= 100) by (nonlinear_arith)
            requires
                after >= total,
                total > 0,
        ;
    }
}

/// How much came in `chunks` together.
pub open spec fn sum_of(chunks: Seq<nat>) -> nat
    decreases chunks.len(),
{
    if chunks.len() == 0 {
        0
    } else {
        sum_of(chunks.drop_last()) + chunks.last()
    }
}

/// The percentages that are reported while `chunks` come, one behind the other:
/// that of what has come, where it is another than the one before.
pub open spec fn reports_of(chunks: Seq<nat>, total: nat) -> Seq<nat>
    decreases chunks.len(),
{
    if chunks.len() == 0 {
        seq![]
    } else {
        let earlier = reports_of(chunks.drop_last(), total);
        let percent = percent_of(sum_of(chunks), total);
        if earlier.len() > 0 && earlier.last() == percent {
            earlier
        } else {
            earlier.push(percent)
        }
    }
}

/// Reports rise from one to the next, however the bytes come, so that there are
/// at most a hundred and one of them; and once anything came, the last report is
/// the percentage of all that came.
pub proof fn law_reports_rise(chunks: Seq<nat>, total: nat)
    requires
        total > 0,
    ensures
        forall|a: int, b: int|
            0 <= a < b < reports_of(chunks, total).len() ==> reports_of(chunks, total)[a]
                < reports_of(chunks, total)[b],
        forall|a: int|
            0 <= a < reports_of(chunks, total).len() ==> a <= #[trigger] reports_of(
                chunks,
                total,
            )[a] <= 100,
        reports_of(chunks, total).len() <= 101,
        chunks.len() > 0 ==> reports_of(chunks, total).len() > 0 && reports_of(chunks, total).last()
            == percent_of(sum_of(chunks), total),
    decreases chunks.len(),
{
    if chunks.len() > 0 {
        let rest = chunks.drop_last();
        let earlier = reports_of(rest, total);
        law_reports_rise(rest, total);
        law_percent_rises(sum_of(rest), sum_of(chunks), total);
        if earlier.len() > 0 {
            assert(earlier[earlier.len() - 1] == earlier.last());
        }
        let now = reports_of(chunks, total);
        assert(now[now.len() - 1] == percent_of(sum_of(chunks), total));
    }
}

/// A transfer reports what [`reports_of`] says: after `chunks` came, a step with
/// `n` bytes more reports exactly where the percentages get one more.
pub proof fn law_steps_report(t: Transfer, chunks: Seq<nat>, n: nat)
    requires
        t.wf(),
        t.total > 0,
        t.downloaded == sum_of(chunks),
        forall|k: int| 0 <= k < chunks.len() ==> #[trigger] chunks[k] > 0,
    ensures
        ({
            let percent = percent_of(t.downloaded as nat + n, t.total as nat);
            reports_of(chunks.push(n), t.total as nat) == if t.reported == Some(percent as u32) {
                reports_of(chunks, t.total as nat)
            } else {
                reports_of(chunks, t.total as nat).push(percent)
            }
        }),
{
    let total = t.total as nat;
    assert(chunks.push(n).drop_last() == chunks);
    law_reports_rise(chunks, total);
    law_percent_rises(t.downloaded as nat, t.downloaded as nat + n, total);
    if chunks.len() > 0 {
        assert(chunks[chunks.len() - 1] > 0);
    }
}

/// The name of a model's file is a plain one, and so is that of its partial
/// download, which is another one.
proof fn lemma_model_name(platform: Platform, kind: WhisperModelKind)
    ensures
        plain_name(platform, kind.filename_of()),
        plain_name(platform, stem_of(kind.filename_of()) + "."@ + "partial"@),
        stem_of(kind.filename_of()) + "."@ + "partial"@ != kind.filename_of(),
{
    reveal_strlit("ggml-base.en.bin");
    reveal_strlit("ggml-small.en.bin");
    reveal_strlit("ggml-medium.en.bin");
    reveal_strlit(".");
    reveal_strlit("partial");
    reveal_with_fuel(last_point, 5);
    let name = kind.filename_of();
    let n = name.len() as int;
    assert(name.drop_last().drop_last().drop_last() == name.take(n - 3));
    assert(last_point(name) == Some(n - 4));
    let partial = stem_of(name) + "."@ + "partial"@;
    assert(partial.len() == n + 4);
    assert(name[1] == 'g' && partial[1] == 'g');
}

/// An incomplete model is never taken for a complete one: it is written in the
/// directory of the models under another name than any model's file. A path on
/// Windows that is all prefix has no file name to change.
pub proof fn law_partial_is_no_model(
    platform: Platform,
    root: Seq<char>,
    kind: WhisperModelKind,
    other: WhisperModelKind,
)
    requires
        keeps_prefix(platform, models_dir_of(platform, root), kind.filename_of()),
    ensures
        platform.with_extension_of(model_path_of(platform, root, kind), "partial"@)
            == platform.join_of(
            models_dir_of(platform, root),
            stem_of(kind.filename_of()) + "."@ + "partial"@,
        ),
        platform.with_extension_of(model_path_of(platform, root, kind), "partial"@)
            != model_path_of(platform, root, other),
{
    let dir = models_dir_of(platform, root);
    let name = kind.filename_of();
    let partial = stem_of(name) + "."@ + "partial"@;
    lemma_model_name(platform, kind);
    lemma_model_name(platform, other);
    law_extension_stays_in_directory(platform, dir, name, "partial"@);
    reveal_strlit("ggml-base.en.bin");
    reveal_strlit("ggml-small.en.bin");
    reveal_strlit("ggml-medium.en.bin");
    reveal_strlit(".");
    reveal_strlit("partial");
    assert(partial.last() == 'l');
    assert(other.filename_of().last() == 'n');
    law_names_are_told_apart(platform, dir, partial, other.filename_of());
}

/// The same holds without more of every cache root, wherever it stands: an
/// incomplete model in the cache is never taken for a complete one.
pub proof fn law_cached_partial_is_no_model(
    platform: Platform,
    base: Seq<char>,
    kind: WhisperModelKind,
    other: WhisperModelKind,
)
    ensures
        ({
            let root = platform.join_of(base, "clip-extractor"@);
            let partial = platform.with_extension_of(
                model_path_of(platform, root, kind),
                "partial"@,
            );
            &&& partial == platform.join_of(
                models_dir_of(platform, root),
                stem_of(kind.filename_of()) + "."@ + "partial"@,
            )
            &&& partial != model_path_of(platform, root, other)
        }),
{
    let root = platform.join_of(base, "clip-extractor"@);
    reveal_strlit("clip-extractor");
    reveal_strlit("models");
    assert("clip-extractor"@[1] == 'l');
    assert("models"@.len() == 6 && "models"@[1] == 'o');
    lemma_model_name(platform, kind);
    lemma_third_name(platform, base, "clip-extractor"@, "models"@, kind.filename_of());
    law_partial_is_no_model(platform, root, kind, other);
}

/// So many percent have come, and not one more.
pub proof fn law_percent_is_told(downloaded: nat, total: nat)
    requires
        total > 0,
    ensures
        downloaded < total ==> percent_of(downloaded, total) * total <= downloaded * 100 < (
        percent_of(downloaded, total) + 1) * total,
        downloaded >= total ==> percent_of(downloaded, total) == 100,
{
    let n = downloaded * 100;
    let q = n / total;
    assert(q * total <= n < (q + 1) * total) by (nonlinear_arith)
        requires
            q == n / total,
            total > 0,
    ;
    if downloaded < total {
        assert(q < 100) by (nonlinear_arith)
            requires
                q * total <= n,
                n < 100 * total,
                total > 0,
        ;
    } else {
        law_percent_rises(total, downloaded, total);
    }
}

/// The first place that is told is taken, whatever it is and whatever else is told.
pub proof fn law_first_place_is_taken(
    a: Seq<char>,
    b: Option<Seq<char>>,
    c: Option<Seq<char>>,
)
    ensures
        cache_base_of(Some(a), b, c) == a,
        cache_base_of(None, Some(a), c) == a,
        cache_base_of(None, None, Some(a)) == a + "/.cache"@,
        cache_base_of(None, None, None) == "."@,
{
}

/// The file of a model in the cache has the name of the model.
pub proof fn law_model_has_its_name(platform: Platform, base: Seq<char>, kind: WhisperModelKind)
    ensures
        platform.file_name_of(
            model_path_of(platform, platform.join_of(base, "clip-extractor"@), kind),
        ) == Some(kind.filename_of()),
{
    reveal_strlit("clip-extractor");
    reveal_strlit("models");
    assert("clip-extractor"@[1] == 'l');
    assert("models"@.len() == 6 && "models"@[1] == 'o');
    lemma_model_name(platform, kind);
    lemma_third_name(platform, base, "clip-extractor"@, "models"@, kind.filename_of());
    law_join_names_file(
        platform,
        models_dir_of(platform, platform.join_of(base, "clip-extractor"@)),
        kind.filename_of(),
    );
}

/// Programs are files of their platform, and stand in the directory of the programs
/// only if they were extracted there.
pub proof fn law_programs(platform: Platform, root: Seq<char>)
    ensures
        ffmpeg_path_of(platform, root, false) == "ffmpeg"@,
        ffmpeg_path_of(platform, root, true) == platform.join_of(
            platform.join_of(root, "bin"@),
            ffmpeg_exe_of(platform),
        ),
        platform is Unix ==> ffmpeg_exe_of(platform) == "ffmpeg"@ && ytdlp_exe_of(platform)
            == "yt-dlp"@,
        platform is Windows ==> ffmpeg_exe_of(platform) == "ffmpeg"@ + ".exe"@ && ytdlp_exe_of(
            platform,
        ) == "yt-dlp"@ + ".exe"@,
{
    reveal_strlit("ffmpeg");
    reveal_strlit("yt-dlp");
    reveal_strlit(".exe");
    reveal_strlit("ffmpeg.exe");
    reveal_strlit("yt-dlp.exe");
    assert("ffmpeg.exe"@ == "ffmpeg"@ + ".exe"@);
    assert("yt-dlp.exe"@ == "yt-dlp"@ + ".exe"@);
}

} // verus!
