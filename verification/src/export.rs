//! How ffmpeg is run to cut a clip, and where the clip goes.
use crate::fixed::{fixed_of, fixed_text, law_fixed_characters, Nanos};
use crate::model::{OutputFormat, WorkerMsg};
use crate::paths::{
    keeps_prefix, law_join_names_file, law_stem_is_plain, lemma_last_point, plain_name, stem_of,
    Platform,
};
use crate::text::{joined, last_line, last_line_of, text_views};
use vstd::prelude::*;

verus! {

/// The file name of a clip of `input`: `<name>_<in>-<out>.<ext>`, with times in
/// seconds to one decimal, and `clip` for the name of an input that has none.
pub open spec fn clip_name_of(
    platform: Platform,
    input: Seq<char>,
    sel_in: int,
    sel_out: int,
    format: OutputFormat,
) -> Seq<char> {
    (match platform.file_stem_of(input) {
        Some(stem) => stem,
        None => "clip"@,
    }) + "_"@ + fixed_of(sel_in, 1) + "-"@ + fixed_of(sel_out, 1) + "."@ + format.ext_of()
}

/// The file name of a clip of `input`.
pub fn clip_name(
    platform: Platform,
    input: &str,
    sel_in: Nanos,
    sel_out: Nanos,
    format: OutputFormat,
) -> (r: String)
    ensures
        r@ == clip_name_of(platform, input@, sel_in as int, sel_out as int, format),
{
    let mut name: String = match platform.file_stem(input) {
        Some(stem) => stem,
        None => "clip".to_owned(),
    };
    name.append("_");
    name.append(fixed_text(sel_in, 1).as_str());
    name.append("-");
    name.append(fixed_text(sel_out, 1).as_str());
    name.append(".");
    name.append(format.ext());
    name
}

/// The path of a clip of `input` in `out_dir`.
pub fn clip_path(
    platform: Platform,
    input: &str,
    out_dir: &str,
    sel_in: Nanos,
    sel_out: Nanos,
    format: OutputFormat,
) -> (r: String)
    ensures
        r@ == platform.join_of(
            out_dir@,
            clip_name_of(platform, input@, sel_in as int, sel_out as int, format),
        ),
{
    let name = clip_name(platform, input, sel_in, sel_out, format);
    platform.join(out_dir, name.as_str())
}

/// The arguments with which ffmpeg cuts `input` between the two times, to the
/// millisecond, and writes the clip to `out`. Audio is encoded at a constant
/// quality without the video; video is encoded anew, so that the cut is accurate
/// to the frame, with its index in front.
pub open spec fn export_args_of(
    input: Seq<char>,
    out: Seq<char>,
    sel_in: int,
    sel_out: int,
    format: OutputFormat,
) -> Seq<Seq<char>> {
    seq!["-y"@, "-ss"@, fixed_of(sel_in, 3), "-to"@, fixed_of(sel_out, 3), "-i"@, input] + (
    match format {
        OutputFormat::Mp3 => seq!["-vn"@, "-q:a"@, "2"@],
        OutputFormat::Mp4 => seq![
            "-c:v"@,
            "libx264"@,
            "-c:a"@,
            "aac"@,
            "-movflags"@,
            "+faststart"@,
        ],
    }) + seq![out]
}

/// The arguments with which ffmpeg cuts the clip.
pub fn export_args(
    input: &str,
    out: &str,
    sel_in: Nanos,
    sel_out: Nanos,
    format: OutputFormat,
) -> (r: Vec<String>)
    ensures
        text_views(r@) == export_args_of(input@, out@, sel_in as int, sel_out as int, format),
{
    let mut r: Vec<String> = vec![
        "-y".to_owned(),
        "-ss".to_owned(),
        fixed_text(sel_in, 3),
        "-to".to_owned(),
        fixed_text(sel_out, 3),
        "-i".to_owned(),
        input.to_owned(),
    ];
    match format {
        OutputFormat::Mp3 => {
            r.push("-vn".to_owned());
            r.push("-q:a".to_owned());
            r.push("2".to_owned());
        },
        OutputFormat::Mp4 => {
            r.push("-c:v".to_owned());
            r.push("libx264".to_owned());
            r.push("-c:a".to_owned());
            r.push("aac".to_owned());
            r.push("-movflags".to_owned());
            r.push("+faststart".to_owned());
        },
    }
    r.push(out.to_owned());
    assert(text_views(r@) == export_args_of(input@, out@, sel_in as int, sel_out as int, format));
    r
}

/// How a run of ffmpeg ended.
#[derive(Debug)]
pub enum FfmpegRun {
    /// It could not be run, for this reason.
    NotRun(String),
    /// It ran, and wrote this to its standard error.
    Ended { success: bool, stderr: String },
}

/// How the export to `out` ended: with the path of the clip, or with the last
/// line of what ffmpeg complained of.
pub fn export(out: String, run: FfmpegRun) -> (r: Result<String, String>)
    ensures
        match run {
            FfmpegRun::NotRun(e) => r is Err && r->Err_0@ == "Could not run ffmpeg: "@ + e@
                + " (is it on PATH?)"@,
            FfmpegRun::Ended { success, stderr } => if success {
                r == Ok::<String, String>(out)
            } else {
                r is Err && r->Err_0@ == "ffmpeg failed: "@ + match last_line_of(stderr@) {
                    Some(l) => l,
                    None => "unknown error"@,
                }
            },
        },
{
    match run {
        FfmpegRun::NotRun(e) => {
            let mut s = joined("Could not run ffmpeg: ", e.as_str());
            s.append(" (is it on PATH?)");
            Err(s)
        },
        FfmpegRun::Ended { success, stderr } => {
            if success {
                return Ok(out);
            }
            let last: String = match last_line(stderr.as_str()) {
                Some(l) => l,
                None => "unknown error".to_owned(),
            };
            Err(joined("ffmpeg failed: ", last.as_str()))
        },
    }
}

/// The message that reports how an export ended.
pub fn export_message(result: Result<String, String>) -> (r: WorkerMsg)
    ensures
        r == match result {
            Ok(path) => WorkerMsg::ExportDone(path),
            Err(e) => WorkerMsg::ExportFailed(e),
        },
{
    match result {
        Ok(path) => WorkerMsg::ExportDone(path),
        Err(e) => WorkerMsg::ExportFailed(e),
    }
}

/// The part of the clip name behind the name of the input.
spec fn clip_tail(sel_in: int, sel_out: int, format: OutputFormat) -> Seq<char> {
    "_"@ + fixed_of(sel_in, 1) + "-"@ + fixed_of(sel_out, 1) + "."@ + format.ext_of()
}

proof fn lemma_clip_tail(platform: Platform, sel_in: int, sel_out: int, format: OutputFormat)
    ensures
        clip_tail(sel_in, sel_out, format).len() > 5,
        clip_tail(sel_in, sel_out, format)[0] == '_',
        forall|k: int|
            0 <= k < clip_tail(sel_in, sel_out, format).len() ==> !platform.separates(
                #[trigger] clip_tail(sel_in, sel_out, format)[k],
            ),
{
    reveal_strlit("_");
    reveal_strlit("-");
    reveal_strlit(".");
    reveal_strlit("mp3");
    reveal_strlit("mp4");
    let tail = clip_tail(sel_in, sel_out, format);
    let a = fixed_of(sel_in, 1);
    let b = fixed_of(sel_out, 1);
    assert(tail.len() == a.len() + b.len() + 6);
    assert forall|k: int| 0 <= k < tail.len() implies !platform.separates(#[trigger] tail[k]) by {
        if 1 <= k < 1 + a.len() {
            law_fixed_characters(sel_in, 1, k - 1);
            assert(tail[k] == a[k - 1]);
        } else if 2 + a.len() <= k < 2 + a.len() + b.len() {
            law_fixed_characters(sel_out, 1, k - 2 - a.len());
            assert(tail[k] == b[k - 2 - a.len()]);
        } else if k >= 3 + a.len() + b.len() {
            assert(tail[k] == format.ext_of()[k - 3 - a.len() - b.len()]);
        }
    }
}

/// The name of a clip is the name of an entry of a directory, unless it starts with
/// a drive, or holds a slash from the name of a verbatim input.
pub proof fn law_clip_name_is_plain(
    platform: Platform,
    input: Seq<char>,
    sel_in: int,
    sel_out: int,
    format: OutputFormat,
)
    requires
        platform.verbatim(input) && platform.file_stem_of(input) is Some
            ==> !platform.file_stem_of(input)->0.contains('/'),
    ensures
        plain_name(platform, clip_name_of(platform, input, sel_in, sel_out, format))
            == !platform.has_drive(clip_name_of(platform, input, sel_in, sel_out, format)),
{
    let name = clip_name_of(platform, input, sel_in, sel_out, format);
    let stem = match platform.file_stem_of(input) {
        Some(stem) => stem,
        None => "clip"@,
    };
    let tail = clip_tail(sel_in, sel_out, format);
    reveal_strlit("clip");
    law_stem_is_plain(platform, input);
    lemma_clip_tail(platform, sel_in, sel_out, format);
    assert(name == stem + tail);
    assert forall|k: int| 0 <= k < name.len() implies !platform.separates(#[trigger] name[k]) by {
        if k < stem.len() {
            assert(name[k] == stem[k]);
            assert(platform.file_stem_of(input) is Some ==> !platform.splits(
                platform.verbatim(input),
                stem[k],
            ));
            assert(stem.contains(stem[k]));
        } else {
            assert(name[k] == tail[k - stem.len()]);
        }
    }
}

/// The clip stands in the directory that was asked for, under its name, if that is
/// the name of an entry of a directory and no part of a prefix there.
pub proof fn law_clip_is_in_directory(
    platform: Platform,
    input: Seq<char>,
    out_dir: Seq<char>,
    sel_in: int,
    sel_out: int,
    format: OutputFormat,
)
    requires
        plain_name(platform, clip_name_of(platform, input, sel_in, sel_out, format)),
        keeps_prefix(
            platform,
            out_dir,
            clip_name_of(platform, input, sel_in, sel_out, format),
        ),
    ensures
        platform.file_name_of(
            platform.join_of(
                out_dir,
                clip_name_of(platform, input, sel_in, sel_out, format),
            ),
        ) == Some(clip_name_of(platform, input, sel_in, sel_out, format)),
{
    law_join_names_file(
        platform,
        out_dir,
        clip_name_of(platform, input, sel_in, sel_out, format),
    );
}

/// On Unix the clip stands in the directory that was asked for, whatever that
/// directory and the input are.
pub proof fn law_clip_is_in_unix_directory(
    input: Seq<char>,
    out_dir: Seq<char>,
    sel_in: int,
    sel_out: int,
    format: OutputFormat,
)
    ensures
        Platform::Unix.file_name_of(
            Platform::Unix.join_of(
                out_dir,
                clip_name_of(Platform::Unix, input, sel_in, sel_out, format),
            ),
        ) == Some(clip_name_of(Platform::Unix, input, sel_in, sel_out, format)),
{
    law_clip_name_is_plain(Platform::Unix, input, sel_in, sel_out, format);
    law_clip_is_in_directory(Platform::Unix, input, out_dir, sel_in, sel_out, format);
}

/// An export never overwrites the file that it is cut from: the clip has another
/// file name than the input, whatever is selected and wherever it goes.
pub proof fn law_export_spares_input(
    platform: Platform,
    input: Seq<char>,
    sel_in: int,
    sel_out: int,
    format: OutputFormat,
)
    ensures
        platform.file_name_of(input) != Some(
            clip_name_of(platform, input, sel_in, sel_out, format),
        ),
{
    let clip = clip_name_of(platform, input, sel_in, sel_out, format);
    let tail = clip_tail(sel_in, sel_out, format);
    lemma_clip_tail(platform, sel_in, sel_out, format);
    match platform.file_name_of(input) {
        Some(name) => {
            let stem = stem_of(name);
            lemma_last_point(name);
            assert(clip == stem + tail);
            assert(clip[stem.len() as int] == '_');
            if stem.len() < name.len() {
                assert(name[stem.len() as int] == '.');
            }
        },
        None => {},
    }
}

/// The two formats of one selection go to two files.
pub proof fn law_formats_are_told_apart(
    platform: Platform,
    input: Seq<char>,
    sel_in: int,
    sel_out: int,
)
    ensures
        clip_name_of(platform, input, sel_in, sel_out, OutputFormat::Mp3) != clip_name_of(
            platform,
            input,
            sel_in,
            sel_out,
            OutputFormat::Mp4,
        ),
{
    reveal_strlit("mp3");
    reveal_strlit("mp4");
    let a = clip_name_of(platform, input, sel_in, sel_out, OutputFormat::Mp3);
    let b = clip_name_of(platform, input, sel_in, sel_out, OutputFormat::Mp4);
    assert(a.last() == '3');
    assert(b.last() == '4');
}

/// Every export is cut where the selection starts and ends, to the millisecond,
/// whatever is selected: both times stand before the input that they apply to, and the
/// clip is what is written last. An existing clip is replaced. Sound alone is asked
/// for exactly where the clip is audio.
pub proof fn law_export_cuts_selection(
    input: Seq<char>,
    out: Seq<char>,
    sel_in: int,
    sel_out: int,
    format: OutputFormat,
)
    ensures
        ({
            let args = export_args_of(input, out, sel_in, sel_out, format);
            &&& args.len() == if format is Mp3 {
                11int
            } else {
                14
            }
            &&& args[0] == "-y"@
            &&& args[1] == "-ss"@ && args[2] == fixed_of(sel_in, 3)
            &&& args[3] == "-to"@ && args[4] == fixed_of(sel_out, 3)
            &&& args[5] == "-i"@ && args[6] == input
            &&& args.last() == out
            &&& format is Mp3 ==> args[7] == "-vn"@ && args[8] == "-q:a"@ && args[9] == "2"@
            &&& format is Mp4 ==> args[7] == "-c:v"@ && args[8] == "libx264"@ && args[9] == "-c:a"@
                && args[10] == "aac"@ && args[11] == "-movflags"@ && args[12] == "+faststart"@
        }),
{
}

/// A clip is named after its input and its times: the name starts with the stem of the
/// input, or with `clip` if that has none, goes on with the two times to a tenth of a
/// second, and ends with the extension of its format.
pub proof fn law_clip_is_named_after_selection(
    platform: Platform,
    input: Seq<char>,
    sel_in: int,
    sel_out: int,
    format: OutputFormat,
)
    ensures
        ({
            let name = clip_name_of(platform, input, sel_in, sel_out, format);
            let stem = match platform.file_stem_of(input) {
                Some(stem) => stem,
                None => "clip"@,
            };
            let (a, b) = (fixed_of(sel_in, 1), fixed_of(sel_out, 1));
            let (n, m) = (stem.len() as int, stem.len() as int + 1 + a.len());
            &&& name.len() == m + 1 + b.len() + 4
            &&& name.take(n) == stem
            &&& name[n] == '_'
            &&& name.subrange(n + 1, m) == a
            &&& name[m] == '-'
            &&& name.subrange(m + 1, m + 1 + b.len()) == b
            &&& name[m + 1 + b.len()] == '.'
            &&& name[m + 2 + b.len()] == 'm' && name[m + 3 + b.len()] == 'p'
            &&& name.last() == if format is Mp3 {
                '3'
            } else {
                '4'
            }
        }),
{
    reveal_strlit("_");
    reveal_strlit("-");
    reveal_strlit(".");
    reveal_strlit("mp3");
    reveal_strlit("mp4");
}

} // verus!
