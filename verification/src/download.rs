//! How yt-dlp is run, and what its output says.
use crate::fixed::Fraction;
use crate::model::WorkerMsg;
use crate::number::{
    all_digits, digit, law_no_number, law_percentage_of_digits, number_of, parse_percentage,
    percentage_of, starts_number,
};
use crate::paths::{law_unix_parent, Platform};
use crate::resources::{ffmpeg_path, ffmpeg_path_of};
use crate::text::{
    chars_of, first_place, is_whitespace, joined, last_line, last_line_of, lemma_first_place,
    lemma_first_place_bounds, optional_view, slice_of, starts_with, text_views, trim, trimmed,
    trimmed_start, whitespace,
};
use vstd::prelude::*;

verus! {

/// The arguments that tell yt-dlp where the program `ffmpeg` is, if that is an
/// absolute path: the directory it stands in.
pub open spec fn location_of(platform: Platform, ffmpeg: Seq<char>) -> Seq<Seq<char>> {
    if platform.absolute(ffmpeg) && platform.parent_of(ffmpeg) is Some {
        seq!["--ffmpeg-location"@, platform.parent_of(ffmpeg)->0]
    } else {
        seq![]
    }
}

/// The arguments with which yt-dlp downloads `url` into `out_dir`. It prefers
/// formats that need no conversion, prints a line for each step of progress and
/// the path of the file at the end, and is told the directory of an extracted
/// ffmpeg.
pub open spec fn download_args_of(
    platform: Platform,
    root: Seq<char>,
    extracted: bool,
    out_dir: Seq<char>,
    url: Seq<char>,
) -> Seq<Seq<char>> {
    seq![
        "--newline"@,
        "--no-playlist"@,
        "-f"@,
        "bv*[ext=mp4]+ba[ext=m4a]/b[ext=mp4]/bv*+ba/b"@,
        "--merge-output-format"@,
        "mp4"@,
        "-o"@,
        "%(title)s.%(ext)s"@,
        "--print"@,
        "after_move:filepath"@,
        "--no-simulate"@,
    ] + location_of(platform, ffmpeg_path_of(platform, root, extracted)) + seq!["-P"@, out_dir, url]
}

/// The arguments with which yt-dlp downloads `url` into `out_dir`; `extracted`
/// tells whether there is an extracted ffmpeg under the cache root.
pub fn download_args(
    platform: Platform,
    root: &str,
    extracted: bool,
    out_dir: &str,
    url: &str,
) -> (r: Vec<String>)
    ensures
        text_views(r@) == download_args_of(platform, root@, extracted, out_dir@, url@),
{
    let mut r: Vec<String> = vec![
        "--newline".to_owned(),
        "--no-playlist".to_owned(),
        "-f".to_owned(),
        "bv*[ext=mp4]+ba[ext=m4a]/b[ext=mp4]/bv*+ba/b".to_owned(),
        "--merge-output-format".to_owned(),
        "mp4".to_owned(),
        "-o".to_owned(),
        "%(title)s.%(ext)s".to_owned(),
        "--print".to_owned(),
        "after_move:filepath".to_owned(),
        "--no-simulate".to_owned(),
    ];
    let ffmpeg = ffmpeg_path(platform, root, extracted);
    if platform.is_absolute(ffmpeg.as_str()) {
        match platform.parent(ffmpeg.as_str()) {
            Some(dir) => {
                r.push("--ffmpeg-location".to_owned());
                r.push(dir);
            },
            None => {},
        }
    }
    r.push("-P".to_owned());
    r.push(out_dir.to_owned());
    r.push(url.to_owned());
    assert(text_views(r@) == download_args_of(platform, root@, extracted, out_dir@, url@));
    r
}

/// The share in billionths that a progress line tells: the number that is the
/// first thing behind the bracket, up to its percent sign.
pub open spec fn progress_of(line: Seq<char>) -> Option<nat> {
    let rest = line.skip(10);
    let body = trimmed_start(rest);
    let sign = first_place(body, |c: char| c == '%');
    if "[download]"@.is_prefix_of(line) && body.len() < rest.len() && sign < body.len() {
        percentage_of(body.take(sign))
    } else {
        None
    }
}

/// Parse a yt-dlp `[download] NN.N% ...` line into a fraction. Any other line, and
/// a status line with a percent sign further on, tells none.
pub fn parse_progress(line: &str) -> (r: Option<Fraction>)
    ensures
        match r {
            Some(f) => f.wf() && progress_of(line@) == Some(f.billionths as nat),
            None => progress_of(line@) is None,
        },
{
    if !starts_with(line, "[download]") {
        return None;
    }
    proof {
        reveal_strlit("[download]");
    }
    let v = chars_of(line);
    let n: usize = v.len();
    let mut from: usize = 10;
    while from < n && is_whitespace(v[from])
        invariant
            10 <= from <= n == v.len(),
            v@ == line@,
            trimmed_start(line@.skip(10)) == trimmed_start(line@.skip(from as int)),
        decreases n - from,
    {
        assert(line@.skip(from as int).drop_first() == line@.skip(from + 1));
        from = from + 1;
    }
    let ghost body = trimmed_start(line@.skip(10));
    assert(body == line@.skip(from as int));
    if from == 10 {
        return None;
    }
    let mut sign: usize = from;
    while sign < n && v[sign] != '%'
        invariant
            from <= sign <= n == v.len(),
            v@ == line@,
            body == line@.skip(from as int),
            forall|k: int| 0 <= k < sign - from ==> #[trigger] body[k] != '%',
        decreases n - sign,
    {
        assert(body[sign - from] == v[sign as int]);
        sign = sign + 1;
    }
    proof {
        lemma_first_place(body, |c: char| c == '%', sign - from);
        assert(body.take(sign - from) == line@.subrange(from as int, sign as int));
    }
    if sign == n {
        return None;
    }
    parse_percentage(slice_of(line, from, sign).as_str())
}

/// What is known of a download while it runs.
#[derive(Debug)]
pub struct DownloadLog {
    /// The path that yt-dlp printed last.
    pub path: Option<String>,
}

/// What to do about a line of yt-dlp's output.
#[derive(Clone, Copy, PartialEq, Eq, Structural, Debug)]
pub enum LineStep {
    /// Stop the program.
    Kill,
    /// Read no further.
    Finish,
    /// Report progress if it is told, and read on.
    Continue(Option<Fraction>),
}

/// Whether a trimmed line of yt-dlp's output names a file: it is not empty, and
/// does not start with the bracket of a status line.
pub open spec fn names_file(text: Seq<char>) -> bool {
    text.len() > 0 && text[0] != '['
}

/// The path that is known once `lines` were read, if it was `path` before: what
/// the last of them that names a file says.
pub open spec fn path_after(path: Option<Seq<char>>, lines: Seq<Seq<char>>) -> Option<Seq<char>>
    decreases lines.len(),
{
    if lines.len() == 0 {
        path
    } else if names_file(trimmed(lines.last())) {
        Some(trimmed(lines.last()))
    } else {
        path_after(path, lines.drop_last())
    }
}

/// A line that is not empty and no status line is the path of the file, whatever it
/// starts with; any other leaves the path as it was.
pub proof fn law_line_is_path(path: Option<Seq<char>>, line: Seq<char>)
    ensures
        trimmed(line).len() > 0 && trimmed(line)[0] != '[' ==> path_after(path, seq![line]) == Some(
            trimmed(line),
        ),
        trimmed(line).len() == 0 || trimmed(line)[0] == '[' ==> path_after(path, seq![line])
            == path,
        path_after(path, seq![]) == path,
{
    assert(seq![line].drop_last() == Seq::<Seq<char>>::empty());
    reveal_with_fuel(path_after, 2);
}

/// What comes later in the output takes the place of what came before, and status
/// lines never do: reading some lines and then others is reading them all, and
/// where every line is empty or a status line, the path is as before.
pub proof fn law_last_path_stays(
    path: Option<Seq<char>>,
    lines: Seq<Seq<char>>,
    more: Seq<Seq<char>>,
)
    ensures
        path_after(path, lines + more) == path_after(path_after(path, lines), more),
        (forall|k: int|
            0 <= k < more.len() ==> trimmed(#[trigger] more[k]).len() == 0 || trimmed(more[k])[0]
                == '[') ==> path_after(path, lines + more) == path_after(path, lines),
    decreases more.len(),
{
    if more.len() == 0 {
        assert(lines + more == lines);
    } else {
        assert((lines + more).drop_last() == lines + more.drop_last());
        assert((lines + more).last() == more.last());
        assert(more[more.len() - 1] == more.last());
        law_last_path_stays(path, lines, more.drop_last());
    }
}

impl DownloadLog {
    /// A download that starts.
    pub fn new() -> (r: DownloadLog)
        ensures
            r.path is None,
    {
        DownloadLog { path: None }
    }

    /// A cancelled download is stopped. A line in square brackets tells of the
    /// progress or of nothing; any other line that is not empty is the path of
    /// the file. `line` is none where the output cannot be read.
    pub fn on_line(&mut self, cancelled: bool, line: Option<&str>) -> (r: LineStep)
        ensures
            match line {
                Some(l) if !cancelled => {
                    let text = trimmed(l@);
                    &&& optional_view(final(self).path) == path_after(
                        optional_view(old(self).path),
                        seq![l@],
                    )
                    &&& text.len() > 0 && text[0] != '[' ==> final(self).path is Some
                        && final(self).path->0@ == text
                    &&& text.len() == 0 || text[0] == '[' ==> *final(self) == *old(self)
                    &&& match r {
                        LineStep::Continue(Some(f)) => f.wf() && progress_of(text) == Some(
                            f.billionths as nat,
                        ),
                        LineStep::Continue(None) => progress_of(text) is None,
                        _ => false,
                    }
                },
                _ => *final(self) == *old(self) && r == if cancelled {
                    LineStep::Kill
                } else {
                    LineStep::Finish
                },
            },
    {
        if cancelled {
            return LineStep::Kill;
        }
        match line {
            None => LineStep::Finish,
            Some(l) => {
                let text = trim(l);
                proof {
                    reveal_strlit("[download]");
                    if "[download]"@.is_prefix_of(text@) {
                        assert(text@.subrange(0, 10)[0] == '[');
                    }
                    reveal_with_fuel(path_after, 2);
                    assert(seq![l@].drop_last() == Seq::<Seq<char>>::empty());
                }
                if text.as_str().is_empty() {
                    return LineStep::Continue(None);
                }
                if text.as_str().get_char(0) == '[' {
                    LineStep::Continue(parse_progress(text.as_str()))
                } else {
                    self.path = Some(text);
                    LineStep::Continue(None)
                }
            },
        }
    }

    /// How the download ended, given whether it was cancelled, whether yt-dlp
    /// succeeded, what it wrote to its standard error, and whether the file that
    /// it named exists. `Ok(None)` says that it was cancelled.
    pub fn finish(self, cancelled: bool, success: bool, stderr: &str, found: bool) -> (r: Result<
        Option<String>,
        String,
    >)
        ensures
            if cancelled {
                r == Ok::<Option<String>, String>(None)
            } else if !success {
                r is Err && r->Err_0@ == "yt-dlp failed: "@ + match last_line_of(stderr@) {
                    Some(l) => l,
                    None => "unknown error"@,
                }
            } else if self.path is Some && found {
                r == Ok::<Option<String>, String>(self.path)
            } else {
                r is Err && r->Err_0@ == "download finished but output file was not found"@
            },
    {
        if cancelled {
            return Ok(None);
        }
        if !success {
            let last: String = match last_line(stderr) {
                Some(l) => l,
                None => "unknown error".to_owned(),
            };
            return Err(joined("yt-dlp failed: ", last.as_str()));
        }
        match self.path {
            Some(p) if found => Ok(Some(p)),
            _ => Err("download finished but output file was not found".to_owned()),
        }
    }
}

/// The error of a yt-dlp that could not be run, for the reason `e`.
pub fn run_error(e: &str) -> (r: String)
    ensures
        r@ == "Could not run yt-dlp: "@ + e@ + " (is it installed?)"@,
{
    let mut s = joined("Could not run yt-dlp: ", e);
    s.append(" (is it installed?)");
    s
}

/// The error of a yt-dlp whose end could not be awaited, for the reason `e`.
pub fn wait_error(e: &str) -> (r: String)
    ensures
        r@ == "yt-dlp wait failed: "@ + e@,
{
    joined("yt-dlp wait failed: ", e)
}

/// The message that reports how a download ended.
pub fn download_message(result: Result<Option<String>, String>) -> (r: WorkerMsg)
    ensures
        match result {
            Ok(Some(path)) => r == WorkerMsg::DownloadDone(path),
            Ok(None) => r matches WorkerMsg::DownloadFailed(m) && m@ == "Download cancelled."@,
            Err(e) => r == WorkerMsg::DownloadFailed(e),
        },
{
    match result {
        Ok(Some(path)) => WorkerMsg::DownloadDone(path),
        Ok(None) => WorkerMsg::DownloadFailed("Download cancelled.".to_owned()),
        Err(e) => WorkerMsg::DownloadFailed(e),
    }
}

/// The arguments end with the directory and the address, ask for a line with each step
/// of progress and for the path of the file at the end, and name ffmpeg's directory
/// only between the two.
pub proof fn law_download_goes_to_directory(
    platform: Platform,
    root: Seq<char>,
    extracted: bool,
    out_dir: Seq<char>,
    url: Seq<char>,
)
    ensures
        ({
            let args = download_args_of(platform, root, extracted, out_dir, url);
            let n = args.len() as int;
            &&& n == 14 || (n == 16 && extracted && args[11] == "--ffmpeg-location"@)
            &&& args[n - 3] == "-P"@ && args[n - 2] == out_dir && args[n - 1] == url
            &&& args[0] == "--newline"@ && args[1] == "--no-playlist"@
            &&& args[2] == "-f"@ && args[3] == "bv*[ext=mp4]+ba[ext=m4a]/b[ext=mp4]/bv*+ba/b"@
            &&& args[4] == "--merge-output-format"@ && args[5] == "mp4"@
            &&& args[6] == "-o"@ && args[7] == "%(title)s.%(ext)s"@
            &&& args[8] == "--print"@ && args[9] == "after_move:filepath"@
            &&& args[10] == "--no-simulate"@
        }),
{
    reveal_strlit("ffmpeg");
    if !extracted {
        assert("ffmpeg"@[0] == 'f' && "ffmpeg"@[1] == 'f');
        assert(!platform.absolute("ffmpeg"@));
    }
}

/// On Unix an extracted ffmpeg is found in the directory of the programs, where the
/// cache stands at the root of the file system.
pub proof fn law_ffmpeg_is_located(root: Seq<char>, out_dir: Seq<char>, url: Seq<char>)
    requires
        root.len() > 0,
        root[0] == '/',
    ensures
        ({
            let args = download_args_of(Platform::Unix, root, true, out_dir, url);
            &&& args.len() == 16
            &&& args[11] == "--ffmpeg-location"@
            &&& args[12] == Platform::Unix.join_of(root, "bin"@)
        }),
{
    reveal_strlit("bin");
    reveal_strlit("ffmpeg");
    assert("bin"@.len() == 3 && "bin"@[0] == 'b');
    assert("ffmpeg"@.len() == 6 && "ffmpeg"@[0] == 'f');
    law_unix_parent(root, "bin"@, "ffmpeg"@);
}

/// A progress line tells the number behind the bracket: `[download]`, white space, a
/// whole number of percent and a percent sign are that share of the whole, and at most
/// all of it, whatever follows.
pub proof fn law_progress_line(space: Seq<char>, digits: Seq<char>, rest: Seq<char>)
    requires
        space.len() > 0,
        forall|k: int| 0 <= k < space.len() ==> whitespace(#[trigger] space[k]),
        digits.len() > 0,
        all_digits(digits),
    ensures
        progress_of("[download]"@ + space + digits + seq!['%'] + rest) == Some(
            if number_of(digits) < 100 {
                number_of(digits) * 10_000_000
            } else {
                1_000_000_000
            },
        ),
{
    reveal_strlit("[download]");
    let head = "[download]"@;
    let line = head + space + digits + seq!['%'] + rest;
    let body = digits + seq!['%'] + rest;
    assert(line.subrange(0, 10) == head);
    assert(line.skip(10) == space + body);
    assert(body[0] == digits[0]);
    assert(digit(digits[0]));
    lemma_trimmed_space(space, body);
    assert forall|k: int| 0 <= k < digits.len() implies #[trigger] body[k] != '%' by {
        assert(body[k] == digits[k]);
        assert(digit(digits[k]));
    }
    assert(body[digits.len() as int] == '%');
    lemma_first_place(body, |c: char| c == '%', digits.len() as int);
    assert(body.take(digits.len() as int) == digits);
    law_percentage_of_digits(digits);
}

/// A line tells no progress unless it starts with `[download]`, and none if what
/// follows starts with anything that no number starts with.
pub proof fn law_status_line_tells_nothing(line: Seq<char>, space: Seq<char>, rest: Seq<char>)
    requires
        forall|k: int| 0 <= k < space.len() ==> whitespace(#[trigger] space[k]),
        rest.len() > 0,
        !whitespace(rest[0]),
        !starts_number(rest[0]),
    ensures
        !"[download]"@.is_prefix_of(line) ==> progress_of(line) is None,
        progress_of("[download]"@ + space + rest) is None,
{
    reveal_strlit("[download]");
    let head = "[download]"@;
    let full = head + space + rest;
    assert(full.skip(10) == space + rest);
    lemma_trimmed_space(space, rest);
    let sign = first_place(rest, |c: char| c == '%');
    lemma_first_place_bounds(rest, |c: char| c == '%');
    if sign > 0 {
        assert(rest.take(sign)[0] == rest[0]);
    }
    law_no_number(rest.take(sign));
}

/// White space in front is trimmed away.
proof fn lemma_trimmed_space(space: Seq<char>, body: Seq<char>)
    requires
        forall|k: int| 0 <= k < space.len() ==> whitespace(#[trigger] space[k]),
        body.len() > 0,
        !whitespace(body[0]),
    ensures
        trimmed_start(space + body) == body,
    decreases space.len(),
{
    if space.len() == 0 {
        assert(space + body == body);
    } else {
        let rest = space.drop_first();
        assert(whitespace(space[0]));
        assert forall|k: int| 0 <= k < rest.len() implies whitespace(#[trigger] rest[k]) by {
            assert(rest[k] == space[k + 1]);
        }
        lemma_trimmed_space(rest, body);
        assert((space + body).drop_first() == rest + body);
    }
}

} // verus!
