use clip_extractor::download::{
    download_args, download_message, parse_progress, run_error, wait_error, DownloadLog, LineStep,
};
use clip_extractor::model::WorkerMsg;
use clip_extractor::paths::Platform;

fn fraction(line: &str) -> Option<f32> {
    parse_progress(line).map(|f| f.billionths as f32 / 1e9)
}

#[test]
fn parses_download_progress() {
    assert_eq!(
        fraction("[download]   0.0% of 10.00MiB at 1.00MiB/s ETA 00:10"),
        Some(0.0)
    );
    let p = fraction("[download]  45.6% of 10.00MiB at 1.00MiB/s ETA 00:05").unwrap();
    assert!((p - 0.456).abs() < 1e-4, "got {p}");
    assert_eq!(
        fraction("[download] 100% of 10.00MiB in 00:10"),
        Some(1.0)
    );
    // Non-progress status lines yield nothing.
    assert_eq!(fraction("[youtube] Extracting URL"), None);
    assert_eq!(fraction("[Merger] Merging formats"), None);
}

#[test]
fn lines_without_a_number() {
    assert_eq!(fraction("[download] Destination: x.mp4"), None);
    assert_eq!(fraction("[download] Destination: 50% off.mp4"), None);
    assert_eq!(fraction("[download] a 50% of 3MiB"), None);
    assert_eq!(fraction("[download]"), None);
    assert_eq!(fraction("[download]  Unknown % of 3MiB"), None);
    assert_eq!(fraction("[download]45% of 3MiB"), None);
    assert_eq!(fraction(" [download] 45% of 3MiB"), None);
    assert_eq!(fraction("[download] 120% of 3MiB"), Some(1.0));
    assert_eq!(fraction("[download]\u{3000}50% 60%"), Some(0.5));
}

#[test]
fn arguments() {
    assert_eq!(
        download_args(Platform::Unix, "/c/clip-extractor", false, "/out", "https://x").join(" "),
        "--newline --no-playlist -f bv*[ext=mp4]+ba[ext=m4a]/b[ext=mp4]/bv*+ba/b \
         --merge-output-format mp4 -o %(title)s.%(ext)s --print after_move:filepath --no-simulate \
         -P /out https://x"
    );
    let bundled = download_args(Platform::Unix, "/c/r", true, "/out", "u");
    assert_eq!(bundled[11..].join(" "), "--ffmpeg-location /c/r/bin -P /out u");
    let share = download_args(Platform::Windows, "\\\\clip-extractor", true, "o", "u");
    assert_eq!(share[11..].join(" "), "--ffmpeg-location \\\\clip-extractor\\bin\\ -P o u");
    let drive = download_args(Platform::Windows, "C:\\r", true, "o", "u");
    assert_eq!(drive[11..].join(" "), "--ffmpeg-location C:\\r\\bin -P o u");
    let relative = download_args(Platform::Unix, "./r", true, "/out", "u");
    assert_eq!(relative[11..].join(" "), "-P /out u");
}

#[test]
fn output_lines() {
    let mut log = DownloadLog::new();
    assert_eq!(log.on_line(false, Some("  ")), LineStep::Continue(None));
    assert_eq!(log.on_line(false, Some("[info] x")), LineStep::Continue(None));
    match log.on_line(false, Some(" [download]  12.5% of 3MiB\r")) {
        LineStep::Continue(Some(f)) => assert_eq!(f.billionths, 125_000_000),
        _ => panic!("no progress"),
    }
    assert!(log.path.is_none());
    assert_eq!(log.on_line(false, Some(" /out/a b.mp4 ")), LineStep::Continue(None));
    assert_eq!(log.path.as_deref(), Some("/out/a b.mp4"));
    assert_eq!(log.on_line(false, Some("[Merger] x")), LineStep::Continue(None));
    assert_eq!(log.path.as_deref(), Some("/out/a b.mp4"));
    let mut again = DownloadLog { path: Some("/first".to_owned()) };
    again.on_line(false, Some("/second"));
    assert_eq!(again.path.as_deref(), Some("/second"));
    assert_eq!(log.on_line(false, None), LineStep::Finish);
    assert_eq!(log.on_line(true, Some("/other")), LineStep::Kill);
    assert_eq!(log.finish(false, true, "", true), Ok(Some("/out/a b.mp4".to_owned())));
}

#[test]
fn endings() {
    let named = || DownloadLog { path: Some("/o".to_owned()) };
    assert_eq!(named().finish(true, false, "boom", true), Ok(None));
    assert_eq!(
        named().finish(false, false, "one\nERROR: two\n", true),
        Err("yt-dlp failed: ERROR: two".to_owned())
    );
    assert_eq!(named().finish(false, false, "", true), Err("yt-dlp failed: unknown error".to_owned()));
    let missing = Err("download finished but output file was not found".to_owned());
    assert_eq!(named().finish(false, true, "", false), missing);
    assert_eq!(DownloadLog::new().finish(false, true, "", true), missing);
}

#[test]
fn messages() {
    assert!(matches!(
        download_message(Ok(Some("/o".to_owned()))),
        WorkerMsg::DownloadDone(p) if p == "/o"
    ));
    assert!(matches!(
        download_message(Ok(None)),
        WorkerMsg::DownloadFailed(m) if m == "Download cancelled."
    ));
    assert!(matches!(
        download_message(Err("e".to_owned())),
        WorkerMsg::DownloadFailed(m) if m == "e"
    ));
    assert_eq!(run_error("x"), "Could not run yt-dlp: x (is it installed?)");
    assert_eq!(wait_error("x"), "yt-dlp wait failed: x");
}
