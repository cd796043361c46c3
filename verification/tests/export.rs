use clip_extractor::export::{
    clip_name, clip_path, export, export_args, export_message, FfmpegRun,
};
use clip_extractor::model::{OutputFormat, WorkerMsg};
use clip_extractor::paths::Platform;

const IN: i128 = 4_800_000_000;
const OUT: i128 = 8_000_000_000;

#[test]
fn clip_names() {
    let u = Platform::Unix;
    assert_eq!(clip_name(u, "fixtures/sample.mp4", IN, OUT, OutputFormat::Mp3), "sample_4.8-8.0.mp3");
    assert_eq!(clip_name(u, "a.mp4", 350_000_000, OUT, OutputFormat::Mp3), "a_0.3-8.0.mp3");
    assert_eq!(clip_name(u, "/", IN, OUT, OutputFormat::Mp4), "clip_4.8-8.0.mp4");
    assert_eq!(
        clip_path(u, "fixtures/sample.mp4", "/tmp/x", IN, OUT, OutputFormat::Mp4),
        "/tmp/x/sample_4.8-8.0.mp4"
    );
    assert_eq!(
        clip_path(Platform::Windows, "C:\\v\\sample.mp4", "D:\\out", IN, OUT, OutputFormat::Mp4),
        "D:\\out\\sample_4.8-8.0.mp4"
    );
    assert_eq!(
        clip_name(Platform::Windows, "\\\\srv\\share", IN, OUT, OutputFormat::Mp4),
        "clip_4.8-8.0.mp4"
    );
    assert_ne!(
        clip_name(u, "a_0.0-1.0.mp4", 0, 1_000_000_000, OutputFormat::Mp4),
        "a_0.0-1.0.mp4"
    );
}

#[test]
fn cut_arguments() {
    assert_eq!(
        export_args("in.mp4", "out.mp3", IN, OUT, OutputFormat::Mp3).join(" "),
        "-y -ss 4.800 -to 8.000 -i in.mp4 -vn -q:a 2 out.mp3"
    );
    assert_eq!(
        export_args("in.mp4", "out.mp4", IN, OUT, OutputFormat::Mp4).join(" "),
        "-y -ss 4.800 -to 8.000 -i in.mp4 -c:v libx264 -c:a aac -movflags +faststart out.mp4"
    );
}

#[test]
fn export_endings() {
    let ended = |success: bool, stderr: &str| FfmpegRun::Ended { success, stderr: stderr.to_owned() };
    assert_eq!(export("o".to_owned(), ended(true, "noise")), Ok("o".to_owned()));
    assert_eq!(
        export("o".to_owned(), ended(false, "a\nno such file\r\n")),
        Err("ffmpeg failed: no such file".to_owned())
    );
    assert_eq!(export("o".to_owned(), ended(false, "")), Err("ffmpeg failed: unknown error".to_owned()));
    assert_eq!(
        export("o".to_owned(), FfmpegRun::NotRun("gone".to_owned())),
        Err("Could not run ffmpeg: gone (is it on PATH?)".to_owned())
    );
    assert!(matches!(export_message(Ok("o".to_owned())), WorkerMsg::ExportDone(p) if p == "o"));
    assert!(matches!(export_message(Err("e".to_owned())), WorkerMsg::ExportFailed(m) if m == "e"));
}
