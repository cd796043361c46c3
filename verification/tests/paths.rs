use clip_extractor::model::WhisperModelKind;
use clip_extractor::paths::Platform;
use clip_extractor::resources::{
    bin_dir, cache_root, ffmpeg_exe, ffmpeg_path, model_path, models_dir, partial_path, ytdlp_exe,
    ytdlp_path,
};
use std::path::{Path, PathBuf};

const PATHS: [&str; 30] = [
    "", "/", "a", "a.mp4", "/x/a.mp4", "x/a.tar.gz", ".hidden", "/x/.hidden", "/x/.a.b", "a/", "a//",
    "a/.", "a/./.", "./", ".", "..", "a/..", "/..", "x/a.", "x/...", "x/..b", "./a.mp4", "//a/b.c", "a/./b.c",
    "x.y/z", "é/ü.mp4", "/.", "a.mp4/", "a.mp4/.", "..a",
];

#[test]
fn file_stems_as_in_std() {
    for p in PATHS {
        let expected = Path::new(p).file_stem().map(|s| s.to_str().unwrap().to_owned());
        assert_eq!(Platform::Unix.file_stem(p), expected, "{p:?}");
    }
}

#[test]
fn extensions_as_in_std() {
    for p in PATHS {
        let mut expected = PathBuf::from(p);
        expected.set_extension("partial");
        assert_eq!(Platform::Unix.with_extension(p, "partial"), expected.to_str().unwrap(), "{p:?}");
    }
}

#[test]
fn parents_as_in_std() {
    for p in PATHS {
        for path in [format!("/{p}"), format!("/d/{p}"), format!("/d//./{p}/.")] {
            let expected = Path::new(&path).parent().map(|d| d.to_str().unwrap().to_owned());
            assert_eq!(Platform::Unix.parent(&path), expected, "{path:?}");
        }
    }
    let w = Platform::Windows;
    assert_eq!(w.parent("\\\\srv\\share\\x").as_deref(), Some("\\\\srv\\share\\"));
    assert_eq!(w.parent("\\\\srv\\share"), None);
    assert_eq!(w.parent("C:\\a\\\\b").as_deref(), Some("C:\\a"));
    assert_eq!(w.parent("C:\\b").as_deref(), Some("C:\\"));
}

#[test]
fn joins_as_in_std() {
    for p in PATHS {
        for name in ["clip-extractor", "x.y", "a/b", "/abs", "..", ""] {
            let expected = Path::new(p).join(name);
            assert_eq!(Platform::Unix.join(p, name), expected.to_str().unwrap(), "{p:?}");
        }
        assert_eq!(Platform::Unix.is_absolute(p), Path::new(p).is_absolute(), "{p:?}");
    }
}

#[test]
fn windows_conventions() {
    let w = Platform::Windows;
    assert_eq!(w.join("C:\\Users\\me", "bin"), "C:\\Users\\me\\bin");
    assert_eq!(w.join("C:\\", "bin"), "C:\\bin");
    assert_eq!(w.join("C:", "bin"), "C:bin");
    assert_eq!(w.join("C:/x/", "bin"), "C:/x/bin");
    assert_eq!(w.join("C:\\x", "d:y"), "d:y");
    assert_eq!(w.file_stem("C:\\v\\talk.mp4").as_deref(), Some("talk"));
    assert_eq!(w.file_stem("C:talk.mp4").as_deref(), Some("talk"));
    assert_eq!(w.file_stem("C:"), None);
    assert_eq!(w.with_extension("C:\\m\\a.bin", "partial"), "C:\\m\\a.partial");
    assert!(w.is_absolute("C:\\x"));
    assert!(w.is_absolute("\\\\srv\\share"));
    assert!(!w.is_absolute("\\x"));
    assert!(!w.is_absolute("C:x"));
}

#[test]
fn windows_prefixes() {
    let w = Platform::Windows;
    for p in [
        "\\\\srv\\share", "//srv/share/", "\\\\.\\COM1", "\\\\?\\C:", "\\\\?\\C:\\", "\\\\?\\pictures",
        "\\\\?\\UNC\\srv\\share", "\\\\?\\UNC\\srv", "\\\\?\\C:\\v\\.", "\\\\?\\C:\\v\\..",
    ] {
        assert_eq!(w.file_stem(p), None, "{p}");
        assert_eq!(w.with_extension(p, "x"), p);
        assert!(w.is_absolute(p), "{p}");
    }
    for (p, stem) in [
        ("\\\\srv\\share\\talk.mp4", "talk"),
        ("//srv/share/talk.mp4", "talk"),
        ("\\\\?\\C:\\v\\talk.mp4", "talk"),
        ("\\\\?\\UNC\\srv\\share\\talk.mp4", "talk"),
        ("\\\\?\\pictures\\talk.mp4\\", "talk"),
        ("\\\\.\\disk\\talk.mp4", "talk"),
        ("\\\\?\\C:\\v\\a/b.mp4", "a/b"),
        ("//?/C:/talk.mp4", "talk"),
    ] {
        assert_eq!(w.file_stem(p).as_deref(), Some(stem), "{p}");
        assert!(w.is_absolute(p), "{p}");
    }
    assert!(!w.is_absolute("\\\\x"));
    assert_eq!(w.file_stem("\\\\x").as_deref(), Some("x"));
    assert_eq!(w.with_extension("\\\\?\\C:\\v\\a/b.c", "d"), "\\\\?\\C:\\v\\a/b.d");
    assert_eq!(Platform::Unix.file_stem("\\\\srv\\share").as_deref(), Some("\\\\srv\\share"));
}

#[test]
fn windows_joins() {
    let w = Platform::Windows;
    for (base, name, joined) in [
        ("\\\\srv\\share", "x", "\\\\srv\\share\\x"),
        ("\\\\srv\\share\\a", "/z", "\\\\srv\\share/z"),
        ("C:\\a", "\\z", "C:\\z"),
        ("C:\\a", "\\\\srv\\share", "\\\\srv\\share"),
        ("\\\\?\\C:", "x", "\\\\?\\C:\\x"),
        ("\\\\?\\C:\\a\\\\b\\", "x", "\\\\?\\C:\\a\\b\\x"),
        ("\\\\?\\C:\\a", "..\\y", "\\\\?\\C:\\y"),
        ("\\\\?\\C:\\a", "./y/z", "\\\\?\\C:\\a\\y\\z"),
        ("\\\\?\\C:\\a", "\\z", "\\\\?\\C:\\z"),
        ("\\\\?\\C:\\a", "../../..", "\\\\?\\C:\\"),
        ("\\\\?\\C:\\a/", "x", "\\\\?\\C:\\a/\\x"),
        ("\\\\?\\pictures", ".", "\\\\?\\pictures"),
    ] {
        assert_eq!(w.join(base, name), joined);
    }
}

#[test]
fn cache_locations() {
    let u = Platform::Unix;
    let root = cache_root(u, None, Some("/c".to_owned()), Some("/h".to_owned()));
    assert_eq!(root, "/c/clip-extractor");
    assert_eq!(cache_root(u, None, None, Some("/h".to_owned())), "/h/.cache/clip-extractor");
    assert_eq!(cache_root(u, None, None, None), "./clip-extractor");
    assert_eq!(
        cache_root(Platform::Windows, Some("C:\\L".to_owned()), Some("/c".to_owned()), None),
        "C:\\L\\clip-extractor"
    );
    assert_eq!(models_dir(u, &root), "/c/clip-extractor/models");
    assert_eq!(bin_dir(u, &root), "/c/clip-extractor/bin");
    assert_eq!(
        model_path(u, &root, WhisperModelKind::Small),
        "/c/clip-extractor/models/ggml-small.en.bin"
    );
    assert_eq!(
        partial_path(u, &model_path(u, &root, WhisperModelKind::Base)),
        "/c/clip-extractor/models/ggml-base.en.partial"
    );
}

#[test]
fn partial_models_in_any_cache() {
    for base in ["\\\\", "\\\\?", "\\\\?\\", "\\\\?\\UNC", "\\\\?\\UNC\\", "\\\\.", "", "C:", "\\\\srv"] {
        let w = Platform::Windows;
        let root = cache_root(w, Some(base.to_owned()), None, None);
        let path = model_path(w, &root, WhisperModelKind::Base);
        let partial = partial_path(w, &path);
        assert_eq!(partial, path.replace(".bin", ".partial"), "{base}");
        assert_ne!(partial, path);
    }
}

#[test]
fn program_locations() {
    let (u, w) = (Platform::Unix, Platform::Windows);
    assert_eq!(ffmpeg_exe(u), "ffmpeg");
    assert_eq!(ffmpeg_exe(w), "ffmpeg.exe");
    assert_eq!(ytdlp_exe(u), "yt-dlp");
    assert_eq!(ytdlp_exe(w), "yt-dlp.exe");
    assert_eq!(ffmpeg_path(u, "/r", false), "ffmpeg");
    assert_eq!(ffmpeg_path(u, "/r", true), "/r/bin/ffmpeg");
    assert_eq!(ffmpeg_path(w, "C:\\r", true), "C:\\r\\bin\\ffmpeg.exe");
    assert_eq!(ytdlp_path(u, "/r", false, false), "yt-dlp");
    assert_eq!(ytdlp_path(u, "/r", false, true), "/r/bin/yt-dlp");
    assert_eq!(ytdlp_path(u, "/r", true, false), "/r/bin/yt-dlp");
}
