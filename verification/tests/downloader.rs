use std::cell::RefCell;

use ffmpeg_caster::downloader::{
    detect_arch, detect_platform, ffmpeg_binary_name, find_ffmpeg_binary, latest_release_url,
    pick_asset, Asset, DownloadFailure, EnsureAction, EnsureConfig, EnsureEvent, EnsureFfmpeg,
    ExtractFailure, FetchFailure, Release,
};
use ffmpeg_caster::error::Error;
use ffmpeg_caster::paths::Under;

#[test]
fn platforms_and_architectures() {
    for os in ["windows", "macos", "linux"] {
        assert_eq!(detect_platform(os).unwrap(), os);
    }
    assert_eq!(
        detect_platform("freebsd").unwrap_err().message,
        "unsupported OS: freebsd"
    );
    assert_eq!(detect_arch("x86_64").unwrap(), "amd64");
    assert_eq!(detect_arch("aarch64").unwrap(), "arm64");
    assert_eq!(
        detect_arch("riscv64").unwrap_err().message,
        "unsupported architecture: riscv64"
    );
    assert_eq!(ffmpeg_binary_name(true), "ffmpeg.exe");
    assert_eq!(ffmpeg_binary_name(false), "ffmpeg");
    assert_eq!(
        latest_release_url(),
        "https://api.github.com/repos/mattuu0/ffmpeg-builder/releases/latest"
    );
}

fn release() -> Release {
    let asset = |name: &str, url: &str| Asset {
        name: name.to_string(),
        browser_download_url: url.to_string(),
    };
    Release {
        assets: vec![
            asset("ffmpeg-linux-amd64.zip", "u0"),
            asset("ffmpeg-linux-amd64-binary-only.zip", "u1"),
            asset("ffmpeg-linux-amd64-binary-only.zip", "u2"),
            asset("ffmpeg-windows-amd64-binary-only.zip", "u3"),
        ],
    }
}

#[test]
fn the_build_is_picked_by_name() {
    assert_eq!(
        pick_asset(&release(), "linux", "amd64")
            .unwrap()
            .browser_download_url,
        "u1"
    );
    assert_eq!(
        pick_asset(&release(), "macos", "arm64").unwrap_err().message,
        "no asset named \"ffmpeg-macos-arm64-binary-only.zip\" in latest release"
    );
}

fn find(present: &[&str], entries: &[&str]) -> (Option<String>, usize) {
    let show = |path: &Under<String>| format!("{}/{}", path.base, path.names.join("/"));
    let listed = RefCell::new(0);
    let found = find_ffmpeg_binary(
        "dest".to_string(),
        false,
        |path: &Under<String>| present.contains(&show(path).as_str()),
        || {
            *listed.borrow_mut() += 1;
            entries.iter().map(|e| e.to_string()).collect()
        },
    );
    (found.map(|path| show(&path)), listed.into_inner())
}

#[test]
fn ffmpeg_is_found_directly_or_one_level_down() {
    assert_eq!(
        find(&["dest/bin/ffmpeg", "dest/a/bin/ffmpeg"], &["dest/a"]),
        (Some("dest/bin/ffmpeg".to_string()), 0)
    );
    assert_eq!(
        find(
            &["dest/b/bin/ffmpeg", "dest/c/bin/ffmpeg"],
            &["dest/a", "dest/b", "dest/c"]
        ),
        (Some("dest/b/bin/ffmpeg".to_string()), 1)
    );
    assert_eq!(find(&["dest/b/bin/ffmpeg"], &["dest/a"]), (None, 1));
    assert_eq!(find(&[], &[]), (None, 1));
}

fn config(bundled: bool, os: &str, arch: &str) -> EnsureConfig {
    EnsureConfig {
        bundled,
        os: os.to_string(),
        arch: arch.to_string(),
        windows: os == "windows",
        dest_dir: "/d".to_string(),
    }
}

fn shown(action: EnsureAction<&str>) -> String {
    match action {
        EnsureAction::Look => "look".to_string(),
        EnsureAction::MakeDir => "make dir".to_string(),
        EnsureAction::ExtractBundled => "extract bundled".to_string(),
        EnsureAction::Fetch(url) => format!("fetch {url}"),
        EnsureAction::Download(url, name) => format!("download {url} {name}"),
        EnsureAction::ExtractFile(name) => format!("extract {name}"),
        EnsureAction::RemoveFile(name) => format!("remove {name}"),
        EnsureAction::Done(path) => format!("done {path}"),
        EnsureAction::Fail(e) => format!("fail {}", e.message),
        EnsureAction::Nothing => "nothing".to_string(),
    }
}

fn run(config: &EnsureConfig, events: Vec<EnsureEvent<&str>>) -> Vec<String> {
    let mut ensure = EnsureFfmpeg::new();
    events
        .into_iter()
        .map(|event| shown(ensure.step(config, event)))
        .collect()
}

#[test]
fn a_present_ffmpeg_is_taken() {
    assert_eq!(
        run(
            &config(false, "linux", "x86_64"),
            vec![
                EnsureEvent::Begin,
                EnsureEvent::Found(Some("/d/bin/ffmpeg")),
                EnsureEvent::Begin,
                EnsureEvent::MadeDir(Ok(()))
            ]
        ),
        vec!["look", "done /d/bin/ffmpeg", "nothing", "nothing"]
    );
}

#[test]
fn a_missing_ffmpeg_is_downloaded() {
    assert_eq!(
        run(
            &config(false, "linux", "x86_64"),
            vec![
                EnsureEvent::Begin,
                EnsureEvent::Found(None),
                EnsureEvent::MadeDir(Ok(())),
                EnsureEvent::Fetched(Ok(release())),
                EnsureEvent::Downloaded(Ok(())),
                EnsureEvent::Extracted(Ok(())),
                EnsureEvent::Removed,
                EnsureEvent::Found(Some("/d/x/bin/ffmpeg")),
            ]
        ),
        vec![
            "look",
            "make dir",
            "fetch https://api.github.com/repos/mattuu0/ffmpeg-builder/releases/latest",
            "download u1 ffmpeg-linux-amd64-binary-only.zip",
            "extract ffmpeg-linux-amd64-binary-only.zip",
            "remove ffmpeg-linux-amd64-binary-only.zip",
            "look",
            "done /d/x/bin/ffmpeg",
        ]
    );
}

#[test]
fn a_missing_ffmpeg_is_extracted_where_bundled() {
    assert_eq!(
        run(
            &config(true, "plan9", "mips"),
            vec![
                EnsureEvent::Begin,
                EnsureEvent::Found(None),
                EnsureEvent::MadeDir(Ok(())),
                EnsureEvent::Extracted(Ok(())),
                EnsureEvent::Found(Some("f")),
            ]
        ),
        vec!["look", "make dir", "extract bundled", "look", "done f"]
    );
}

fn last(config: &EnsureConfig, events: Vec<EnsureEvent<&str>>) -> String {
    run(config, events).pop().unwrap()
}

#[test]
fn ensure_failures() {
    let linux = config(false, "linux", "x86_64");
    let begun = || vec![EnsureEvent::Begin, EnsureEvent::Found(None)];
    let with = |more: Vec<EnsureEvent<&'static str>>| {
        let mut events: Vec<EnsureEvent<&'static str>> = begun();
        events.extend(more);
        events
    };
    assert_eq!(
        last(&linux, with(vec![EnsureEvent::MadeDir(Err("x".to_string()))])),
        "fail failed to create /d: x"
    );
    assert_eq!(
        last(
            &config(false, "freebsd", "mips"),
            with(vec![EnsureEvent::MadeDir(Ok(()))])
        ),
        "fail unsupported OS: freebsd"
    );
    assert_eq!(
        last(
            &config(false, "linux", "mips"),
            with(vec![EnsureEvent::MadeDir(Ok(()))])
        ),
        "fail unsupported architecture: mips"
    );
    let fetched = |r| with(vec![EnsureEvent::MadeDir(Ok(())), EnsureEvent::Fetched(r)]);
    assert_eq!(
        last(&linux, fetched(Err(FetchFailure::Request("x".to_string())))),
        "fail GitHub API request failed: x"
    );
    assert_eq!(
        last(&linux, fetched(Err(FetchFailure::Parse("x".to_string())))),
        "fail failed to parse GitHub API response: x"
    );
    assert_eq!(
        last(&linux, fetched(Ok(Release { assets: vec![] }))),
        "fail no asset named \"ffmpeg-linux-amd64-binary-only.zip\" in latest release"
    );
    let downloaded = |r| {
        let mut events = fetched(Ok(release()));
        events.push(EnsureEvent::Downloaded(r));
        events
    };
    assert_eq!(
        last(
            &linux,
            downloaded(Err(DownloadFailure::Request("x".to_string())))
        ),
        "fail download failed: x"
    );
    assert_eq!(
        last(
            &linux,
            downloaded(Err(DownloadFailure::Create("p".to_string(), "x".to_string())))
        ),
        "fail failed to create p: x"
    );
    assert_eq!(
        last(
            &linux,
            downloaded(Err(DownloadFailure::Write("p".to_string(), "x".to_string())))
        ),
        "fail failed to write p: x"
    );
    let extracted = |r| {
        let mut events = downloaded(Ok(()));
        events.push(EnsureEvent::Extracted(r));
        events
    };
    assert_eq!(
        last(
            &linux,
            extracted(Err(ExtractFailure::Open("p".to_string(), "x".to_string())))
        ),
        "fail failed to open p: x"
    );
    assert_eq!(
        last(
            &linux,
            extracted(Err(ExtractFailure::Extract(Error::new("broken"))))
        ),
        "fail broken"
    );
    let mut missing = extracted(Ok(()));
    missing.push(EnsureEvent::Removed);
    missing.push(EnsureEvent::Found(None));
    assert_eq!(
        last(&linux, missing),
        "fail extraction completed but no bin/ffmpeg was found under /d"
    );
}

#[test]
fn looking_again_finds_the_same() {
    let present = ["dest/b/bin/ffmpeg", "dest/c/bin/ffmpeg"];
    let entries = ["dest/a", "dest/b", "dest/c"];
    let first = find(&present, &entries).0;
    assert_eq!(first, Some("dest/b/bin/ffmpeg".to_string()));
    assert_eq!(first, find(&present, &entries).0);
}
