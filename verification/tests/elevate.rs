use ffmpeg_caster::downloader::DownloadFailure;
use ffmpeg_caster::elevate::{
    bundled_paexec_path, embedded_stub_path, ensure_ffmpeg_stub, ensure_paexec,
    is_paexec_installed, paexec_spawned, spawn_elevated, spawn_normal, spawn_preferring_system, try_spawn_elevated, ElevatedArg, PaexecAction,
    PaexecEvent, StubAction, StubEvent,
};
use ffmpeg_caster::error::Error;
use ffmpeg_caster::paths::Under;

#[test]
fn paexec_has_its_place() {
    let path = bundled_paexec_path("tools");
    assert_eq!(path.base, "tools");
    assert_eq!(path.names, vec!["paexec.exe"]);
    for there in [true, false] {
        assert_eq!(
            is_paexec_installed("tools", |path: &Under<&str>| {
                assert_eq!(path.base, "tools");
                assert_eq!(path.names, vec!["paexec.exe"]);
                there
            }),
            there
        );
    }
}

fn paexec_failure(event: PaexecEvent) -> String {
    match ensure_paexec(true, "C:\\tools", event) {
        PaexecAction::Fail(e) => e.message,
        _ => panic!("this does not fail"),
    }
}

#[test]
fn paexec_is_downloaded_where_missing() {
    let step = |event| ensure_paexec(true, "C:\\tools", event);
    assert!(matches!(step(PaexecEvent::Begin), PaexecAction::Look));
    assert!(matches!(step(PaexecEvent::Looked(true)), PaexecAction::Done));
    assert!(matches!(
        step(PaexecEvent::Looked(false)),
        PaexecAction::MakeDir
    ));
    match step(PaexecEvent::MadeDir(Ok(()))) {
        PaexecAction::Download(url) => {
            assert_eq!(url, "https://www.poweradmin.com/paexec/paexec.exe")
        }
        _ => panic!("nothing is downloaded"),
    }
    assert!(matches!(
        step(PaexecEvent::Downloaded(Ok(()))),
        PaexecAction::Done
    ));
}

#[test]
fn paexec_failures() {
    assert_eq!(
        paexec_failure(PaexecEvent::MadeDir(Err("x".to_string()))),
        "failed to create C:\\tools: x"
    );
    assert_eq!(
        paexec_failure(PaexecEvent::Downloaded(Err(DownloadFailure::Request(
            "x".to_string()
        )))),
        "paexec.exe download failed: x"
    );
    assert_eq!(
        paexec_failure(PaexecEvent::Downloaded(Err(DownloadFailure::Create(
            "p".to_string(),
            "x".to_string()
        )))),
        "failed to create p: x"
    );
    assert_eq!(
        paexec_failure(PaexecEvent::Downloaded(Err(DownloadFailure::Write(
            "p".to_string(),
            "x".to_string()
        )))),
        "failed to write p: x"
    );
    match ensure_paexec(false, "/tools", PaexecEvent::Begin) {
        PaexecAction::Fail(e) => assert_eq!(
            e.message,
            "paexec/SYSTEM elevation is only supported on Windows"
        ),
        _ => panic!("this does not fail"),
    }
}

#[test]
fn the_stub_is_written_where_it_differs() {
    let step = |event| ensure_ffmpeg_stub("T", &[1, 2, 3], event);
    assert!(matches!(
        step(StubEvent::Begin(false)),
        StubAction::MakeDir
    ));
    assert!(matches!(
        step(StubEvent::MadeDir(Ok(()))),
        StubAction::Read
    ));
    assert!(matches!(
        step(StubEvent::Read(Some(vec![1, 2, 3]))),
        StubAction::UseEmbedded
    ));
    assert!(matches!(
        step(StubEvent::Read(Some(vec![1, 2, 4]))),
        StubAction::Write
    ));
    assert!(matches!(
        step(StubEvent::Read(Some(vec![1, 2]))),
        StubAction::Write
    ));
    assert!(matches!(step(StubEvent::Read(None)), StubAction::Write));
    assert!(matches!(
        step(StubEvent::Wrote(Ok(()))),
        StubAction::UseEmbedded
    ));
    assert!(matches!(
        step(StubEvent::Begin(true)),
        StubAction::LookAtGiven
    ));
    assert!(matches!(
        step(StubEvent::LookedAtGiven(true, "s".to_string())),
        StubAction::UseGiven
    ));
}

#[test]
fn stub_failures() {
    let message = |event| match ensure_ffmpeg_stub("T", &[], event) {
        StubAction::Fail(e) => e.message,
        _ => panic!("this does not fail"),
    };
    assert_eq!(
        message(StubEvent::LookedAtGiven(false, "s.exe".to_string())),
        "ffmpeg_stub not found at explicit path s.exe"
    );
    assert_eq!(
        message(StubEvent::MadeDir(Err("x".to_string()))),
        "failed to create T: x"
    );
    assert_eq!(
        message(StubEvent::Wrote(Err(("p".to_string(), "x".to_string())))),
        "failed to write embedded ffmpeg_stub to p: x"
    );
}

#[test]
fn elevated_arguments_in_order() {
    let args = vec!["-a".to_string(), "b c".to_string()];
    let list = spawn_elevated(true, "C:\\f\\ffmpeg.exe", &args, 5000, "pipe").unwrap();
    let shown: Vec<String> = list
        .into_iter()
        .map(|a| match a {
            ElevatedArg::Text(s) => s,
            ElevatedArg::WorkingDir => "<dir>".to_string(),
            ElevatedArg::Stub => "<stub>".to_string(),
            ElevatedArg::Program => "<program>".to_string(),
        })
        .collect();
    assert_eq!(
        shown,
        vec!["-i", "-s", "-w", "<dir>", "<stub>", "5000", "pipe", "<program>", "-a", "b c"]
    );
    assert_eq!(
        spawn_elevated(false, "/", &args, 5000, "pipe")
            .unwrap_err()
            .message,
        "program_path has no parent directory: /"
    );
}

#[test]
fn normal_starts() {
    assert_eq!(spawn_normal(true, Ok(7)).unwrap(), 7);
    assert_eq!(
        spawn_normal::<u8>(true, Err("x".to_string()))
            .unwrap_err()
            .message,
        "failed to spawn program normally: x"
    );
    assert_eq!(
        spawn_normal::<u8>(false, Err("x".to_string()))
            .unwrap_err()
            .message,
        "failed to spawn program: x"
    );
}

#[test]
fn an_elevated_start_needs_stub_and_paexec() {
    let spawn = |paexec: &str, stub: &str| Ok(format!("{paexec} {stub}"));
    assert_eq!(
        try_spawn_elevated(|| Ok("stub"), || Ok("paexec"), spawn).unwrap(),
        "paexec stub"
    );
    let none = |_: &str, _: &str| -> Result<u8, Error> { panic!("not reached") };
    assert_eq!(
        try_spawn_elevated(
            || Err(Error::new("no stub")),
            || panic!("not reached"),
            none
        )
        .unwrap_err()
        .message,
        "no stub"
    );
    assert_eq!(
        try_spawn_elevated(|| Ok("stub"), || Err(Error::new("no paexec")), none)
            .unwrap_err()
            .message,
        "no paexec"
    );
}

#[test]
fn elevated_starts_fall_back() {
    let failed = || Err(Error::new("no rights"));
    let never = || -> Result<u8, Error> { panic!("not reached") };
    assert_eq!(spawn_preferring_system(true, || Ok(1), never).unwrap(), 1);
    assert_eq!(spawn_preferring_system(true, failed, || Ok(2)).unwrap(), 2);
    assert_eq!(
        spawn_preferring_system::<u8, _, _>(true, failed, || Err(Error::new("gone")))
            .unwrap_err()
            .message,
        "failed to spawn program (both elevated and normal attempts failed): gone"
    );
    assert_eq!(spawn_preferring_system(false, never, || Ok(3)).unwrap(), 3);
    assert_eq!(
        spawn_preferring_system::<u8, _, _>(false, never, || Err(Error::new("gone")))
            .unwrap_err()
            .message,
        "gone"
    );
}

#[test]
fn the_stub_has_its_place() {
    let path = embedded_stub_path("tools");
    assert_eq!(path.base, "tools");
    assert_eq!(path.names, vec!["ffmpeg_stub.exe"]);
}

#[test]
fn starts_of_paexec() {
    assert_eq!(paexec_spawned(Ok(7)).unwrap(), 7);
    assert_eq!(
        paexec_spawned::<u8>(Err("x".to_string())).unwrap_err().message,
        "failed to spawn PAExec: x"
    );
}
