use ffmpeg_caster::display::{DisplayInfo, DisplayTarget};
use ffmpeg_caster::elevate::ElevationMode;
use ffmpeg_caster::encoder::Codec;
use ffmpeg_caster::pipeline::Platform;
use ffmpeg_caster::session::{
    instance_step, InstanceAction, InstanceEvent, Setup, SetupAction, SetupConfig, SetupEvent,
    SetupStage, Supervisor, SupervisorAction, SupervisorEvent, FFMPEG_RESTART_BACKOFF_MILLIS,
    RELAY_TIMEOUT_SECS,
};

fn target() -> DisplayTarget {
    DisplayTarget {
        name: "D".to_string(),
        width: 100,
        height: 50,
        adapter_output_idx: 1,
    }
}

fn config(platform: Platform, elevation: ElevationMode) -> SetupConfig {
    SetupConfig {
        platform,
        display: target(),
        codec: Codec::H264,
        hw_encoder: None,
        bitrate_kbps: 1000,
        elevation,
        x11_display: None,
    }
}

fn err<T>(reason: &str) -> Result<T, String> {
    Err(reason.to_string())
}

#[test]
fn a_setup_runs_through() {
    let config = config(Platform::Linux, ElevationMode::Normal);
    let mut setup = Setup::new();
    assert!(matches!(
        setup.step(&config, SetupEvent::Begin),
        SetupAction::BindOutput
    ));
    assert!(matches!(
        setup.step(&config, SetupEvent::Bound(Ok(()))),
        SetupAction::ReadOutputPort
    ));
    assert!(matches!(
        setup.step(&config, SetupEvent::Port(Ok(4000))),
        SetupAction::FindSocket(4000)
    ));
    let spawn = setup.step(&config, SetupEvent::Socket("/s".to_string()));
    let args = match spawn {
        SetupAction::SpawnNormal(args) => args,
        _ => panic!("ffmpeg is not started"),
    };
    assert!(args.contains(&"/s".to_string()));
    assert!(args[args.len() - 1].starts_with("tcp://127.0.0.1:4000?"));
    assert!(matches!(
        setup.step(&config, SetupEvent::Spawned(Ok(()))),
        SetupAction::AwaitConnection
    ));
    assert!(matches!(
        setup.step(&config, SetupEvent::Connected(Ok(()))),
        SetupAction::RequestKeyFrame(false)
    ));
    assert!(matches!(
        setup.step(&config, SetupEvent::Requested),
        SetupAction::Finish
    ));
    assert_eq!(setup.stage(), SetupStage::Done);
    assert_eq!(setup.idr_control_path(), "/s");
    assert!(matches!(
        setup.step(&config, SetupEvent::Begin),
        SetupAction::Nothing
    ));
}

#[test]
fn an_elevated_setup_waits_for_the_stub() {
    assert_eq!(RELAY_TIMEOUT_SECS, 5);
    let config = config(Platform::Windows, ElevationMode::PreferSystem);
    for relayed in [true, false] {
        let mut setup = Setup::new();
        setup.step(&config, SetupEvent::Begin);
        setup.step(&config, SetupEvent::Bound(Ok(())));
        setup.step(&config, SetupEvent::Port(Ok(4000)));
        assert!(matches!(
            setup.step(&config, SetupEvent::Socket("pipe".to_string())),
            SetupAction::BindRelay
        ));
        assert!(matches!(
            setup.step(&config, SetupEvent::Bound(Ok(()))),
            SetupAction::ReadRelayPort
        ));
        match setup.step(&config, SetupEvent::Port(Ok(5000))) {
            SetupAction::SpawnPreferringSystem(args, port, path) => {
                assert!(args[args.len() - 1].starts_with("tcp://127.0.0.1:4000?"));
                assert_eq!(port, 5000);
                assert_eq!(path, "pipe");
            }
            _ => panic!("ffmpeg is not started"),
        }
        assert!(matches!(
            setup.step(&config, SetupEvent::SpawnedElevated),
            SetupAction::AwaitConnection
        ));
        assert!(matches!(
            setup.step(&config, SetupEvent::Connected(Ok(()))),
            SetupAction::AwaitRelay
        ));
        let request = setup.step(&config, SetupEvent::Relayed(relayed));
        match request {
            SetupAction::RequestKeyFrame(r) => assert_eq!(r, relayed),
            _ => panic!("no key frame is asked for"),
        }
        assert!(matches!(
            setup.step(&config, SetupEvent::Requested),
            SetupAction::Finish
        ));
    }
}

#[test]
fn a_failing_paexec_is_done_without() {
    let config = config(Platform::Windows, ElevationMode::PreferSystem);
    let mut setup = Setup::new();
    for event in upto_spawn() {
        setup.step(&config, event);
    }
    setup.step(&config, SetupEvent::Bound(Ok(())));
    let first = match setup.step(&config, SetupEvent::Port(Ok(2))) {
        SetupAction::SpawnPreferringSystem(args, 2, _) => args,
        _ => panic!("ffmpeg is not started"),
    };
    setup.step(&config, SetupEvent::SpawnedElevated);
    match setup.step(&config, SetupEvent::Exited(Ok("1".to_string()))) {
        SetupAction::SpawnFallback(args) => assert_eq!(args, first),
        _ => panic!("ffmpeg is not started again"),
    }
    assert!(matches!(
        setup.step(&config, SetupEvent::Spawned(Ok(()))),
        SetupAction::AwaitConnection
    ));
    match setup.step(&config, SetupEvent::Exited(Ok("2".to_string()))) {
        SetupAction::Fail(e) => assert_eq!(
            e.message,
            "ffmpeg exited before connecting to the output TCP listener (status=2)"
        ),
        _ => panic!("ffmpeg is started a third time"),
    }
}

fn failure(config: &SetupConfig, events: Vec<SetupEvent>) -> String {
    let mut setup = Setup::new();
    let mut last = SetupAction::Nothing;
    for event in events {
        last = setup.step(config, event);
    }
    assert_eq!(setup.stage(), SetupStage::Failed);
    match last {
        SetupAction::Fail(e) => e.message,
        _ => panic!("the setup does not fail"),
    }
}

fn upto_spawn() -> Vec<SetupEvent> {
    vec![
        SetupEvent::Begin,
        SetupEvent::Bound(Ok(())),
        SetupEvent::Port(Ok(1)),
        SetupEvent::Socket("s".to_string()),
    ]
}

fn with(mut events: Vec<SetupEvent>, more: Vec<SetupEvent>) -> Vec<SetupEvent> {
    events.extend(more);
    events
}

#[test]
fn setup_failure_messages() {
    let linux = config(Platform::Linux, ElevationMode::Normal);
    let system = config(Platform::Linux, ElevationMode::PreferSystem);
    let windows = config(Platform::Windows, ElevationMode::Normal);
    assert_eq!(
        failure(&linux, vec![SetupEvent::Begin, SetupEvent::Bound(err("x"))]),
        "failed to bind local TCP listener for ffmpeg output: x"
    );
    assert_eq!(
        failure(
            &linux,
            vec![
                SetupEvent::Begin,
                SetupEvent::Bound(Ok(())),
                SetupEvent::Port(err("x"))
            ]
        ),
        "failed to read output TCP listener address: x"
    );
    assert_eq!(
        failure(&windows, with(upto_spawn(), vec![SetupEvent::Bound(err("x"))])),
        "failed to bind local TCP listener for idr relay: x"
    );
    assert_eq!(
        failure(
            &windows,
            with(
                upto_spawn(),
                vec![SetupEvent::Bound(Ok(())), SetupEvent::Port(err("x"))]
            )
        ),
        "failed to read idr relay listener address: x"
    );
    assert_eq!(
        failure(&linux, with(upto_spawn(), vec![SetupEvent::Spawned(err("x"))])),
        "failed to spawn ffmpeg: x"
    );
    assert_eq!(
        failure(&system, with(upto_spawn(), vec![SetupEvent::Spawned(err("x"))])),
        "x"
    );
    let elevated = || with(upto_spawn(), vec![SetupEvent::SpawnedElevated]);
    assert_eq!(
        failure(
            &system,
            with(
                elevated(),
                vec![
                    SetupEvent::Exited(Ok("1".to_string())),
                    SetupEvent::Spawned(err("x"))
                ]
            )
        ),
        "failed to spawn program (both elevated and normal attempts failed): x"
    );
    assert_eq!(
        failure(&system, with(elevated(), vec![SetupEvent::Exited(err("x"))])),
        "failed to wait for ffmpeg process: x"
    );
    assert_eq!(
        failure(&system, with(elevated(), vec![SetupEvent::Connected(err("x"))])),
        "failed to accept ffmpeg's output TCP connection: x"
    );
    let spawned = || with(upto_spawn(), vec![SetupEvent::Spawned(Ok(()))]);
    assert_eq!(
        failure(&linux, with(spawned(), vec![SetupEvent::Connected(err("x"))])),
        "failed to accept ffmpeg's output TCP connection: x"
    );
    assert_eq!(
        failure(&linux, with(spawned(), vec![SetupEvent::Exited(err("x"))])),
        "failed to wait for ffmpeg process: x"
    );
    assert_eq!(
        failure(
            &linux,
            with(
                spawned(),
                vec![SetupEvent::Exited(Ok("ExitStatus(256)".to_string()))]
            )
        ),
        "ffmpeg exited before connecting to the output TCP listener (status=ExitStatus(256))"
    );
}

#[test]
fn setup_ignores_what_does_not_belong() {
    let config = config(Platform::Linux, ElevationMode::Normal);
    let mut setup = Setup::new();
    assert!(matches!(
        setup.step(&config, SetupEvent::Requested),
        SetupAction::Nothing
    ));
    setup.step(&config, SetupEvent::Begin);
    assert!(matches!(
        setup.step(&config, SetupEvent::Begin),
        SetupAction::Nothing
    ));
    assert_eq!(setup.stage(), SetupStage::OutputListener);
}

#[test]
fn reading_goes_on_until_told_or_cut_off() {
    assert_eq!(
        instance_step(InstanceEvent::StopFlag(true)),
        InstanceAction::End(true)
    );
    assert_eq!(
        instance_step(InstanceEvent::StopFlag(false)),
        InstanceAction::Read
    );
    assert_eq!(
        instance_step(InstanceEvent::Read(0)),
        InstanceAction::End(false)
    );
    assert_eq!(
        instance_step(InstanceEvent::Read(9)),
        InstanceAction::Deliver(9)
    );
    assert_eq!(
        instance_step(InstanceEvent::ReadFailed),
        InstanceAction::End(false)
    );
    assert_eq!(
        instance_step(InstanceEvent::Delivered),
        InstanceAction::CheckStopFlag
    );
}

fn moved() -> DisplayInfo {
    DisplayInfo {
        index: 4,
        name: "other".to_string(),
        width: 300,
        height: 200,
        is_primary: true,
        can_capture: true,
        adapter_output_idx: 2,
    }
}

#[test]
fn ffmpeg_is_started_again_for_the_display() {
    assert_eq!(FFMPEG_RESTART_BACKOFF_MILLIS, 500);
    let mut s = Supervisor::new(target(), true);
    assert_eq!(
        s.step(SupervisorEvent::InstanceEnded(false, false)),
        SupervisorAction::Pause
    );
    assert_eq!(
        s.step(SupervisorEvent::Paused(false)),
        SupervisorAction::Resolve
    );
    assert_eq!(
        s.step(SupervisorEvent::Resolved(None)),
        SupervisorAction::Pause
    );
    s.step(SupervisorEvent::Paused(false));
    assert_eq!(
        s.step(SupervisorEvent::Resolved(Some(moved()))),
        SupervisorAction::SetUp
    );
    assert_eq!(
        *s.display(),
        DisplayTarget {
            name: "D".to_string(),
            width: 300,
            height: 200,
            adapter_output_idx: 2,
        }
    );
    assert_eq!(
        s.step(SupervisorEvent::SetUp(false)),
        SupervisorAction::Pause
    );
    s.step(SupervisorEvent::Paused(false));
    s.step(SupervisorEvent::Resolved(Some(moved())));
    assert_eq!(
        s.step(SupervisorEvent::SetUp(true)),
        SupervisorAction::RunInstance
    );
    assert_eq!(
        s.step(SupervisorEvent::InstanceEnded(false, true)),
        SupervisorAction::End
    );
    assert_eq!(
        s.step(SupervisorEvent::Paused(false)),
        SupervisorAction::Nothing
    );
}

#[test]
fn starts_without_lookup_and_stops_when_told() {
    let mut s = Supervisor::new(target(), false);
    assert_eq!(s.step(SupervisorEvent::SetUp(true)), SupervisorAction::Nothing);
    s.step(SupervisorEvent::InstanceEnded(false, false));
    for _ in 0..100 {
        assert_eq!(
            s.step(SupervisorEvent::Paused(false)),
            SupervisorAction::SetUp
        );
        assert_eq!(
            s.step(SupervisorEvent::SetUp(false)),
            SupervisorAction::Pause
        );
    }
    assert_eq!(*s.display(), target());
    assert_eq!(s.step(SupervisorEvent::Paused(true)), SupervisorAction::End);

    let mut s = Supervisor::new(target(), true);
    assert_eq!(
        s.step(SupervisorEvent::InstanceEnded(true, false)),
        SupervisorAction::End
    );
}

#[test]
fn each_piece_that_is_read_is_handed_out() {
    let mut actions = Vec::new();
    for length in [10, 3] {
        actions.push(instance_step(InstanceEvent::StopFlag(false)));
        actions.push(instance_step(InstanceEvent::Read(length)));
        actions.push(instance_step(InstanceEvent::Delivered));
    }
    actions.push(instance_step(InstanceEvent::StopFlag(false)));
    actions.push(instance_step(InstanceEvent::Read(0)));
    assert_eq!(
        actions,
        vec![
            InstanceAction::Read,
            InstanceAction::Deliver(10),
            InstanceAction::CheckStopFlag,
            InstanceAction::Read,
            InstanceAction::Deliver(3),
            InstanceAction::CheckStopFlag,
            InstanceAction::Read,
            InstanceAction::End(false),
        ]
    );
}
