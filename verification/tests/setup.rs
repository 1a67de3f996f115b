use ffmpeg_caster::error::Error;
use ffmpeg_caster::ffi::{frame_kind_code, pipeline_options, status_code};
use ffmpeg_caster::elevate::ElevationMode;
use ffmpeg_caster::pipeline::FrameKind;
use ffmpeg_caster::setup;

#[test]
fn setup_gets_the_tools_of_the_platform() {
    let tools = setup(true, || Ok("ffmpeg.exe"), || Ok("paexec.exe")).unwrap();
    assert_eq!(tools.ffmpeg_path, "ffmpeg.exe");
    assert_eq!(tools.paexec_path, Some("paexec.exe"));

    let tools = setup(false, || Ok("ffmpeg"), || panic!("no PAExec here")).unwrap();
    assert_eq!(tools.ffmpeg_path, "ffmpeg");
    assert_eq!(tools.paexec_path, None);
}

#[test]
fn setup_failures() {
    let failed = setup::<&str, _, _>(
        true,
        || Err(Error::new("no ffmpeg")),
        || panic!("not reached"),
    );
    assert_eq!(failed.unwrap_err().message, "no ffmpeg");
    let failed = setup(true, || Ok("ffmpeg.exe"), || Err(Error::new("no paexec")));
    assert_eq!(failed.unwrap_err().message, "no paexec");
}

#[test]
fn numbers_of_the_c_interface() {
    assert_eq!(frame_kind_code(FrameKind::Key), 0);
    assert_eq!(frame_kind_code(FrameKind::Delta), 1);
    assert_eq!(status_code(true), 0);
    assert_eq!(status_code(false), -1);
    let options = pipeline_options::<String>(3000, 0);
    assert_eq!(options.bitrate_kbps, 3000);
    assert_eq!(options.elevation, ElevationMode::Normal);
    assert!(options.ffmpeg_stub_path.is_none());
    assert!(options.tools_dir.is_none());
    assert_eq!(
        pipeline_options::<String>(1, -3).elevation,
        ElevationMode::PreferSystem
    );
}

#[test]
fn error_messages() {
    assert_eq!(Error::new("a").message, "a");
    assert_eq!(Error::about("a: ", "b").message, "a: b");
    assert_eq!(
        Error::at("failed to create ", "/x", "full").message,
        "failed to create /x: full"
    );
}

#[test]
fn a_setup_may_be_repeated() {
    let first = setup(true, || Ok("ffmpeg.exe"), || Ok("paexec.exe")).unwrap();
    let again = setup(true, || Ok("ffmpeg.exe"), || Ok("paexec.exe")).unwrap();
    assert_eq!(again.ffmpeg_path, first.ffmpeg_path);
    assert_eq!(again.paexec_path, first.paexec_path);
}
