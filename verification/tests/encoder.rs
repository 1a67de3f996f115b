use std::cell::RefCell;

use ffmpeg_caster::encoder::{
    candidate_encoders, encoder_priority, is_hardware_encoder, list_compiled_encoders,
    output_format_for, pick_best_encoder, probe_args, probe_step, Codec, ProbeAction, ProbePoll,
    PROBE_TIMEOUT_NANOS,
};

#[test]
fn codec_names() {
    for (codec, format, name) in [
        (Codec::Hevc, "hevc", "hevc"),
        (Codec::H264, "h264", "h264"),
        (Codec::Vp9, "ivf", "vp9"),
    ] {
        assert_eq!(codec.output_format(), format);
        assert_eq!(codec.wire_name(), name);
        assert_eq!(Codec::parse_cli(name).unwrap(), codec);
    }
    assert_eq!(
        Codec::parse_cli("av1").unwrap_err().message,
        "unknown codec: av1 (expected hevc/h264/vp9)"
    );
    assert!(Codec::parse_cli("ivf").is_err());
    assert!(Codec::parse_cli("HEVC").is_err());
}

#[test]
fn order_of_preference() {
    let order = encoder_priority();
    assert_eq!(order.len(), 12);
    assert_eq!(order[0], (Codec::Hevc, "hevc_nvenc"));
    assert_eq!(order[4], (Codec::Hevc, "hevc_videotoolbox"));
    assert_eq!(order[5], (Codec::H264, "h264_nvenc"));
    assert_eq!(order[10], (Codec::H264, "libopenh264"));
    assert_eq!(order[11], (Codec::Vp9, "libvpx-vp9"));
    for (i, (codec, name)) in order.iter().enumerate() {
        assert_eq!(is_hardware_encoder(name), i < 10);
        assert_eq!(output_format_for(name), codec.output_format());
    }
    assert!(!is_hardware_encoder("nvenc"));
    assert!(!is_hardware_encoder("h264_nvenc2"));
    assert_eq!(output_format_for("libx264"), "ivf");
}

#[test]
fn compiled_encoders_are_listed() {
    let stdout = "Encoders:\n V..... = Video\n ------\n V....D libopenh264          OpenH264\n \
                  V....D hevc_nvenc           NVENC\r\n A....D aac                  AAC\n\
                  xx\n V...D short\n";
    assert_eq!(
        list_compiled_encoders(stdout),
        vec!["=", "libopenh264", "hevc_nvenc", "aac"]
    );
    assert!(list_compiled_encoders("").is_empty());
    assert_eq!(list_compiled_encoders("VFS..D"), Vec::<String>::new());
    assert_eq!(list_compiled_encoders("VFS..D "), vec![""]);
    assert_eq!(list_compiled_encoders("S..... dvb\tx"), vec!["dvb"]);
}

#[test]
fn trial_arguments() {
    assert_eq!(
        probe_args("h264_qsv", true),
        vec![
            "-hide_banner",
            "-loglevel",
            "error",
            "-filter_complex",
            "ddagrab=framerate=5[vout]",
            "-map",
            "[vout]",
            "-frames:v",
            "1",
            "-c:v",
            "h264_qsv",
            "-f",
            "h264",
            "-y",
            "NUL",
        ]
    );
    let software = probe_args("libvpx-vp9", false);
    assert_eq!(
        software[4],
        "ddagrab=framerate=5,format=bgra,format=yuv420p[vout]"
    );
    assert_eq!(software[12], "ivf");
    assert_eq!(software[14], "/dev/null");
}

#[test]
fn trial_steps() {
    assert_eq!(
        probe_step(ProbePoll::Exited(true), 0),
        ProbeAction::Answer(true)
    );
    assert_eq!(
        probe_step(ProbePoll::Exited(false), 0),
        ProbeAction::Answer(false)
    );
    assert_eq!(
        probe_step(ProbePoll::Failed, 0),
        ProbeAction::Answer(false)
    );
    assert_eq!(
        probe_step(ProbePoll::Running, PROBE_TIMEOUT_NANOS),
        ProbeAction::Wait
    );
    assert_eq!(
        probe_step(ProbePoll::Running, PROBE_TIMEOUT_NANOS + 1),
        ProbeAction::GiveUp
    );
}

fn compiled() -> Vec<String> {
    vec![
        "libvpx-vp9".to_string(),
        "libopenh264".to_string(),
        "h264_amf".to_string(),
        "hevc_amf".to_string(),
        "libx265".to_string(),
    ]
}

#[test]
fn best_encoder_is_the_first_that_works() {
    let tried = RefCell::new(Vec::new());
    let best = pick_best_encoder(&compiled(), None, |name: &str| {
        tried.borrow_mut().push(name.to_string());
        name == "libopenh264"
    });
    assert_eq!(best.unwrap(), (Codec::H264, "libopenh264".to_string()));
    assert_eq!(
        tried.into_inner(),
        vec!["hevc_amf", "h264_amf", "libopenh264"]
    );
    assert_eq!(
        pick_best_encoder(&compiled(), Some(Codec::Vp9), |_: &str| true).unwrap(),
        (Codec::Vp9, "libvpx-vp9".to_string())
    );
    assert_eq!(
        candidate_encoders(&compiled(), Some(Codec::H264)),
        vec![(Codec::H264, "h264_amf"), (Codec::H264, "libopenh264")]
    );
}

#[test]
fn no_encoder_messages() {
    let none = pick_best_encoder(&vec!["libx265".to_string()], None, |_: &str| true);
    assert_eq!(
        none.unwrap_err().message,
        "no usable encoder compiled into this ffmpeg build (checked: hevc_nvenc, hevc_amf, \
         hevc_qsv, hevc_vaapi, hevc_videotoolbox, h264_nvenc, h264_amf, h264_qsv, h264_vaapi, \
         h264_videotoolbox, libopenh264, libvpx-vp9)"
    );
    let broken = pick_best_encoder(&compiled(), Some(Codec::H264), |_: &str| false);
    assert_eq!(
        broken.unwrap_err().message,
        "no usable encoder found at runtime among compiled candidates: h264_amf, libopenh264"
    );
}
