use ffmpeg_caster::display::DisplayTarget;
use ffmpeg_caster::elevate::ElevationMode;
use ffmpeg_caster::encoder::{encoder_priority, is_hardware_encoder, Codec};
use ffmpeg_caster::error::Error;
use ffmpeg_caster::nal::FrameChunk;
use ffmpeg_caster::pipeline::{
    build_capture_input_args, encoder_args, ffmpeg_args, force_idr_message,
    idr_control_socket_path, idr_route, EncodeOptions, EncodedFrame, FrameKind, HwEncoderKind,
    tools_directory, IdrRoute, MonitorPipeline, Platform,
};

fn display() -> DisplayTarget {
    DisplayTarget {
        name: "\\\\.\\DISPLAY2".to_string(),
        width: 2560,
        height: 1440,
        adapter_output_idx: 3,
    }
}

#[test]
fn vendors_by_name() {
    let kind = HwEncoderKind::from_encoder_name;
    assert_eq!(kind("hevc_nvenc"), Some(HwEncoderKind::Nvenc));
    assert_eq!(kind("h264_amf"), Some(HwEncoderKind::Amf));
    assert_eq!(kind("hevc_qsv"), Some(HwEncoderKind::Qsv));
    assert_eq!(kind("h264_vaapi"), None);
    assert_eq!(kind("hevc_videotoolbox"), None);
    assert_eq!(kind("libopenh264"), None);
    assert_eq!(kind(""), None);
}

#[test]
fn default_options() {
    let options = EncodeOptions::<String>::default();
    assert_eq!(options.bitrate_kbps, 8_000);
    assert_eq!(options.elevation, ElevationMode::Normal);
    assert_eq!(ElevationMode::default(), ElevationMode::Normal);
    assert!(options.ffmpeg_stub_path.is_none());
    assert!(options.tools_dir.is_none());
}

#[test]
fn capture_arguments_by_platform() {
    assert_eq!(
        build_capture_input_args(
            Platform::Windows,
            &display(),
            Some(HwEncoderKind::Amf),
            None
        ),
        vec![
            "-filter_complex",
            "ddagrab=output_idx=3:framerate=75:video_size=2560x1440:dup_frames=false[vout]",
            "-map",
            "[vout]",
        ]
    );
    assert_eq!(
        build_capture_input_args(Platform::Windows, &display(), None, Some(":9"))[1],
        "ddagrab=output_idx=3:framerate=75:video_size=2560x1440:dup_frames=false,hwdownload,\
         format=bgra,format=yuv420p[vout]"
    );
    assert_eq!(
        build_capture_input_args(Platform::Linux, &display(), None, None),
        vec![
            "-f",
            "x11grab",
            "-video_size",
            "2560x1440",
            "-framerate",
            "60",
            "-i",
            ":0.0",
        ]
    );
    assert_eq!(
        build_capture_input_args(Platform::Linux, &display(), None, Some(":1"))[7],
        ":1"
    );
    assert_eq!(
        build_capture_input_args(Platform::MacOs, &display(), None, None),
        vec![
            "-f",
            "avfoundation",
            "-video_size",
            "2560x1440",
            "-framerate",
            "60",
            "-capture_cursor",
            "1",
            "-i",
            "3:none",
        ]
    );
}

#[test]
fn encoder_arguments_in_full() {
    assert_eq!(
        encoder_args(Codec::Hevc, Some(HwEncoderKind::Nvenc), 8000),
        vec![
            "-c:v", "hevc_nvenc", "-preset", "p1", "-tune", "ull", "-profile:v", "main", "-g",
            "5184000", "-bf", "0", "-forced-idr", "1", "-rc-lookahead", "0", "-delay", "0",
            "-zerolatency", "1", "-rc", "cbr", "-b:v", "8000k", "-maxrate", "8000k", "-bufsize",
            "133k", "-intra-refresh", "1", "-spatial-aq", "1", "-aq-strength", "8",
        ]
    );
    assert_eq!(
        encoder_args(Codec::H264, Some(HwEncoderKind::Amf), 59),
        vec![
            "-c:v", "h264_amf", "-usage", "ultralowlatency", "-profile:v", "baseline", "-g",
            "5184000", "-bf", "0", "-rc", "cbr", "-b:v", "59k", "-maxrate", "59k", "-bufsize",
            "1k",
        ]
    );
    assert_eq!(
        encoder_args(Codec::Hevc, Some(HwEncoderKind::Qsv), 120),
        vec![
            "-c:v", "hevc_qsv", "-preset", "veryfast", "-profile:v", "main", "-g", "5184000",
            "-bf", "0", "-low_delay_brc", "1", "-look_ahead", "cbr", "-b:v", "120k", "-maxrate",
            "120k", "-bufsize", "2k",
        ]
    );
    assert_eq!(
        encoder_args(Codec::H264, None, 500),
        vec![
            "-c:v", "libopenh264", "-profile:v", "main", "-g", "5184000", "-bf", "0", "-rc_mode",
            "bitrate", "-allow_skip_frames", "1", "-b:v", "500k", "-maxrate", "500k",
        ]
    );
    for hw in [None, Some(HwEncoderKind::Qsv)] {
        assert_eq!(
            encoder_args(Codec::Vp9, hw, 500),
            vec!["-c:v", "libvpx-vp9", "-b:v", "500k"]
        );
    }
    assert_eq!(
        encoder_args(Codec::H264, Some(HwEncoderKind::Nvenc), 1)[7],
        "baseline"
    );
    assert_eq!(
        encoder_args(Codec::Hevc, Some(HwEncoderKind::Amf), 1)[5],
        "main"
    );
    assert_eq!(
        encoder_args(Codec::H264, Some(HwEncoderKind::Qsv), 0)[19],
        "1k"
    );
}

#[test]
fn arguments_name_the_chosen_encoder() {
    for (codec, name) in encoder_priority() {
        let kind = HwEncoderKind::from_encoder_name(name);
        if kind.is_some() || !is_hardware_encoder(name) {
            let args = encoder_args(codec, kind, 1000);
            assert_eq!(args[0], "-c:v");
            assert_eq!(args[1], name);
        }
    }
}

#[test]
fn all_arguments() {
    let args = ffmpeg_args(
        Platform::Linux,
        &display(),
        Codec::H264,
        None,
        500,
        Some(":7"),
        "/tmp/x.sock",
        4711,
    );
    let tail: Vec<&str> = args[args.len() - 5..].iter().map(|s| s.as_str()).collect();
    assert_eq!(
        tail,
        vec![
            "-idr_control_socket",
            "/tmp/x.sock",
            "-f",
            "h264",
            "tcp://127.0.0.1:4711?tcp_nodelay=1&send_buffer_size=65536",
        ]
    );
    assert_eq!(args[8..12], ["-vf", "format=yuv420p", "-r", "60"]);
    assert_eq!(args[12], "-c:v");
    assert_eq!(args.len(), 8 + 4 + 16 + 5);
    let windows = ffmpeg_args(
        Platform::Windows,
        &display(),
        Codec::Vp9,
        None,
        500,
        None,
        "p",
        1,
    );
    assert_eq!(windows[4], "-c:v");
    assert_eq!(windows[windows.len() - 2], "ivf");
    assert_eq!(windows.len(), 4 + 4 + 5);
}

#[test]
fn control_sockets() {
    assert_eq!(
        idr_control_socket_path(50123, true, |_: &str| panic!("no temporary file")),
        "\\\\.\\pipe\\ffmpeg-caster-idr-50123"
    );
    assert_eq!(
        idr_control_socket_path(50123, false, |name: &str| format!("/tmp/{name}")),
        "/tmp/ffmpeg-caster-idr-50123.sock"
    );
    assert_eq!(force_idr_message(), b"force_idr\n");
    assert_eq!(idr_route(true, true), IdrRoute::Relay);
    assert_eq!(idr_route(true, false), IdrRoute::Socket);
    assert_eq!(idr_route(false, true), IdrRoute::Socket);
    assert_eq!(idr_route(false, false), IdrRoute::Socket);
}

#[test]
fn frames_are_handed_out_with_their_kind() {
    let key = EncodedFrame::from_chunk(FrameChunk {
        payload: vec![1, 2],
        is_key: true,
    });
    assert_eq!(key.kind, FrameKind::Key);
    assert_eq!(key.payload, vec![1, 2]);
    let copy = key.clone();
    assert_eq!(copy.payload, key.payload);
    let delta = EncodedFrame::from_chunk(FrameChunk {
        payload: vec![],
        is_key: false,
    });
    assert_eq!(delta.kind, FrameKind::Delta);
}

#[test]
fn a_pipeline_starts_once_and_stops() {
    let mut pipeline: MonitorPipeline<&str, u32> = MonitorPipeline::new(
        "ffmpeg",
        display(),
        Codec::Hevc,
        Some("hevc_qsv".to_string()),
        EncodeOptions::default(),
    );
    assert_eq!(pipeline.hw_encoder, Some(HwEncoderKind::Qsv));
    assert_eq!(pipeline.ffmpeg_path, "ffmpeg");
    assert_eq!(pipeline.stop(), None);
    assert!(pipeline.start().is_ok());
    let failed = pipeline.started(Err(Error::new("no port")));
    assert_eq!(failed.unwrap_err().message, "no port");
    assert!(pipeline.start().is_ok());
    assert!(pipeline.started(Ok(17)).is_ok());
    assert_eq!(
        pipeline.start().unwrap_err().message,
        "pipeline already started"
    );
    assert_eq!(pipeline.stop(), Some(17));
    assert_eq!(pipeline.stop(), None);
    assert!(pipeline.start().is_ok());
}

#[test]
fn the_splitter_fits_the_codec() {
    let mut idr = vec![0, 0, 1, 19 << 1, 1];
    idr.extend_from_slice(&[0, 0, 1, 35 << 1, 0, 0, 1, 35 << 1]);
    let make = |codec| -> MonitorPipeline<&str, ()> {
        MonitorPipeline::new("f", display(), codec, None, EncodeOptions::default())
    };
    assert!(make(Codec::Hevc).hw_encoder.is_none());
    assert_eq!(make(Codec::Hevc).splitter().push(&idr).len(), 1);
    assert_eq!(make(Codec::H264).splitter().push(&idr).len(), 0);
}

#[test]
fn pipelines_do_not_share_a_socket() {
    let in_tmp = |name: &str| format!("/tmp/{name}");
    for windows in [true, false] {
        assert_ne!(
            idr_control_socket_path(1, windows, in_tmp),
            idr_control_socket_path(11, windows, in_tmp)
        );
    }
}

#[test]
fn tools_have_a_directory() {
    let given = tools_directory(Some("tools"), || panic!("not asked for"));
    assert_eq!(given.base, "tools");
    assert!(given.names.is_empty());
    let found = tools_directory(None, || "/tmp");
    assert_eq!(found.base, "/tmp");
    assert_eq!(found.names, vec!["ffmpeg-caster-tools"]);
}
