//! The encoding pipeline of one display: what it captures, how ffmpeg is
//! called for it, and the order of its life.
//!
//! A pipeline is made first, gets its callbacks, and is started only then, so
//! that no frame is missed.
use vstd::prelude::*;
use vstd::string::*;

use crate::display::{DisplayTarget, TargetView};
use crate::elevate::ElevationMode;
use crate::encoder;
use crate::encoder::Codec;
use crate::error::Error;
use crate::nal::{FrameChunk, FrameView, NalSplitter};
use crate::paths::Under;
use crate::text;

verus! {

/// The frame rate that key frame distance, buffer size and the frame rate of
/// capture devices are reckoned with. It limits nothing.
pub const ENCODER_BASELINE_FPS: u32 = 60;

/// The highest rate at which `ddagrab` may take frames.
pub const DDAGRAB_MAX_FPS: u32 = 75;

#[derive(Debug, Clone, Copy, PartialEq, Eq, Structural)]
pub enum FrameKind {
    Key,
    Delta,
}

/// One encoded frame: an access unit in Annex-B form.
#[derive(Debug)]
pub struct EncodedFrame {
    pub kind: FrameKind,
    pub payload: Vec<u8>,
}

/// An encoded frame in the model.
#[verifier::ext_equal]
pub struct EncodedView {
    pub kind: FrameKind,
    pub payload: Seq<u8>,
}

impl View for EncodedFrame {
    type V = EncodedView;

    open spec fn view(&self) -> EncodedView {
        EncodedView { kind: self.kind, payload: self.payload@ }
    }
}

impl Clone for EncodedFrame {
    fn clone(&self) -> (r: Self)
        ensures
            r@ == self@,
    {
        EncodedFrame {
            kind: self.kind,
            payload: vstd::slice::slice_to_vec(self.payload.as_slice()),
        }
    }
}

/// The frame that is handed out for a frame of the splitter.
pub open spec fn handed_out(frame: FrameView) -> EncodedView {
    EncodedView {
        kind: if frame.is_key {
            FrameKind::Key
        } else {
            FrameKind::Delta
        },
        payload: frame.payload,
    }
}

impl EncodedFrame {
    /// The frame that is handed out for a frame of the splitter.
    pub fn from_chunk(chunk: FrameChunk) -> (r: EncodedFrame)
        ensures
            r@ == handed_out(chunk@),
    {
        let kind = if chunk.is_key {
            FrameKind::Key
        } else {
            FrameKind::Delta
        };
        EncodedFrame { kind, payload: chunk.payload }
    }
}

/// The vendor of a hardware encoder.
#[derive(Debug, Clone, Copy, PartialEq, Eq, Structural)]
pub enum HwEncoderKind {
    Nvenc,
    Amf,
    Qsv,
}

/// The vendor that an encoder's name tells.
pub open spec fn vendor(name: Seq<char>) -> Option<HwEncoderKind> {
    if "_nvenc"@.is_suffix_of(name) {
        Some(HwEncoderKind::Nvenc)
    } else if "_amf"@.is_suffix_of(name) {
        Some(HwEncoderKind::Amf)
    } else if "_qsv"@.is_suffix_of(name) {
        Some(HwEncoderKind::Qsv)
    } else {
        None
    }
}

impl HwEncoderKind {
    /// The vendor that an encoder's name tells.
    pub fn from_encoder_name(name: &str) -> (r: Option<Self>)
        ensures
            r == vendor(name@),
    {
        if text::ends_with(name, "_nvenc") {
            Some(HwEncoderKind::Nvenc)
        } else if text::ends_with(name, "_amf") {
            Some(HwEncoderKind::Amf)
        } else if text::ends_with(name, "_qsv") {
            Some(HwEncoderKind::Qsv)
        } else {
            None
        }
    }
}

/// How to encode. `P` is the type of file paths.
#[derive(Debug)]
pub struct EncodeOptions<P> {
    pub bitrate_kbps: u32,
    pub elevation: ElevationMode,
    /// A stub to use in place of the embedded one.
    pub ffmpeg_stub_path: Option<P>,
    /// Where the tools for the elevated start are put.
    pub tools_dir: Option<P>,
}

/// Where the tools for the elevated start are put where no directory is given
/// for them, below the directory for temporary files.
pub open spec fn default_tools_path() -> Seq<Seq<char>> {
    seq!["ffmpeg-caster-tools"@]
}

/// Where the tools for the elevated start are put: in the given directory, or
/// else in one of their own below the directory for temporary files, which
/// `temp_dir` finds.
pub fn tools_directory<P, D: FnOnce() -> P>(given: Option<P>, temp_dir: D) -> (r: Under<P>)
    requires
        given is None ==> call_requires(temp_dir, ()),
    ensures
        match given {
            Some(dir) => r.leads(dir, Seq::empty()),
            None => exists|temp: P| #[trigger]
                call_ensures(temp_dir, (), temp) && r.leads(temp, default_tools_path()),
        },
{
    match given {
        Some(dir) => {
            let names: Vec<&str> = Vec::new();
            assert(text::str_texts(names@) =~= Seq::empty());
            Under::new(dir, names)
        },
        None => {
            let names = vec!["ffmpeg-caster-tools"];
            assert(text::str_texts(names@) =~= default_tools_path());
            Under::new(temp_dir(), names)
        },
    }
}

impl<P> Default for EncodeOptions<P> {
    fn default() -> (r: Self)
        ensures
            r.bitrate_kbps == 8_000,
            r.elevation == ElevationMode::Normal,
            r.ffmpeg_stub_path is None,
            r.tools_dir is None,
    {
        EncodeOptions {
            bitrate_kbps: 8_000,
            elevation: ElevationMode::Normal,
            ffmpeg_stub_path: None,
            tools_dir: None,
        }
    }
}

impl<P: Clone> Clone for EncodeOptions<P> {
    fn clone(&self) -> (r: Self)
        ensures
            r.bitrate_kbps == self.bitrate_kbps,
            r.elevation == self.elevation,
            cloned::<Option<P>>(self.ffmpeg_stub_path, r.ffmpeg_stub_path),
            cloned::<Option<P>>(self.tools_dir, r.tools_dir),
    {
        EncodeOptions {
            bitrate_kbps: self.bitrate_kbps,
            elevation: self.elevation,
            ffmpeg_stub_path: self.ffmpeg_stub_path.clone(),
            tools_dir: self.tools_dir.clone(),
        }
    }
}

// ---------------------------------------------------------------------------
// The arguments of ffmpeg
// ---------------------------------------------------------------------------

#[derive(Debug, Clone, Copy, PartialEq, Eq, Structural)]
pub enum Platform {
    Windows,
    Linux,
    MacOs,
    Other,
}

/// A size as ffmpeg takes it.
pub open spec fn size_text(width: u32, height: u32) -> Seq<char> {
    text::decimal(width as nat) + "x"@ + text::decimal(height as nat)
}

/// The source filter for desktop duplication.
pub open spec fn ddagrab_text(display: TargetView) -> Seq<char> {
    "ddagrab=output_idx="@ + text::decimal(display.adapter_output_idx as nat) + ":framerate="@
        + text::decimal(DDAGRAB_MAX_FPS as nat) + ":video_size="@ + size_text(
        display.width,
        display.height,
    ) + ":dup_frames=false"@
}

/// The input arguments for a display. Only desktop duplication gives frames in
/// the memory of the graphics adapter, from which they are fetched for an
/// encoder that runs on the CPU.
pub open spec fn capture_arguments(
    platform: Platform,
    display: TargetView,
    hw: Option<HwEncoderKind>,
    x11_display: Option<Seq<char>>,
) -> Seq<Seq<char>> {
    match platform {
        Platform::Windows => seq![
            "-filter_complex"@,
            ddagrab_text(display) + if hw is Some {
                "[vout]"@
            } else {
                ",hwdownload,format=bgra,format=yuv420p[vout]"@
            },
            "-map"@,
            "[vout]"@,
        ],
        Platform::Linux => seq![
            "-f"@,
            "x11grab"@,
            "-video_size"@,
            size_text(display.width, display.height),
            "-framerate"@,
            text::decimal(ENCODER_BASELINE_FPS as nat),
            "-i"@,
            match x11_display {
                Some(d) => d,
                None => ":0.0"@,
            },
        ],
        Platform::MacOs => seq![
            "-f"@,
            "avfoundation"@,
            "-video_size"@,
            size_text(display.width, display.height),
            "-framerate"@,
            text::decimal(ENCODER_BASELINE_FPS as nat),
            "-capture_cursor"@,
            "1"@,
            "-i"@,
            text::decimal(display.adapter_output_idx as nat) + ":none"@,
        ],
        Platform::Other => Seq::empty(),
    }
}

fn push_size(out: &mut String, display: &DisplayTarget)
    ensures
        final(out)@ == old(out)@ + size_text(display.width, display.height),
{
    text::push_decimal(out, display.width as u64);
    out.append("x");
    text::push_decimal(out, display.height as u64);
    assert(out@ =~= old(out)@ + size_text(display.width, display.height));
}

/// The input arguments of ffmpeg for a display. `x11_display` is the value of
/// `DISPLAY`, where it is set.
pub fn build_capture_input_args(
    platform: Platform,
    display: &DisplayTarget,
    hw_encoder: Option<HwEncoderKind>,
    x11_display: Option<&str>,
) -> (r: Vec<String>)
    requires
        platform != Platform::Other,
    ensures
        text::texts(r@) == capture_arguments(
            platform,
            display@,
            hw_encoder,
            match x11_display {
                Some(d) => Some(d@),
                None => None,
            },
        ),
{
    let mut args: Vec<String> = Vec::new();
    let ghost expected = capture_arguments(
        platform,
        display@,
        hw_encoder,
        match x11_display {
            Some(d) => Some(d@),
            None => None,
        },
    );
    match platform {
        Platform::Windows => {
            let mut filter = "ddagrab=output_idx=".to_owned();
            text::push_decimal(&mut filter, display.adapter_output_idx as u64);
            filter.append(":framerate=");
            text::push_decimal(&mut filter, DDAGRAB_MAX_FPS as u64);
            filter.append(":video_size=");
            push_size(&mut filter, display);
            filter.append(":dup_frames=false");
            assert(filter@ =~= ddagrab_text(display@));
            if hw_encoder.is_some() {
                filter.append("[vout]");
            } else {
                filter.append(",hwdownload,format=bgra,format=yuv420p[vout]");
            }
            let items = vec!["-filter_complex", filter.as_str(), "-map", "[vout]"];
            assert(text::str_texts(items@) =~= expected);
            text::push_all(&mut args, items);
        },
        Platform::Linux => {
            let mut size = String::new();
            push_size(&mut size, display);
            assert(size@ =~= size_text(display.width, display.height));
            let rate = text::to_decimal(ENCODER_BASELINE_FPS as u64);
            let input = match x11_display {
                Some(d) => d,
                None => ":0.0",
            };
            let items = vec![
                "-f",
                "x11grab",
                "-video_size",
                size.as_str(),
                "-framerate",
                rate.as_str(),
                "-i",
                input,
            ];
            assert(text::str_texts(items@) =~= expected);
            text::push_all(&mut args, items);
        },
        Platform::MacOs => {
            let mut size = String::new();
            push_size(&mut size, display);
            assert(size@ =~= size_text(display.width, display.height));
            let rate = text::to_decimal(ENCODER_BASELINE_FPS as u64);
            let mut input = text::to_decimal(display.adapter_output_idx as u64);
            input.append(":none");
            let items = vec![
                "-f",
                "avfoundation",
                "-video_size",
                size.as_str(),
                "-framerate",
                rate.as_str(),
                "-capture_cursor",
                "1",
                "-i",
                input.as_str(),
            ];
            assert(text::str_texts(items@) =~= expected);
            text::push_all(&mut args, items);
        },
        Platform::Other => {},
    }
    assert(text::texts(args@) =~= expected);
    args
}

/// The distance between key frames: a day of frames, as key frames come on
/// request.
pub open spec fn gop_text() -> Seq<char> {
    text::decimal((ENCODER_BASELINE_FPS * 60 * 60 * 24) as nat)
}

/// A rate in kilobits.
pub open spec fn kilobits(n: nat) -> Seq<char> {
    text::decimal(n) + "k"@
}

/// The buffer holds the bits of one frame, and at least one kilobit.
pub open spec fn buffer_kbps(bitrate_kbps: u32) -> nat {
    if bitrate_kbps / ENCODER_BASELINE_FPS > 1 {
        (bitrate_kbps / ENCODER_BASELINE_FPS) as nat
    } else {
        1
    }
}

/// A constant bit rate, switched on by `flag`.
pub open spec fn rate_control(flag: Seq<char>, bitrate_kbps: u32) -> Seq<Seq<char>> {
    seq![
        flag,
        "cbr"@,
        "-b:v"@,
        kilobits(bitrate_kbps as nat),
        "-maxrate"@,
        kilobits(bitrate_kbps as nat),
        "-bufsize"@,
        kilobits(buffer_kbps(bitrate_kbps)),
    ]
}

pub open spec fn nvenc_arguments(
    name: Seq<char>,
    profile: Seq<char>,
    bitrate_kbps: u32,
) -> Seq<Seq<char>> {
    seq![
        "-c:v"@,
        name,
        "-preset"@,
        "p1"@,
        "-tune"@,
        "ull"@,
        "-profile:v"@,
        profile,
        "-g"@,
        gop_text(),
        "-bf"@,
        "0"@,
        "-forced-idr"@,
        "1"@,
        "-rc-lookahead"@,
        "0"@,
        "-delay"@,
        "0"@,
        "-zerolatency"@,
        "1"@,
    ] + rate_control("-rc"@, bitrate_kbps) + seq![
        "-intra-refresh"@,
        "1"@,
        "-spatial-aq"@,
        "1"@,
        "-aq-strength"@,
        "8"@,
    ]
}

pub open spec fn amf_arguments(
    name: Seq<char>,
    profile: Seq<char>,
    bitrate_kbps: u32,
) -> Seq<Seq<char>> {
    seq![
        "-c:v"@,
        name,
        "-usage"@,
        "ultralowlatency"@,
        "-profile:v"@,
        profile,
        "-g"@,
        gop_text(),
        "-bf"@,
        "0"@,
    ] + rate_control("-rc"@, bitrate_kbps)
}

pub open spec fn qsv_arguments(
    name: Seq<char>,
    profile: Seq<char>,
    bitrate_kbps: u32,
) -> Seq<Seq<char>> {
    seq![
        "-c:v"@,
        name,
        "-preset"@,
        "veryfast"@,
        "-profile:v"@,
        profile,
        "-g"@,
        gop_text(),
        "-bf"@,
        "0"@,
        "-low_delay_brc"@,
        "1"@,
    ] + rate_control("-look_ahead"@, bitrate_kbps)
}

pub open spec fn openh264_arguments(bitrate_kbps: u32) -> Seq<Seq<char>> {
    seq![
        "-c:v"@,
        "libopenh264"@,
        "-profile:v"@,
        "main"@,
        "-g"@,
        gop_text(),
        "-bf"@,
        "0"@,
        "-rc_mode"@,
        "bitrate"@,
        "-allow_skip_frames"@,
        "1"@,
        "-b:v"@,
        kilobits(bitrate_kbps as nat),
        "-maxrate"@,
        kilobits(bitrate_kbps as nat),
    ]
}

pub open spec fn vp9_arguments(bitrate_kbps: u32) -> Seq<Seq<char>> {
    seq!["-c:v"@, "libvpx-vp9"@, "-b:v"@, kilobits(bitrate_kbps as nat)]
}

/// The arguments that choose and set up the encoder.
pub open spec fn encoder_arguments(
    codec: Codec,
    hw: Option<HwEncoderKind>,
    bitrate_kbps: u32,
) -> Seq<Seq<char>> {
    match (codec, hw) {
        (Codec::Hevc, Some(HwEncoderKind::Nvenc)) => nvenc_arguments(
            "hevc_nvenc"@,
            "main"@,
            bitrate_kbps,
        ),
        (Codec::H264, Some(HwEncoderKind::Nvenc)) => nvenc_arguments(
            "h264_nvenc"@,
            "baseline"@,
            bitrate_kbps,
        ),
        (Codec::Hevc, Some(HwEncoderKind::Amf)) => amf_arguments(
            "hevc_amf"@,
            "main"@,
            bitrate_kbps,
        ),
        (Codec::H264, Some(HwEncoderKind::Amf)) => amf_arguments(
            "h264_amf"@,
            "baseline"@,
            bitrate_kbps,
        ),
        (Codec::Hevc, Some(HwEncoderKind::Qsv)) => qsv_arguments(
            "hevc_qsv"@,
            "main"@,
            bitrate_kbps,
        ),
        (Codec::H264, Some(HwEncoderKind::Qsv)) => qsv_arguments(
            "h264_qsv"@,
            "baseline"@,
            bitrate_kbps,
        ),
        (Codec::H264, None) => openh264_arguments(bitrate_kbps),
        (Codec::Vp9, _) => vp9_arguments(bitrate_kbps),
        (Codec::Hevc, None) => Seq::empty(),
    }
}

/// There is no HEVC encoder for the CPU.
pub open spec fn encodable(codec: Codec, hw: Option<HwEncoderKind>) -> bool {
    !(codec == Codec::Hevc && hw is None)
}

fn kilobits_of(n: u32) -> (r: String)
    ensures
        r@ == kilobits(n as nat),
{
    let mut r = text::to_decimal(n as u64);
    r.append("k");
    r
}

fn gop() -> (r: String)
    ensures
        r@ == gop_text(),
{
    text::to_decimal(ENCODER_BASELINE_FPS as u64 * 60 * 60 * 24)
}

fn push_rate_control(args: &mut Vec<String>, flag: &str, bitrate_kbps: u32)
    ensures
        text::texts(final(args)@) == text::texts(old(args)@) + rate_control(flag@, bitrate_kbps),
{
    let frame: u32 = bitrate_kbps / ENCODER_BASELINE_FPS;
    let buffer: u32 = if frame > 1 {
        frame
    } else {
        1
    };
    let rate = kilobits_of(bitrate_kbps);
    let size = kilobits_of(buffer);
    let items = vec![
        flag,
        "cbr",
        "-b:v",
        rate.as_str(),
        "-maxrate",
        rate.as_str(),
        "-bufsize",
        size.as_str(),
    ];
    assert(text::str_texts(items@) =~= rate_control(flag@, bitrate_kbps));
    text::push_all(args, items);
}

fn nvenc_args(name: &str, profile: &str, bitrate_kbps: u32) -> (r: Vec<String>)
    ensures
        text::texts(r@) == nvenc_arguments(name@, profile@, bitrate_kbps),
{
    let gop = gop();
    let mut args: Vec<String> = Vec::new();
    let head = vec![
        "-c:v",
        name,
        "-preset",
        "p1",
        "-tune",
        "ull",
        "-profile:v",
        profile,
        "-g",
        gop.as_str(),
        "-bf",
        "0",
        "-forced-idr",
        "1",
        "-rc-lookahead",
        "0",
        "-delay",
        "0",
        "-zerolatency",
        "1",
    ];
    let ghost head_view = text::str_texts(head@);
    text::push_all(&mut args, head);
    push_rate_control(&mut args, "-rc", bitrate_kbps);
    let tail = vec!["-intra-refresh", "1", "-spatial-aq", "1", "-aq-strength", "8"];
    let ghost tail_view = text::str_texts(tail@);
    text::push_all(&mut args, tail);
    assert(text::texts(args@) =~= head_view + rate_control("-rc"@, bitrate_kbps) + tail_view);
    assert(text::texts(args@) =~= nvenc_arguments(name@, profile@, bitrate_kbps));
    args
}

fn amf_args(name: &str, profile: &str, bitrate_kbps: u32) -> (r: Vec<String>)
    ensures
        text::texts(r@) == amf_arguments(name@, profile@, bitrate_kbps),
{
    let gop = gop();
    let mut args: Vec<String> = Vec::new();
    let head = vec![
        "-c:v",
        name,
        "-usage",
        "ultralowlatency",
        "-profile:v",
        profile,
        "-g",
        gop.as_str(),
        "-bf",
        "0",
    ];
    text::push_all(&mut args, head);
    push_rate_control(&mut args, "-rc", bitrate_kbps);
    assert(text::texts(args@) =~= amf_arguments(name@, profile@, bitrate_kbps));
    args
}

fn qsv_args(name: &str, profile: &str, bitrate_kbps: u32) -> (r: Vec<String>)
    ensures
        text::texts(r@) == qsv_arguments(name@, profile@, bitrate_kbps),
{
    let gop = gop();
    let mut args: Vec<String> = Vec::new();
    let head = vec![
        "-c:v",
        name,
        "-preset",
        "veryfast",
        "-profile:v",
        profile,
        "-g",
        gop.as_str(),
        "-bf",
        "0",
        "-low_delay_brc",
        "1",
    ];
    text::push_all(&mut args, head);
    push_rate_control(&mut args, "-look_ahead", bitrate_kbps);
    assert(text::texts(args@) =~= qsv_arguments(name@, profile@, bitrate_kbps));
    args
}

fn openh264_args(bitrate_kbps: u32) -> (r: Vec<String>)
    ensures
        text::texts(r@) == openh264_arguments(bitrate_kbps),
{
    let gop = gop();
    let rate = kilobits_of(bitrate_kbps);
    let mut args: Vec<String> = Vec::new();
    let items = vec![
        "-c:v",
        "libopenh264",
        "-profile:v",
        "main",
        "-g",
        gop.as_str(),
        "-bf",
        "0",
        "-rc_mode",
        "bitrate",
        "-allow_skip_frames",
        "1",
        "-b:v",
        rate.as_str(),
        "-maxrate",
        rate.as_str(),
    ];
    text::push_all(&mut args, items);
    assert(text::texts(args@) =~= openh264_arguments(bitrate_kbps));
    args
}

fn vp9_args(bitrate_kbps: u32) -> (r: Vec<String>)
    ensures
        text::texts(r@) == vp9_arguments(bitrate_kbps),
{
    let rate = kilobits_of(bitrate_kbps);
    let mut args: Vec<String> = Vec::new();
    text::push_all(&mut args, vec!["-c:v", "libvpx-vp9", "-b:v", rate.as_str()]);
    assert(text::texts(args@) =~= vp9_arguments(bitrate_kbps));
    args
}

/// The arguments that choose and set up the encoder.
pub fn encoder_args(codec: Codec, hw: Option<HwEncoderKind>, bitrate_kbps: u32) -> (r: Vec<String>)
    requires
        encodable(codec, hw),
    ensures
        text::texts(r@) == encoder_arguments(codec, hw, bitrate_kbps),
{
    match (codec, hw) {
        (Codec::Hevc, Some(HwEncoderKind::Nvenc)) => nvenc_args(
            "hevc_nvenc",
            "main",
            bitrate_kbps,
        ),
        (Codec::H264, Some(HwEncoderKind::Nvenc)) => nvenc_args(
            "h264_nvenc",
            "baseline",
            bitrate_kbps,
        ),
        (Codec::Hevc, Some(HwEncoderKind::Amf)) => amf_args("hevc_amf", "main", bitrate_kbps),
        (Codec::H264, Some(HwEncoderKind::Amf)) => amf_args("h264_amf", "baseline", bitrate_kbps),
        (Codec::Hevc, Some(HwEncoderKind::Qsv)) => qsv_args("hevc_qsv", "main", bitrate_kbps),
        (Codec::H264, Some(HwEncoderKind::Qsv)) => qsv_args("h264_qsv", "baseline", bitrate_kbps),
        (Codec::H264, None) => openh264_args(bitrate_kbps),
        (Codec::Vp9, _) => vp9_args(bitrate_kbps),
        (Codec::Hevc, None) => {
            assert(false);
            Vec::new()
        },
    }
}

/// The conversion and frame rate that go between capture and encoder where the
/// capture device does not set them.
pub open spec fn filter_arguments(platform: Platform) -> Seq<Seq<char>> {
    match platform {
        Platform::Linux | Platform::MacOs => seq![
            "-vf"@,
            "format=yuv420p"@,
            "-r"@,
            text::decimal(ENCODER_BASELINE_FPS as nat),
        ],
        _ => Seq::empty(),
    }
}

/// Where ffmpeg sends the encoded stream.
pub open spec fn output_url(port: u16) -> Seq<char> {
    "tcp://127.0.0.1:"@ + text::decimal(port as nat) + "?tcp_nodelay=1&send_buffer_size=65536"@
}

/// All arguments of ffmpeg: capture, conversion, encoder, the control socket
/// for key frames, and the output.
pub open spec fn ffmpeg_arguments(
    platform: Platform,
    display: TargetView,
    codec: Codec,
    hw: Option<HwEncoderKind>,
    bitrate_kbps: u32,
    x11_display: Option<Seq<char>>,
    idr_control_path: Seq<char>,
    port: u16,
) -> Seq<Seq<char>> {
    capture_arguments(platform, display, hw, x11_display) + filter_arguments(platform)
        + encoder_arguments(codec, hw, bitrate_kbps) + seq![
        "-idr_control_socket"@,
        idr_control_path,
        "-f"@,
        codec.format_text(),
        output_url(port),
    ]
}

/// All arguments of ffmpeg for a pipeline whose output goes to `port`.
pub fn ffmpeg_args(
    platform: Platform,
    display: &DisplayTarget,
    codec: Codec,
    hw_encoder: Option<HwEncoderKind>,
    bitrate_kbps: u32,
    x11_display: Option<&str>,
    idr_control_path: &str,
    port: u16,
) -> (r: Vec<String>)
    requires
        platform != Platform::Other,
        encodable(codec, hw_encoder),
    ensures
        text::texts(r@) == ffmpeg_arguments(
            platform,
            display@,
            codec,
            hw_encoder,
            bitrate_kbps,
            match x11_display {
                Some(d) => Some(d@),
                None => None,
            },
            idr_control_path@,
            port,
        ),
{
    let mut args = build_capture_input_args(platform, display, hw_encoder, x11_display);
    let ghost capture = text::texts(args@);
    match platform {
        Platform::Linux | Platform::MacOs => {
            let rate = text::to_decimal(ENCODER_BASELINE_FPS as u64);
            text::push_all(&mut args, vec!["-vf", "format=yuv420p", "-r", rate.as_str()]);
        },
        _ => {},
    }
    assert(text::texts(args@) =~= capture + filter_arguments(platform));
    let mut encoder = encoder_args(codec, hw_encoder, bitrate_kbps);
    let ghost before = args@;
    let ghost chosen = encoder@;
    args.append(&mut encoder);
    assert(text::texts(args@) =~= text::texts(before) + text::texts(chosen));
    let mut url = "tcp://127.0.0.1:".to_owned();
    text::push_decimal(&mut url, port as u64);
    url.append("?tcp_nodelay=1&send_buffer_size=65536");
    assert(url@ =~= output_url(port));
    let tail = vec![
        "-idr_control_socket",
        idr_control_path,
        "-f",
        codec.output_format(),
        url.as_str(),
    ];
    let ghost last = text::str_texts(tail@);
    assert(last =~= seq![
        "-idr_control_socket"@,
        idr_control_path@,
        "-f"@,
        codec.format_text(),
        output_url(port),
    ]);
    text::push_all(&mut args, tail);
    args
}

// ---------------------------------------------------------------------------
// Key frames on request
// ---------------------------------------------------------------------------

/// The named pipe of ffmpeg's control socket on Windows.
pub open spec fn idr_pipe(port: u16) -> Seq<char> {
    "\\\\.\\pipe\\ffmpeg-caster-idr-"@ + text::decimal(port as nat)
}

/// The file name of ffmpeg's control socket elsewhere.
pub open spec fn idr_socket_name(port: u16) -> Seq<char> {
    "ffmpeg-caster-idr-"@ + text::decimal(port as nat) + ".sock"@
}

/// The path of ffmpeg's control socket. It is told apart from those of other
/// pipelines by the output port. `in_temp_dir` gives the path of a file in the
/// directory for temporary files.
pub fn idr_control_socket_path<F: FnOnce(&str) -> String>(
    output_tcp_port: u16,
    windows: bool,
    in_temp_dir: F,
) -> (r: String)
    requires
        forall|name: &str|
            !windows && name@ == idr_socket_name(output_tcp_port) ==> #[trigger] call_requires(
                in_temp_dir,
                (name,),
            ),
    ensures
        windows ==> r@ == idr_pipe(output_tcp_port),
        !windows ==> exists|name: &str|
            name@ == idr_socket_name(output_tcp_port) && #[trigger] call_ensures(
                in_temp_dir,
                (name,),
                r,
            ),
{
    if windows {
        let mut path = "\\\\.\\pipe\\ffmpeg-caster-idr-".to_owned();
        text::push_decimal(&mut path, output_tcp_port as u64);
        path
    } else {
        let mut name = "ffmpeg-caster-idr-".to_owned();
        text::push_decimal(&mut name, output_tcp_port as u64);
        name.append(".sock");
        in_temp_dir(name.as_str())
    }
}

/// What is written to ask ffmpeg for a key frame: `force_idr` and a newline.
pub fn force_idr_message() -> (r: Vec<u8>)
    ensures
        r@ == seq![102u8, 111, 114, 99, 101, 95, 105, 100, 114, 10],
{
    let r: Vec<u8> = vec![102, 111, 114, 99, 101, 95, 105, 100, 114, 10];
    assert(r@ =~= seq![102u8, 111, 114, 99, 101, 95, 105, 100, 114, 10]);
    r
}

/// Over what ffmpeg is asked for a key frame.
#[derive(Debug, Clone, Copy, PartialEq, Eq, Structural)]
pub enum IdrRoute {
    /// Over the connection of the stub, which passes it on.
    Relay,
    /// Over the control socket itself.
    Socket,
}

/// The route of a key frame request. A stub runs on Windows only; it has the
/// rights to open the control socket of an elevated ffmpeg.
pub fn idr_route(windows: bool, has_relay: bool) -> (r: IdrRoute)
    ensures
        r == (if windows && has_relay {
            IdrRoute::Relay
        } else {
            IdrRoute::Socket
        }),
{
    if windows && has_relay {
        IdrRoute::Relay
    } else {
        IdrRoute::Socket
    }
}

// ---------------------------------------------------------------------------
// The life of a pipeline
// ---------------------------------------------------------------------------

/// The pipeline of one display, with one ffmpeg process while it runs. `P` is
/// the type of file paths, `T` what stands for a running instance.
pub struct MonitorPipeline<P, T> {
    pub ffmpeg_path: P,
    pub display: DisplayTarget,
    pub codec: Codec,
    pub hw_encoder: Option<HwEncoderKind>,
    pub options: EncodeOptions<P>,
    pub running: Option<T>,
}

impl<P, T> MonitorPipeline<P, T> {
    /// A pipeline that has not been started. Nothing is kept of an encoder
    /// whose vendor is not known.
    pub fn new(
        ffmpeg_path: P,
        display: DisplayTarget,
        codec: Codec,
        hw_encoder: Option<String>,
        options: EncodeOptions<P>,
    ) -> (r: MonitorPipeline<P, T>)
        ensures
            r.ffmpeg_path == ffmpeg_path,
            r.display == display,
            r.codec == codec,
            r.hw_encoder == (match hw_encoder {
                Some(name) => vendor(name@),
                None => None,
            }),
            r.options == options,
            r.running is None,
    {
        let hw_encoder = match hw_encoder {
            Some(name) => HwEncoderKind::from_encoder_name(name.as_str()),
            None => None,
        };
        MonitorPipeline { ffmpeg_path, display, codec, hw_encoder, options, running: None }
    }

    /// The splitter for what this pipeline's ffmpeg puts out.
    pub fn splitter(&self) -> (r: NalSplitter)
        ensures
            r@ == crate::nal::fresh_splitter(self.codec == Codec::Hevc),
            r@.wf(),
    {
        NalSplitter::new(matches!(self.codec, Codec::Hevc))
    }

    /// Whether the pipeline may be started: a pipeline that runs may not.
    pub fn start(&self) -> (r: Result<(), Error>)
        ensures
            match r {
                Ok(()) => self.running is None,
                Err(e) => self.running is Some && e@ == "pipeline already started"@,
            },
    {
        if self.running.is_some() {
            Err(Error::new("pipeline already started"))
        } else {
            Ok(())
        }
    }

    /// Takes the outcome of setting ffmpeg up. Where that failed, the pipeline
    /// is as it was and may be started again.
    pub fn started(&mut self, outcome: Result<T, Error>) -> (r: Result<(), Error>)
        requires
            old(self).running is None,
        ensures
            final(self).ffmpeg_path == old(self).ffmpeg_path,
            final(self).display == old(self).display,
            final(self).codec == old(self).codec,
            final(self).hw_encoder == old(self).hw_encoder,
            final(self).options == old(self).options,
            match outcome {
                Ok(t) => r is Ok && final(self).running == Some(t),
                Err(e) => r == Err::<(), Error>(e) && final(self).running is None,
            },
    {
        match outcome {
            Ok(t) => {
                self.running = Some(t);
                Ok(())
            },
            Err(e) => Err(e),
        }
    }

    /// Takes out the running instance, to be ended. Does nothing to a pipeline
    /// that does not run.
    pub fn stop(&mut self) -> (r: Option<T>)
        ensures
            r == old(self).running,
            final(self).running is None,
            final(self).ffmpeg_path == old(self).ffmpeg_path,
            final(self).display == old(self).display,
            final(self).codec == old(self).codec,
            final(self).hw_encoder == old(self).hw_encoder,
            final(self).options == old(self).options,
    {
        self.running.take()
    }
}

// ---------------------------------------------------------------------------
// Laws
// ---------------------------------------------------------------------------

/// The arguments name the encoder that was chosen, wherever its vendor is known
/// or it runs on the CPU.
pub proof fn arguments_name_the_encoder(i: int, bitrate_kbps: u32)
    requires
        0 <= i < encoder::priority().len(),
        vendor(encoder::priority()[i].1) is Some || !encoder::hardware(encoder::priority()[i].1),
    ensures
        ({
            let (codec, name) = encoder::priority()[i];
            let args = encoder_arguments(codec, vendor(name), bitrate_kbps);
            encodable(codec, vendor(name)) && args.len() >= 2 && args[0] == "-c:v"@ && args[1]
                == name
        }),
{
    lemma_vendors();
    lemma_software();
}

proof fn lemma_vendors()
    ensures
        vendor("hevc_nvenc"@) == Some(HwEncoderKind::Nvenc),
        vendor("h264_nvenc"@) == Some(HwEncoderKind::Nvenc),
        vendor("hevc_amf"@) == Some(HwEncoderKind::Amf),
        vendor("h264_amf"@) == Some(HwEncoderKind::Amf),
        vendor("hevc_qsv"@) == Some(HwEncoderKind::Qsv),
        vendor("h264_qsv"@) == Some(HwEncoderKind::Qsv),
{
    reveal_strlit("hevc_nvenc");
    reveal_strlit("h264_nvenc");
    reveal_strlit("hevc_amf");
    reveal_strlit("h264_amf");
    reveal_strlit("hevc_qsv");
    reveal_strlit("h264_qsv");
    reveal_strlit("_nvenc");
    reveal_strlit("_amf");
    reveal_strlit("_qsv");
    assert("hevc_nvenc"@.subrange(4, 10) =~= "_nvenc"@);
    assert("h264_nvenc"@.subrange(4, 10) =~= "_nvenc"@);
    assert("hevc_amf"@.subrange(4, 8) =~= "_amf"@);
    assert("h264_amf"@.subrange(4, 8) =~= "_amf"@);
    assert("hevc_qsv"@.subrange(4, 8) =~= "_qsv"@);
    assert("h264_qsv"@.subrange(4, 8) =~= "_qsv"@);
    assert("_nvenc"@.last() == 'c' && "_amf"@.last() == 'f' && "_qsv"@.last() == 'v');
    assert("hevc_amf"@.last() == 'f' && "h264_amf"@.last() == 'f');
    assert("hevc_qsv"@.last() == 'v' && "h264_qsv"@.last() == 'v');
    assert("hevc_amf"@.subrange(2, 8).last() == 'f' && "h264_amf"@.subrange(2, 8).last() == 'f');
    assert("hevc_qsv"@.subrange(2, 8).last() == 'v' && "h264_qsv"@.subrange(2, 8).last() == 'v');
    assert("hevc_qsv"@.subrange(4, 8).last() == 'v' && "h264_qsv"@.subrange(4, 8).last() == 'v');
}

proof fn lemma_software()
    ensures
        encoder::hardware("hevc_vaapi"@),
        encoder::hardware("hevc_videotoolbox"@),
        encoder::hardware("h264_vaapi"@),
        encoder::hardware("h264_videotoolbox"@),
        vendor("hevc_vaapi"@) is None,
        vendor("hevc_videotoolbox"@) is None,
        vendor("h264_vaapi"@) is None,
        vendor("h264_videotoolbox"@) is None,
        vendor("libopenh264"@) is None,
        vendor("libvpx-vp9"@) is None,
{
    reveal_strlit("hevc_vaapi");
    reveal_strlit("h264_vaapi");
    reveal_strlit("hevc_videotoolbox");
    reveal_strlit("h264_videotoolbox");
    reveal_strlit("libopenh264");
    reveal_strlit("libvpx-vp9");
    reveal_strlit("_nvenc");
    reveal_strlit("_amf");
    reveal_strlit("_qsv");
    reveal_strlit("_vaapi");
    reveal_strlit("_videotoolbox");
    assert("hevc_vaapi"@.subrange(4, 10) =~= "_vaapi"@);
    assert("h264_vaapi"@.subrange(4, 10) =~= "_vaapi"@);
    assert("hevc_videotoolbox"@.subrange(4, 17) =~= "_videotoolbox"@);
    assert("h264_videotoolbox"@.subrange(4, 17) =~= "_videotoolbox"@);
    lemma_other_end("hevc_vaapi"@);
    lemma_other_end("h264_vaapi"@);
    lemma_other_end("hevc_videotoolbox"@);
    lemma_other_end("h264_videotoolbox"@);
    lemma_other_end("libopenh264"@);
    lemma_other_end("libvpx-vp9"@);
}

/// A name that ends in none of the vendors' last letters has no vendor.
proof fn lemma_other_end(name: Seq<char>)
    requires
        name.len() > 0,
        name.last() != 'c' && name.last() != 'f' && name.last() != 'v',
    ensures
        vendor(name) is None,
{
    reveal_strlit("_nvenc");
    reveal_strlit("_amf");
    reveal_strlit("_qsv");
    let n = name.len();
    if "_nvenc"@.is_suffix_of(name) {
        assert(name.subrange(n - 6, n as int).last() == name.last());
    }
    if "_amf"@.is_suffix_of(name) {
        assert(name.subrange(n - 4, n as int).last() == name.last());
    }
    if "_qsv"@.is_suffix_of(name) {
        assert(name.subrange(n - 4, n as int).last() == name.last());
    }
}

proof fn lemma_inside(prefix: Seq<char>, a: Seq<char>, b: Seq<char>, suffix: Seq<char>)
    requires
        prefix + a + suffix == prefix + b + suffix,
    ensures
        a == b,
{
    let n = prefix.len() as int;
    let whole = prefix + a + suffix;
    assert(whole.len() == n + a.len() + suffix.len());
    assert((prefix + b + suffix).len() == n + b.len() + suffix.len());
    assert(whole.subrange(n, n + a.len()) =~= a);
    assert((prefix + b + suffix).subrange(n, n + b.len()) =~= b);
}

/// Pipelines with different output ports have different control sockets and
/// different outputs.
pub proof fn ports_tell_pipelines_apart(a: u16, b: u16)
    requires
        a != b,
    ensures
        idr_pipe(a) != idr_pipe(b),
        idr_socket_name(a) != idr_socket_name(b),
        output_url(a) != output_url(b),
{
    text::decimal_reads_back(a as nat, u16::MAX as nat);
    text::decimal_reads_back(b as nat, u16::MAX as nat);
    let x = text::decimal(a as nat);
    let y = text::decimal(b as nat);
    if idr_pipe(a) == idr_pipe(b) {
        let none = Seq::<char>::empty();
        assert(idr_pipe(a) + none =~= idr_pipe(a));
        assert(idr_pipe(b) + none =~= idr_pipe(b));
        lemma_inside("\\\\.\\pipe\\ffmpeg-caster-idr-"@, x, y, none);
    }
    if idr_socket_name(a) == idr_socket_name(b) {
        lemma_inside("ffmpeg-caster-idr-"@, x, y, ".sock"@);
    }
    if output_url(a) == output_url(b) {
        lemma_inside("tcp://127.0.0.1:"@, x, y, "?tcp_nodelay=1&send_buffer_size=65536"@);
    }
}

/// Whatever the codec and the vendor, ffmpeg is told the bit rate that is asked
/// for, and, but for VP9, to keep below it. In hardware the rate is constant, and
/// the buffer holds a sixtieth of a second of it, at least a kilobit.
pub proof fn the_bit_rate_is_kept(codec: Codec, hw: Option<HwEncoderKind>, bitrate_kbps: u32)
    requires
        encodable(codec, hw),
    ensures
        ({
            let args = encoder_arguments(codec, hw, bitrate_kbps);
            let rate = text::decimal(bitrate_kbps as nat) + seq!['k'];
            let buffer = if bitrate_kbps < 120 {
                1nat
            } else {
                (bitrate_kbps / 60) as nat
            };
            &&& encoder::set_to(args, "-b:v"@, rate)
            &&& codec != Codec::Vp9 ==> encoder::set_to(args, "-maxrate"@, rate)
            &&& codec != Codec::Vp9 && hw is Some ==> encoder::set_to(
                args,
                "-bufsize"@,
                text::decimal(buffer) + seq!['k'],
            )
            &&& codec != Codec::Vp9 && hw is Some ==> encoder::set_to(
                args,
                if hw == Some(HwEncoderKind::Qsv) {
                    "-look_ahead"@
                } else {
                    "-rc"@
                },
                "cbr"@,
            )
            &&& codec == Codec::H264 && hw is None ==> encoder::set_to(
                args,
                "-rc_mode"@,
                "bitrate"@,
            )
        }),
{
    let args = encoder_arguments(codec, hw, bitrate_kbps);
    reveal_strlit("k");
    assert("k"@ =~= seq!['k']);
    if codec == Codec::Vp9 {
        assert(args[2] == "-b:v"@);
    } else if hw is None {
        assert(args[12] == "-b:v"@ && args[14] == "-maxrate"@ && args[8] == "-rc_mode"@);
    } else {
        let n: int = match hw->0 {
            HwEncoderKind::Nvenc => 20,
            HwEncoderKind::Amf => 10,
            HwEncoderKind::Qsv => 12,
        };
        assert(args[n + 1] == "cbr"@);
        assert(args[n + 2] == "-b:v"@);
        assert(args[n + 4] == "-maxrate"@);
        assert(args[n + 6] == "-bufsize"@);
        assert(args[n] == if hw == Some(HwEncoderKind::Qsv) {
            "-look_ahead"@
        } else {
            "-rc"@
        });
    }
}

/// Different bit rates give different arguments.
pub proof fn bit_rates_tell_arguments_apart(
    codec: Codec,
    hw: Option<HwEncoderKind>,
    a: u32,
    b: u32,
)
    requires
        encodable(codec, hw),
        a != b,
    ensures
        encoder_arguments(codec, hw, a) != encoder_arguments(codec, hw, b),
{
    text::decimal_reads_back(a as nat, u32::MAX as nat);
    text::decimal_reads_back(b as nat, u32::MAX as nat);
    let none = Seq::<char>::empty();
    assert(none + text::decimal(a as nat) + "k"@ =~= kilobits(a as nat));
    assert(none + text::decimal(b as nat) + "k"@ =~= kilobits(b as nat));
    if kilobits(a as nat) == kilobits(b as nat) {
        lemma_inside(none, text::decimal(a as nat), text::decimal(b as nat), "k"@);
    }
    let n: int = if codec == Codec::Vp9 {
        3
    } else {
        match hw {
            Some(HwEncoderKind::Nvenc) => 23,
            Some(HwEncoderKind::Amf) => 13,
            Some(HwEncoderKind::Qsv) => 15,
            None => 13,
        }
    };
    assert(encoder_arguments(codec, hw, a)[n] == kilobits(a as nat));
    assert(encoder_arguments(codec, hw, b)[n] == kilobits(b as nat));
}

/// The encoder is that of the codec and of the vendor, or the one that runs on
/// the CPU. Key frames come a day of sixty frames a second apart unless they are
/// asked for, no frame depends on a later one, and the profile is the one that
/// receivers know. These and the settings for low delay are all that is set.
pub proof fn encoders_are_set_up_for_low_delay(
    codec: Codec,
    hw: Option<HwEncoderKind>,
    bitrate_kbps: u32,
)
    requires
        encodable(codec, hw),
    ensures
        ({
            let args = encoder_arguments(codec, hw, bitrate_kbps);
            &&& args[0] == "-c:v"@
            &&& args[1] == match (codec, hw) {
                (Codec::Vp9, _) => "libvpx-vp9"@,
                (_, None) => "libopenh264"@,
                (_, Some(HwEncoderKind::Nvenc)) => codec.name_text() + "_nvenc"@,
                (_, Some(HwEncoderKind::Amf)) => codec.name_text() + "_amf"@,
                (_, Some(HwEncoderKind::Qsv)) => codec.name_text() + "_qsv"@,
            }
            &&& codec != Codec::Vp9 ==> {
                &&& encoder::set_to(args, "-g"@, text::decimal(5_184_000))
                &&& encoder::set_to(args, "-bf"@, "0"@)
                &&& encoder::set_to(
                    args,
                    "-profile:v"@,
                    if codec == Codec::H264 && hw is Some {
                        "baseline"@
                    } else {
                        "main"@
                    },
                )
            }
            &&& match (codec, hw) {
                (Codec::Vp9, _) => args.len() == 4,
                (_, None) => {
                    &&& args.len() == 16
                    &&& encoder::set_to(args, "-allow_skip_frames"@, "1"@)
                },
                (_, Some(HwEncoderKind::Nvenc)) => {
                    &&& args.len() == 34
                    &&& encoder::set_to(args, "-preset"@, "p1"@)
                    &&& encoder::set_to(args, "-tune"@, "ull"@)
                    &&& encoder::set_to(args, "-forced-idr"@, "1"@)
                    &&& encoder::set_to(args, "-rc-lookahead"@, "0"@)
                    &&& encoder::set_to(args, "-delay"@, "0"@)
                    &&& encoder::set_to(args, "-zerolatency"@, "1"@)
                    &&& encoder::set_to(args, "-intra-refresh"@, "1"@)
                    &&& encoder::set_to(args, "-spatial-aq"@, "1"@)
                    &&& encoder::set_to(args, "-aq-strength"@, "8"@)
                },
                (_, Some(HwEncoderKind::Amf)) => {
                    &&& args.len() == 18
                    &&& encoder::set_to(args, "-usage"@, "ultralowlatency"@)
                },
                (_, Some(HwEncoderKind::Qsv)) => {
                    &&& args.len() == 20
                    &&& encoder::set_to(args, "-preset"@, "veryfast"@)
                    &&& encoder::set_to(args, "-low_delay_brc"@, "1"@)
                },
            }
        }),
{
    let args = encoder_arguments(codec, hw, bitrate_kbps);
    reveal_strlit("hevc");
    reveal_strlit("h264");
    reveal_strlit("_nvenc");
    reveal_strlit("_amf");
    reveal_strlit("_qsv");
    reveal_strlit("hevc_nvenc");
    reveal_strlit("hevc_amf");
    reveal_strlit("hevc_qsv");
    reveal_strlit("h264_nvenc");
    reveal_strlit("h264_amf");
    reveal_strlit("h264_qsv");
    assert("hevc"@ + "_nvenc"@ =~= "hevc_nvenc"@);
    assert("hevc"@ + "_amf"@ =~= "hevc_amf"@);
    assert("hevc"@ + "_qsv"@ =~= "hevc_qsv"@);
    assert("h264"@ + "_nvenc"@ =~= "h264_nvenc"@);
    assert("h264"@ + "_amf"@ =~= "h264_amf"@);
    assert("h264"@ + "_qsv"@ =~= "h264_qsv"@);
    if codec != Codec::Vp9 {
        match hw {
            Some(HwEncoderKind::Nvenc) => {
                assert(args[2] == "-preset"@ && args[4] == "-tune"@ && args[6] == "-profile:v"@);
                assert(args[8] == "-g"@ && args[10] == "-bf"@ && args[12] == "-forced-idr"@);
                assert(args[14] == "-rc-lookahead"@ && args[16] == "-delay"@);
                assert(args[18] == "-zerolatency"@ && args[28] == "-intra-refresh"@);
                assert(args[30] == "-spatial-aq"@ && args[32] == "-aq-strength"@);
            },
            Some(HwEncoderKind::Amf) => {
                assert(args[2] == "-usage"@ && args[4] == "-profile:v"@);
                assert(args[6] == "-g"@ && args[8] == "-bf"@);
            },
            Some(HwEncoderKind::Qsv) => {
                assert(args[2] == "-preset"@ && args[4] == "-profile:v"@);
                assert(args[6] == "-g"@ && args[8] == "-bf"@ && args[10] == "-low_delay_brc"@);
            },
            None => {
                assert(args[2] == "-profile:v"@ && args[4] == "-g"@ && args[6] == "-bf"@);
                assert(args[10] == "-allow_skip_frames"@);
            },
        }
    }
}

/// Only HEVC on the CPU cannot be encoded.
pub proof fn hevc_needs_hardware(codec: Codec, hw: Option<HwEncoderKind>)
    ensures
        encodable(codec, hw) <==> codec == Codec::H264 || codec == Codec::Vp9 || hw is Some,
{
}

/// The vendor of an encoder is told by the end of its name, and by nothing else.
pub proof fn vendors_are_told_by_the_end(stem: Seq<char>, name: Seq<char>)
    ensures
        vendor(stem + "_nvenc"@) == Some(HwEncoderKind::Nvenc),
        vendor(stem + "_amf"@) == Some(HwEncoderKind::Amf),
        vendor(stem + "_qsv"@) == Some(HwEncoderKind::Qsv),
        vendor(name) is Some ==> "_nvenc"@.is_suffix_of(name) || "_amf"@.is_suffix_of(name)
            || "_qsv"@.is_suffix_of(name),
{
    reveal_strlit("_nvenc");
    reveal_strlit("_amf");
    reveal_strlit("_qsv");
    let n = stem.len() as int;
    let a = stem + "_nvenc"@;
    let b = stem + "_amf"@;
    let c = stem + "_qsv"@;
    assert(a.subrange(n, n + 6) =~= "_nvenc"@);
    assert(b.subrange(n, n + 4) =~= "_amf"@);
    assert(c.subrange(n, n + 4) =~= "_qsv"@);
    if "_nvenc"@.is_suffix_of(b) {
        assert(b.subrange(b.len() - 6, b.len() as int)[5] == b[b.len() - 1]);
    }
    if "_nvenc"@.is_suffix_of(c) {
        assert(c.subrange(c.len() - 6, c.len() as int)[5] == c[c.len() - 1]);
    }
    if "_amf"@.is_suffix_of(c) {
        assert(c.subrange(c.len() - 4, c.len() as int)[3] == c[c.len() - 1]);
    }
}

/// What is captured is the display that is asked for, in its own size. On Windows
/// the filter is told the output's number and size and takes at most 75 frames a
/// second, and frames are fetched into memory just where no hardware encodes
/// them. On Linux the X server is read, on macOS the device with the display's
/// number, with the pointer, each sixty times a second.
pub proof fn the_display_is_captured(
    platform: Platform,
    display: TargetView,
    hw: Option<HwEncoderKind>,
    x11_display: Option<Seq<char>>,
)
    ensures
        ({
            let args = capture_arguments(platform, display, hw, x11_display);
            let size = text::decimal(display.width as nat) + seq!['x'] + text::decimal(
                display.height as nat,
            );
            let number = text::decimal(display.adapter_output_idx as nat);
            match platform {
                Platform::Windows => {
                    &&& args.len() == 4
                    &&& encoder::set_to(args, "-map"@, "[vout]"@)
                    &&& encoder::set_to(
                        args,
                        "-filter_complex"@,
                        text::joined_with(
                            seq![
                                "ddagrab=output_idx="@ + number,
                                "framerate="@ + text::decimal(75),
                                "video_size="@ + size,
                                if hw is Some {
                                    "dup_frames=false[vout]"@
                                } else {
                                    "dup_frames=false,hwdownload,format=bgra,format=yuv420p[vout]"@
                                },
                            ],
                            ":"@,
                        ),
                    )
                },
                Platform::Linux => {
                    &&& args.len() == 8
                    &&& encoder::set_to(args, "-f"@, "x11grab"@)
                    &&& encoder::set_to(args, "-video_size"@, size)
                    &&& encoder::set_to(args, "-framerate"@, text::decimal(60))
                    &&& x11_display matches Some(d) ==> encoder::set_to(args, "-i"@, d)
                    &&& x11_display is None ==> encoder::set_to(args, "-i"@, ":0.0"@)
                },
                Platform::MacOs => {
                    &&& args.len() == 10
                    &&& encoder::set_to(args, "-f"@, "avfoundation"@)
                    &&& encoder::set_to(args, "-video_size"@, size)
                    &&& encoder::set_to(args, "-framerate"@, text::decimal(60))
                    &&& encoder::set_to(args, "-capture_cursor"@, "1"@)
                    &&& encoder::set_to(args, "-i"@, number + ":none"@)
                },
                Platform::Other => args.len() == 0,
            }
        }),
{
    let args = capture_arguments(platform, display, hw, x11_display);
    let size = text::decimal(display.width as nat) + seq!['x'] + text::decimal(
        display.height as nat,
    );
    reveal_strlit("x");
    assert("x"@ =~= seq!['x']);
    match platform {
        Platform::Windows => {
            let number = text::decimal(display.adapter_output_idx as nat);
            let parts = seq![
                "ddagrab=output_idx="@ + number,
                "framerate="@ + text::decimal(75),
                "video_size="@ + size,
                if hw is Some {
                    "dup_frames=false[vout]"@
                } else {
                    "dup_frames=false,hwdownload,format=bgra,format=yuv420p[vout]"@
                },
            ];
            reveal_strlit(":");
            reveal_strlit("[vout]");
            reveal_strlit(",hwdownload,format=bgra,format=yuv420p[vout]");
            reveal_strlit(":dup_frames=false");
            reveal_strlit("dup_frames=false[vout]");
            reveal_strlit("dup_frames=false,hwdownload,format=bgra,format=yuv420p[vout]");
            reveal_strlit(":framerate=");
            reveal_strlit("framerate=");
            reveal_strlit(":video_size=");
            reveal_strlit("video_size=");
            lemma_four_joined(parts, ":"@);
            assert(args[1] =~= text::joined_with(parts, ":"@));
            assert(args[0] == "-filter_complex"@ && args[2] == "-map"@);
        },
        Platform::Linux => {
            assert(args[0] == "-f"@ && args[2] == "-video_size"@ && args[4] == "-framerate"@);
            assert(args[6] == "-i"@);
        },
        Platform::MacOs => {
            assert(args[0] == "-f"@ && args[2] == "-video_size"@ && args[4] == "-framerate"@);
            assert(args[6] == "-capture_cursor"@ && args[8] == "-i"@);
        },
        Platform::Other => {},
    }
}

proof fn lemma_four_joined(parts: Seq<Seq<char>>, separator: Seq<char>)
    requires
        parts.len() == 4,
    ensures
        text::joined_with(parts, separator) == parts[0] + separator + parts[1] + separator
            + parts[2] + separator + parts[3],
{
    let three = parts.drop_last();
    let two = three.drop_last();
    let one = two.drop_last();
    assert(text::joined_with(one, separator) =~= parts[0]);
    assert(text::joined_with(two, separator) =~= parts[0] + separator + parts[1]);
    assert(text::joined_with(three, separator) =~= parts[0] + separator + parts[1] + separator
        + parts[2]);
    assert(text::joined_with(parts, separator) =~= parts[0] + separator + parts[1] + separator
        + parts[2] + separator + parts[3]);
}

/// All arguments in order: the capture; the conversion, where the capture device
/// does not do it; the encoder; the control socket; and the output, which goes
/// to the port in the codec's raw format.
pub proof fn the_stream_goes_to_the_port(
    platform: Platform,
    display: TargetView,
    codec: Codec,
    hw: Option<HwEncoderKind>,
    bitrate_kbps: u32,
    x11_display: Option<Seq<char>>,
    idr_control_path: Seq<char>,
    port: u16,
)
    ensures
        ({
            let args = ffmpeg_arguments(
                platform,
                display,
                codec,
                hw,
                bitrate_kbps,
                x11_display,
                idr_control_path,
                port,
            );
            let capture = capture_arguments(platform, display, hw, x11_display);
            let encode = encoder_arguments(codec, hw, bitrate_kbps);
            let n = capture.len() as int;
            let k = if platform == Platform::Linux || platform == Platform::MacOs {
                4int
            } else {
                0
            };
            let m = n + k + encode.len();
            &&& args.take(n) == capture
            &&& k == 4 ==> {
                &&& args[n] == "-vf"@ && args[n + 1] == "format=yuv420p"@
                &&& args[n + 2] == "-r"@ && args[n + 3] == text::decimal(60)
            }
            &&& args.subrange(n + k, m) == encode
            &&& args.len() == m + 5
            &&& args[m] == "-idr_control_socket"@ && args[m + 1] == idr_control_path
            &&& args[m + 2] == "-f"@ && args[m + 3] == match codec {
                Codec::Hevc => "hevc"@,
                Codec::H264 => "h264"@,
                Codec::Vp9 => "ivf"@,
            }
            &&& args[m + 4] == "tcp://127.0.0.1:"@ + text::decimal(port as nat)
                + "?tcp_nodelay=1&send_buffer_size=65536"@
        }),
{
    let args = ffmpeg_arguments(
        platform,
        display,
        codec,
        hw,
        bitrate_kbps,
        x11_display,
        idr_control_path,
        port,
    );
    let capture = capture_arguments(platform, display, hw, x11_display);
    let encode = encoder_arguments(codec, hw, bitrate_kbps);
    let n = capture.len() as int;
    let k = filter_arguments(platform).len() as int;
    assert(args.take(n) =~= capture);
    assert(args.subrange(n + k, n + k + encode.len()) =~= encode);
}

} // verus!
