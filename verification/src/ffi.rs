//! What crosses the C interface as numbers.
use vstd::prelude::*;

use crate::elevate::ElevationMode;
use crate::pipeline::{EncodeOptions, FrameKind};

verus! {

/// The number of a frame kind.
pub fn frame_kind_code(kind: FrameKind) -> (r: i32)
    ensures
        r == (match kind {
            FrameKind::Key => 0i32,
            FrameKind::Delta => 1i32,
        }),
{
    match kind {
        FrameKind::Key => 0,
        FrameKind::Delta => 1,
    }
}

/// The number that tells success or failure.
pub fn status_code(ok: bool) -> (r: i32)
    ensures
        r == (if ok {
            0i32
        } else {
            -1i32
        }),
{
    if ok {
        0
    } else {
        -1
    }
}

/// The options of a pipeline that is made over the C interface: the bit rate,
/// and a number other than zero for elevated rights.
pub fn pipeline_options<P>(bitrate_kbps: u32, prefer_system_elevation: i32) -> (r: EncodeOptions<P>)
    ensures
        r.bitrate_kbps == bitrate_kbps,
        r.elevation == (if prefer_system_elevation != 0 {
            ElevationMode::PreferSystem
        } else {
            ElevationMode::Normal
        }),
        r.ffmpeg_stub_path is None,
        r.tools_dir is None,
{
    EncodeOptions {
        bitrate_kbps,
        elevation: if prefer_system_elevation != 0 {
            ElevationMode::PreferSystem
        } else {
            ElevationMode::Normal
        },
        ffmpeg_stub_path: None,
        tools_dir: None,
    }
}

} // verus!
