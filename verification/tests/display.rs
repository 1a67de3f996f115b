use ffmpeg_caster::display::{
    enumerate_displays, find_display_by_name, parse_display_uri, query_display_resolutions,
    resolve_display, DeviceListing, DisplayInfo, DisplaySource, DisplayTarget, OutputDesc,
    XrandrRun,
};
use ffmpeg_caster::error::Error;

const XRANDR: &str = "Screen 0: minimum 320 x 200, current 3840 x 1080\n\
HDMI-1 connected 1920x1080+1920+0 (normal left inverted) 527mm x 296mm\n\
   1920x1080     60.00*+\n\
DP-1 disconnected (normal left inverted)\n\
eDP-1 connected primary 2560x1440+0+0 (normal) 300mm x 170mm\n\
VGA-1 connected (normal left inverted)\n\
DP-2 connected 99999999999x5+0+0\n\
DP-3 connected +800x600+0+0 1x2+3 800x600\n";

fn linux(text: &str) -> Vec<DisplayInfo> {
    enumerate_displays(DisplaySource::Linux(XrandrRun::Printed(text.to_string()))).unwrap()
}

fn failing() -> Result<Vec<DisplayInfo>, Error> {
    Err(Error::new("no displays here"))
}

#[test]
fn parse_display_uri_rejects_unknown_scheme() {
    assert!(parse_display_uri("foo://bar", || Ok(linux(XRANDR))).is_err());
    assert!(parse_display_uri("foo://bar", failing).is_err());
}

#[test]
fn parse_display_uri_rejects_unknown_form() {
    let result = parse_display_uri("display://bogus", || Ok(linux(XRANDR)));
    assert!(result.is_err());
    let result = parse_display_uri("display://bogus", failing);
    assert!(result.is_err());
}

#[test]
fn xrandr_output_is_read() {
    let displays = linux(XRANDR);
    assert_eq!(
        displays,
        vec![
            DisplayInfo {
                index: 0,
                name: "HDMI-1".to_string(),
                width: 1920,
                height: 1080,
                is_primary: false,
                can_capture: true,
                adapter_output_idx: 0,
            },
            DisplayInfo {
                index: 1,
                name: "eDP-1".to_string(),
                width: 2560,
                height: 1440,
                is_primary: true,
                can_capture: true,
                adapter_output_idx: 1,
            },
            DisplayInfo {
                index: 2,
                name: "DP-3".to_string(),
                width: 1,
                height: 2,
                is_primary: false,
                can_capture: true,
                adapter_output_idx: 2,
            },
        ]
    );
    assert!(linux("").is_empty());
    // The first word is the name even where it is a geometry or "primary".
    let odd = linux("primary connected 5x6+0+0");
    assert_eq!(odd[0].name, "primary");
    assert!(!odd[0].is_primary);
}

#[test]
fn xrandr_failures() {
    assert_eq!(
        enumerate_displays(DisplaySource::Linux(XrandrRun::NotRun("gone".to_string())))
            .unwrap_err()
            .message,
        "failed to run xrandr: gone"
    );
    assert_eq!(
        enumerate_displays(DisplaySource::Linux(XrandrRun::Failed))
            .unwrap_err()
            .message,
        "xrandr exited with a non-zero status"
    );
    assert_eq!(
        enumerate_displays(DisplaySource::Unsupported)
            .unwrap_err()
            .message,
        "screen capture is not supported on this platform"
    );
}

fn output(attached: bool, name: &str, rect: (i32, i32, i32, i32), can_capture: bool) -> OutputDesc {
    let mut device_name: Vec<u16> = name.encode_utf16().collect();
    device_name.extend_from_slice(&[0, 0x41, 0]);
    OutputDesc {
        attached,
        device_name,
        left: rect.0,
        top: rect.1,
        right: rect.2,
        bottom: rect.3,
        can_capture,
    }
}

#[test]
fn adapter_outputs_are_read() {
    let adapters = vec![
        vec![
            output(true, "\\\\.\\DISPLAY1", (-1920, 0, 0, 1080), true),
            output(false, "\\\\.\\DISPLAY2", (i32::MIN, 0, i32::MAX, 10), true),
            output(true, "\\\\.\\DISPLAY3", (0, 0, 2560, 1440), true),
        ],
        vec![],
        vec![output(true, "\\\\.\\DISPLAY4", (0, -600, 800, 0), false)],
    ];
    let displays = enumerate_displays(DisplaySource::Windows(Ok(adapters))).unwrap();
    let short: Vec<(usize, &str, u32, u32, bool, bool, u32)> = displays
        .iter()
        .map(|d| {
            (
                d.index,
                d.name.as_str(),
                d.width,
                d.height,
                d.is_primary,
                d.can_capture,
                d.adapter_output_idx,
            )
        })
        .collect();
    assert_eq!(
        short,
        vec![
            (0, "\\\\.\\DISPLAY1", 1920, 1080, false, true, 0),
            (1, "\\\\.\\DISPLAY3", 2560, 1440, true, true, 2),
            (2, "\\\\.\\DISPLAY4", 800, 600, false, false, 0),
        ]
    );
    assert_eq!(
        enumerate_displays(DisplaySource::Windows(Err("no factory".to_string())))
            .unwrap_err()
            .message,
        "no factory"
    );
    // A name that fills its field has no zero at the end; a reversed rectangle
    // wraps around.
    let mut full = output(true, "", (10, 10, 0, 5), true);
    full.device_name = vec![0x44; 3];
    let displays = enumerate_displays(DisplaySource::Windows(Ok(vec![vec![full]]))).unwrap();
    assert_eq!(displays[0].name, "DDD");
    assert_eq!(displays[0].width, u32::MAX - 9);
}

const DEVICES: &str = "[AVFoundation indev @ 0x7f] AVFoundation video devices:\n\
[AVFoundation indev @ 0x7f] [0] FaceTime HD Camera\n\
[AVFoundation indev @ 0x7f] [1] Capture screen 0\n\
[AVFoundation indev @ 0x7f] [x] Capture screen 7\n\
[AVFoundation indev @ 0x7f] [2] Capture screen 1\n\
[AVFoundation indev @ 0x7f] [3] Capture screen 2\n\
[AVFoundation indev @ 0x7f] AVFoundation audio devices:\n\
[AVFoundation indev @ 0x7f] [4] Capture screen 9\n";

const PROFILE: &str = "Graphics:\n    Displays:\n        Color LCD:\n          \
Resolution: 3024 x 1964 Retina\n          Resolution: many\n        LG:\n          \
Resolution: 1920x1080 (1080p)\n";

#[test]
fn screens_are_read() {
    let source = DisplaySource::MacOs(
        DeviceListing::Printed(DEVICES.to_string()),
        Some(PROFILE.to_string()),
    );
    let displays = enumerate_displays(source).unwrap();
    let short: Vec<(usize, &str, u32, u32, bool, u32)> = displays
        .iter()
        .map(|d| {
            (
                d.index,
                d.name.as_str(),
                d.width,
                d.height,
                d.is_primary,
                d.adapter_output_idx,
            )
        })
        .collect();
    assert_eq!(
        short,
        vec![
            (1, "Capture screen 1", 3024, 1964, false, 1),
            (2, "Capture screen 2", 1920, 1080, false, 2),
            (3, "Capture screen 3", 3024, 1964, false, 3),
        ]
    );
    let bare = DisplaySource::MacOs(
        DeviceListing::Printed("AVFoundation video devices\n[0] Capture screen 0".to_string()),
        None,
    );
    let displays = enumerate_displays(bare).unwrap();
    assert_eq!((displays[0].width, displays[0].height), (1920, 1080));
    assert!(displays[0].is_primary);
}

#[test]
fn screen_failures() {
    assert_eq!(
        enumerate_displays(DisplaySource::MacOs(DeviceListing::NoFfmpeg, None))
            .unwrap_err()
            .message,
        "ffmpeg not found on PATH; cannot enumerate AVFoundation devices"
    );
    assert_eq!(
        enumerate_displays(DisplaySource::MacOs(
            DeviceListing::NotRun("denied".to_string()),
            None
        ))
        .unwrap_err()
        .message,
        "failed to run ffmpeg for device listing: denied"
    );
}

#[test]
fn resolutions_are_read() {
    assert_eq!(
        query_display_resolutions(&Some(PROFILE.to_string())),
        vec![(3024, 1964), (1920, 1080)]
    );
    assert!(query_display_resolutions(&None).is_empty());
    assert!(query_display_resolutions(&Some("Resolution: 5 x 99999999999".to_string())).is_empty());
}

fn target(d: &DisplayInfo) -> DisplayTarget {
    DisplayTarget {
        name: d.name.clone(),
        width: d.width,
        height: d.height,
        adapter_output_idx: d.adapter_output_idx,
    }
}

#[test]
fn uris_find_displays() {
    let displays = linux(XRANDR);
    let parse = |uri: &str| parse_display_uri(uri, || Ok(linux(XRANDR)));
    assert_eq!(parse("display://primary").unwrap(), target(&displays[1]));
    for (i, d) in displays.iter().enumerate() {
        assert_eq!(d.index, i);
        assert_eq!(parse(&format!("display://index/{i}")).unwrap(), target(d));
        assert_eq!(
            parse(&format!("display://name/{}", d.name)).unwrap(),
            target(d)
        );
        let found = find_display_by_name(Ok(linux(XRANDR)), &d.name);
        assert_eq!(found.as_ref(), Some(d));
        assert_eq!(DisplayTarget::from(found.unwrap()), target(d));
    }
    assert_eq!(parse("display://index/+2").unwrap(), target(&displays[2]));
    assert!(find_display_by_name(Ok(linux(XRANDR)), "DP-1").is_none());
    assert!(find_display_by_name(failing(), "DP-3").is_none());
}

#[test]
fn an_index_counts_entries_of_the_list() {
    let source = || {
        enumerate_displays(DisplaySource::MacOs(
            DeviceListing::Printed(DEVICES.to_string()),
            None,
        ))
    };
    let first = parse_display_uri("display://index/0", source).unwrap();
    assert_eq!(first.name, "Capture screen 1");
    let third = parse_display_uri("display://index/2", source).unwrap();
    assert_eq!(third.adapter_output_idx, 3);
    assert!(parse_display_uri("display://index/3", source).is_err());
}

#[test]
fn uri_failures() {
    let message = |uri: &str| resolve_display(uri, linux(XRANDR)).unwrap_err().message;
    assert_eq!(message("foo://bar"), "not a display:// URI: foo://bar");
    assert_eq!(
        message("display://bogus"),
        "unrecognized display:// URI form: display://bogus"
    );
    assert_eq!(
        message("display://index/x1"),
        "invalid display index in URI: x1"
    );
    assert_eq!(
        message("display://index/"),
        "invalid display index in URI: "
    );
    assert_eq!(message("display://index/03"), "no display with index 3");
    assert_eq!(message("display://name/None"), "no display named None");
    assert_eq!(
        resolve_display("display://primary", Vec::new())
            .unwrap_err()
            .message,
        "no primary display found"
    );
    assert_eq!(
        parse_display_uri("display://primary", failing)
            .unwrap_err()
            .message,
        "no displays here"
    );
    assert_eq!(
        parse_display_uri("display:/primary", failing)
            .unwrap_err()
            .message,
        "not a display:// URI: display:/primary"
    );
}
