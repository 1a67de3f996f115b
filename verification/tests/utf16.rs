use ffmpeg_caster::utf16::{from_utf16_lossy, to_utf16};

#[test]
fn utf16_both_ways_as_in_std() {
    for s in ["", "abc", "\\\\.\\DISPLAY1", "é€", "𝄞x", "\u{ffff}\u{10ffff}"] {
        let units: Vec<u16> = s.encode_utf16().collect();
        assert_eq!(to_utf16(s), units);
        assert_eq!(from_utf16_lossy(&units), s);
    }
}

#[test]
fn stray_surrogates_are_replaced_as_in_std() {
    for units in [
        vec![0xD800],
        vec![0xDC00],
        vec![0xD834, 0x61],
        vec![0xDD1E, 0xD834],
        vec![0xD834, 0xD834, 0xDD1E],
        vec![0x61, 0xDBFF, 0xDFFF, 0xD800],
    ] {
        let units: Vec<u16> = units;
        assert_eq!(from_utf16_lossy(&units), String::from_utf16_lossy(&units));
    }
}
