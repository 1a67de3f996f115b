use ffmpeg_caster::nal::{
    extract_parameter_sets, find_start_codes, frame_contains_keyframe, is_keyframe_vcl_nal,
    is_parameter_set_nal, is_vcl_nal, nal_unit_type, Codec, NalSplitter,
};

fn nal(codec: Codec, nal_type: u8, body: &[u8]) -> Vec<u8> {
    let first_byte = match codec {
        Codec::H264 => nal_type & 0x1f,
        Codec::Hevc => (nal_type & 0x3f) << 1,
    };
    let mut v = vec![0, 0, 0, 1, first_byte];
    v.extend_from_slice(body);
    v
}

#[test]
fn splits_h264_access_units() {
    let mut splitter = NalSplitter::new(false);
    let sps = nal(Codec::H264, 7, &[0xaa]);
    let pps = nal(Codec::H264, 8, &[0xbb]);
    let idr = nal(Codec::H264, 5, &[0xcc]);
    let p = nal(Codec::H264, 1, &[0xdd]);

    let mut stream = Vec::new();
    stream.extend_from_slice(&sps);
    stream.extend_from_slice(&pps);
    stream.extend_from_slice(&idr);
    stream.extend_from_slice(&sps);
    stream.extend_from_slice(&pps);
    stream.extend_from_slice(&p);
    // The second frame ends only with the start code behind the first NAL that
    // is no slice.
    stream.extend_from_slice(&nal(Codec::H264, 6, &[]));
    stream.extend_from_slice(&nal(Codec::H264, 6, &[]));

    let frames = splitter.push(&stream);
    assert_eq!(frames.len(), 2);
    assert!(frames[0].is_key);
    assert!(!frames[1].is_key);
    assert!(splitter.latest_parameter_sets().is_some());
}

#[test]
fn splits_multi_slice_frame_as_one_access_unit() {
    let mut splitter = NalSplitter::new(false);
    let idr_slice1 = nal(Codec::H264, 5, &[0x01]);
    let idr_slice2 = nal(Codec::H264, 5, &[0x02]);
    let aud = nal(Codec::H264, 9, &[]);

    let mut stream = Vec::new();
    stream.extend_from_slice(&idr_slice1);
    stream.extend_from_slice(&idr_slice2);
    stream.extend_from_slice(&aud);
    stream.extend_from_slice(&nal(Codec::H264, 6, &[]));

    let frames = splitter.push(&stream);
    assert_eq!(frames.len(), 1);
    assert!(frames[0].is_key);
}

#[test]
fn hevc_parameter_set_detection() {
    let mut splitter = NalSplitter::new(true);
    let vps = nal(Codec::Hevc, 32, &[0x01]);
    let sps = nal(Codec::Hevc, 33, &[0x02]);
    let pps = nal(Codec::Hevc, 34, &[0x03]);
    let idr = nal(Codec::Hevc, 19, &[0x04]);

    let mut stream = Vec::new();
    stream.extend_from_slice(&vps);
    stream.extend_from_slice(&sps);
    stream.extend_from_slice(&pps);
    stream.extend_from_slice(&idr);
    stream.extend_from_slice(&nal(Codec::Hevc, 35, &[]));
    stream.extend_from_slice(&nal(Codec::Hevc, 35, &[]));

    let frames = splitter.push(&stream);
    assert_eq!(frames.len(), 1);
    assert!(frames[0].is_key);
    let params = splitter.latest_parameter_sets().unwrap();
    assert!(!params.payload.is_empty());
}

#[test]
fn start_codes_of_both_lengths() {
    assert_eq!(find_start_codes(&[]), Vec::<usize>::new());
    assert_eq!(find_start_codes(&[0, 0]), Vec::<usize>::new());
    assert_eq!(find_start_codes(&[0, 0, 1]), vec![0]);
    assert_eq!(find_start_codes(&[9, 0, 0, 1, 5]), vec![1]);
    assert_eq!(find_start_codes(&[0, 0, 0, 1, 5]), vec![0]);
    assert_eq!(find_start_codes(&[0, 0, 0, 0, 1, 5]), vec![1]);
    assert_eq!(find_start_codes(&[0, 0, 1, 0, 0, 1, 0, 0, 0, 1]), vec![0, 3, 6]);
}

#[test]
fn unit_types() {
    assert_eq!(nal_unit_type(0x67, Codec::H264), 7);
    assert_eq!(nal_unit_type(0x65, Codec::H264), 5);
    assert_eq!(nal_unit_type(0x40, Codec::Hevc), 32);
    assert_eq!(nal_unit_type(0x26, Codec::Hevc), 19);
    assert!(!is_vcl_nal(0, Codec::H264));
    assert!(is_vcl_nal(1, Codec::H264));
    assert!(is_vcl_nal(5, Codec::H264));
    assert!(!is_vcl_nal(6, Codec::H264));
    assert!(is_vcl_nal(0, Codec::Hevc));
    assert!(is_vcl_nal(23, Codec::Hevc));
    assert!(!is_vcl_nal(24, Codec::Hevc));
    assert!(is_keyframe_vcl_nal(5, Codec::H264));
    assert!(!is_keyframe_vcl_nal(1, Codec::H264));
    assert!(!is_keyframe_vcl_nal(15, Codec::Hevc));
    assert!(is_keyframe_vcl_nal(16, Codec::Hevc));
    assert!(is_keyframe_vcl_nal(23, Codec::Hevc));
    assert!(!is_keyframe_vcl_nal(24, Codec::Hevc));
    assert!(is_parameter_set_nal(7, Codec::H264));
    assert!(is_parameter_set_nal(8, Codec::H264));
    assert!(!is_parameter_set_nal(9, Codec::H264));
    assert!(is_parameter_set_nal(32, Codec::Hevc));
    assert!(is_parameter_set_nal(34, Codec::Hevc));
    assert!(!is_parameter_set_nal(35, Codec::Hevc));
}

#[test]
fn frame_contents() {
    let mut frame = nal(Codec::H264, 9, &[1]);
    let sps = nal(Codec::H264, 7, &[2, 3]);
    let pps = vec![0, 0, 1, 8, 4];
    let idr = nal(Codec::H264, 5, &[5]);
    frame.extend_from_slice(&sps);
    frame.extend_from_slice(&pps);
    frame.extend_from_slice(&idr);
    assert!(frame_contains_keyframe(&frame, Codec::H264));
    let mut sets = sps.clone();
    sets.extend_from_slice(&pps);
    assert_eq!(extract_parameter_sets(&frame, Codec::H264), sets);
    assert!(!frame_contains_keyframe(&nal(Codec::H264, 1, &[]), Codec::H264));
    assert!(extract_parameter_sets(&idr, Codec::H264).is_empty());
    // A start code at the very end has no type.
    assert!(!frame_contains_keyframe(&[0, 0, 1], Codec::H264));
}

fn h264_stream() -> Vec<u8> {
    let mut stream = Vec::new();
    for part in [
        nal(Codec::H264, 1, &[1, 2]),
        nal(Codec::H264, 7, &[0xaa]),
        nal(Codec::H264, 8, &[0xbb]),
        nal(Codec::H264, 5, &[0xcc, 0, 0]),
        nal(Codec::H264, 5, &[0xcd]),
        nal(Codec::H264, 9, &[]),
        nal(Codec::H264, 1, &[0xdd]),
        nal(Codec::H264, 9, &[]),
        nal(Codec::H264, 9, &[]),
    ] {
        stream.extend_from_slice(&part);
    }
    stream
}

#[test]
fn pieces_of_the_stream_do_not_matter() {
    let stream = h264_stream();
    let mut whole = NalSplitter::new(false);
    let expected = whole.push(&stream);
    for size in 1..stream.len() {
        let mut splitter = NalSplitter::new(false);
        let mut frames = Vec::new();
        for piece in stream.chunks(size) {
            frames.extend(splitter.push(piece));
        }
        assert_eq!(frames.len(), expected.len());
        for (a, b) in frames.iter().zip(expected.iter()) {
            assert_eq!(a.payload, b.payload);
            assert_eq!(a.is_key, b.is_key);
        }
        assert_eq!(
            splitter.latest_parameter_sets(),
            whole.latest_parameter_sets()
        );
    }
}

#[test]
fn frames_hold_all_bytes_of_the_stream() {
    let stream = h264_stream();
    let mut splitter = NalSplitter::new(false);
    let frames = splitter.push(&stream);
    assert_eq!(frames.len(), 3);
    let mut joined = Vec::new();
    for frame in &frames {
        joined.extend_from_slice(&frame.payload);
    }
    assert_eq!(joined[..], stream[..joined.len()]);
    // What is left is the last frame's first NAL and the NAL still open.
    assert_eq!(joined.len(), stream.len() - 10);
    assert!(!frames[0].is_key);
    assert!(frames[1].is_key);
    assert!(!frames[2].is_key);
}

#[test]
fn parameter_sets_come_with_the_first_key_frame() {
    let mut splitter = NalSplitter::new(false);
    assert!(splitter.latest_parameter_sets().is_none());
    let mut early = nal(Codec::H264, 7, &[0x11]);
    early.extend_from_slice(&nal(Codec::H264, 1, &[1]));
    early.extend_from_slice(&nal(Codec::H264, 9, &[]));
    early.extend_from_slice(&nal(Codec::H264, 7, &[0x22]));
    let frames = splitter.push(&early);
    assert_eq!(frames.len(), 1);
    assert!(!frames[0].is_key);
    assert!(splitter.latest_parameter_sets().is_none());

    let mut later = nal(Codec::H264, 5, &[2]);
    later.extend_from_slice(&nal(Codec::H264, 9, &[]));
    later.extend_from_slice(&nal(Codec::H264, 1, &[3]));
    later.extend_from_slice(&nal(Codec::H264, 9, &[]));
    let frames = splitter.push(&later);
    assert_eq!(frames.len(), 1);
    assert!(frames[0].is_key);
    assert_eq!(
        splitter.latest_parameter_sets().unwrap().payload,
        nal(Codec::H264, 7, &[0x22])
    );

    // From then on the sets of every frame replace those before.
    let mut more = nal(Codec::H264, 8, &[0x33]);
    more.extend_from_slice(&nal(Codec::H264, 1, &[4]));
    more.extend_from_slice(&nal(Codec::H264, 9, &[]));
    more.extend_from_slice(&nal(Codec::H264, 9, &[]));
    splitter.push(&more);
    assert_eq!(
        splitter.latest_parameter_sets().unwrap().payload,
        nal(Codec::H264, 8, &[0x33])
    );
}

#[test]
fn slices_of_all_irap_types_stay_together() {
    for nal_type in 16..=23u8 {
        assert!(is_keyframe_vcl_nal(nal_type, Codec::Hevc));
        assert!(is_vcl_nal(nal_type, Codec::Hevc));
        assert!(!is_parameter_set_nal(nal_type, Codec::Hevc));
        let mut stream = nal(Codec::Hevc, 35, &[1]);
        let first = nal(Codec::Hevc, nal_type, &[2]);
        let second = nal(Codec::Hevc, nal_type, &[3]);
        stream.extend_from_slice(&first);
        stream.extend_from_slice(&second);
        let frame = stream.clone();
        stream.extend_from_slice(&nal(Codec::Hevc, 35, &[4]));
        stream.extend_from_slice(&nal(Codec::Hevc, 35, &[5]));
        let mut splitter = NalSplitter::new(true);
        let frames = splitter.push(&stream);
        assert_eq!(frames.len(), 1);
        assert!(frames[0].is_key);
        assert_eq!(frames[0].payload, frame);
    }
}

#[test]
fn parameter_sets_are_taken_out_once() {
    // The first set ends with a zero, and the start code of the second is short.
    let frame = [0, 0, 1, 7, 1, 0, 0, 0, 0, 1, 9, 0, 0, 1, 8, 2, 0, 0, 1, 5];
    let sets = extract_parameter_sets(&frame, Codec::H264);
    assert_eq!(sets, vec![0, 0, 1, 7, 1, 0, 0, 0, 1, 8, 2]);
    assert_eq!(extract_parameter_sets(&sets, Codec::H264), sets);
}

#[test]
fn parameter_sets_before_the_key_frame_are_held_back() {
    let mut splitter = NalSplitter::new(false);
    let sps = nal(Codec::H264, 7, &[0x11]);
    let mut stream = sps.clone();
    stream.extend_from_slice(&nal(Codec::H264, 1, &[1]));
    stream.extend_from_slice(&nal(Codec::H264, 9, &[]));
    stream.extend_from_slice(&nal(Codec::H264, 5, &[2]));
    let frames = splitter.push(&stream);
    assert_eq!(frames.len(), 1);
    assert!(!frames[0].is_key);
    assert!(splitter.latest_parameter_sets().is_none());

    // The key frame carries none itself, and those from before it come out.
    let mut rest = nal(Codec::H264, 9, &[]);
    rest.extend_from_slice(&nal(Codec::H264, 9, &[]));
    let frames = splitter.push(&rest);
    assert_eq!(frames.len(), 1);
    assert!(frames[0].is_key);
    assert_eq!(splitter.latest_parameter_sets().unwrap().payload, sps);
}
